//! The laws of the library: what its operations keep, how two calls of them
//! relate and what their results satisfy, over all inputs.
pub mod bench;
pub mod binance;
pub mod book;
pub mod bookset;
pub mod coinbase;
pub mod conn;
pub mod digits;
pub mod event;
pub mod fixed;
pub mod grammar;
pub mod kraken;
pub mod lists;
pub mod messages;
pub mod ops;
pub mod rawlog;
pub mod ring;
pub mod scan;
pub mod stats;
pub mod system;
pub mod texts;
