//! Flashbook: normalized market-data events, limit order books, the feed
//! codecs that produce the events and the bus that carries them.
pub mod args;
pub mod bench;
pub mod binance;
pub mod book;
pub mod bookset;
pub mod btree;
pub mod capture;
pub mod clock;
pub mod codec;
pub mod coinbase;
pub mod conn;
pub mod crc;
pub mod emit;
pub mod event;
pub mod fixed;
pub mod instrument;
pub mod json;
pub mod kraken;
pub mod kraken_crc;
pub mod ladder;
pub mod laws;
pub mod levels;
pub mod object;
pub mod order;
pub mod rawlog;
pub mod ring;
pub mod scan;
pub mod sink;
pub mod span;
pub mod stats;
pub mod strings;
pub mod text;
pub mod wire;
