# flashbook

A market-data library for three crypto venues (Coinbase Exchange, Binance,
Kraken), written in Rust and verified with Verus: feed codecs with a zero-copy
fast path and a JSON reference path, a limit-order-book engine in two
representations, the CRC32 book checksum, a CRC-framed raw capture log, a
seqlock broadcast ring, and the rules of the connection loop and of the
benchmarks.

The functions under `src/` state what they return or change in `requires` and
`ensures` clauses, and Verus proves it. What a clock shows, and what a load from
memory that other threads share gives, is promised by none; verified functions
that take it as an argument say what it comes to. The handles of the broadcast
ring keep ghost records of their stores and loads, so the contract of a publish
says what is stored where, and that of a poll what is loaded from where and what
comes of it. The laws of the library as a whole are public proof functions next
to the functions that they speak of.

| path | contents |
|---|---|
| `src/event.rs`, `fixed.rs`, `instrument.rs`, `clock.rs` | the 64-byte event, exact 1e-8 fixed point, the instrument registry, timestamps |
| `src/rawlog.rs`, `sink.rs`, `crc.rs` | raw capture segments: framing, torn tails, rotation |
| `src/scan.rs`, `json.rs`, `text.rs`, `strings.rs` | scanning primitives, JSON documents as plain values, text |
| `src/codec.rs`, `emit.rs` | what every venue codec promises; how events are made |
| `src/coinbase`, `src/binance`, `src/kraken` | per venue: what a message says, the fast grammar, the reference reading, the state machine, and that both paths read what the venue writes alike |
| `src/wire.rs`, `object.rs`, `levels.rs` | messages as text, for those proofs |
| `src/book.rs`, `btree.rs`, `ladder.rs`, `bookset.rs`, `kraken_crc.rs` | the book, its two representations, book sets, the checksum |
| `src/ring.rs` | the broadcast ring, the records of its accesses, what the stores come to for the loads, and its word layout |
| `src/conn.rs`, `capture.rs`, `stats.rs` | backoff, REST scheduling, session decisions, the capture plan, counters |
| `src/bench.rs` | the decisions and exact figures of the benchmarks |
| `tests/` | the same behaviour on concrete values |
| `app/` | the programs: sockets, files, databases, threads, floating point |

What the library takes from other crates and from `std` without proof stands in
small functions marked `external_body`, and in `assume_specification` items;
each says what is believed of which outside function.
