//! Kraken codec: both parse paths on real frames, the CRC32 book-checksum
//! oracle and malformed input.
use flashbook::codec::{CodecError, Signal, SymbolTable, VenueCodec};
use flashbook::event::{flags, Event, EventKind, Venue};
use flashbook::instrument::Registry;
use flashbook::kraken::pairs::{check_pair_decimals, pair_decimals, v1_wsname};
use flashbook::kraken::slow::quote_numeric_tokens;
use flashbook::kraken::KrakenCodec;
use flashbook::kraken_crc::kraken_book_crc32;
use std::collections::{BTreeMap, HashMap};

const MONO: u64 = 111_000;
const WALL: u64 = 1_783_465_000_000_000_000;

/// The first BTC/USD book snapshot of a live capture.
const BTC_SNAPSHOT: &str = r#"{"channel":"book","type":"snapshot","data":[{"symbol":"BTC/USD","bids":[{"price":63501.6,"qty":0.63889204},{"price":63500.9,"qty":0.00005100},{"price":63499.0,"qty":0.78741286},{"price":63498.0,"qty":1.30271205},{"price":63497.7,"qty":0.00005100},{"price":63497.0,"qty":0.00015000},{"price":63496.4,"qty":0.27044082},{"price":63496.3,"qty":0.81891828},{"price":63495.8,"qty":0.02713013},{"price":63495.2,"qty":0.05990000}],"asks":[{"price":63501.9,"qty":0.00100000},{"price":63502.0,"qty":0.00073311},{"price":63502.1,"qty":0.01946065},{"price":63502.2,"qty":0.06514381},{"price":63504.0,"qty":0.00005100},{"price":63504.7,"qty":0.47474367},{"price":63504.8,"qty":0.78734230},{"price":63505.1,"qty":0.00786998},{"price":63505.9,"qty":0.78732894},{"price":63506.4,"qty":0.00783883}],"checksum":423379305}]}"#;

fn kraken_table() -> SymbolTable {
    let reg = Registry::builtin();
    SymbolTable::new(
        reg.for_venue(Venue::Kraken)
            .iter()
            .map(|m| (m.venue_symbol.clone(), m.id))
            .collect(),
    )
}

fn codec() -> KrakenCodec {
    KrakenCodec::new(kraken_table())
}

/// Parse one payload with a fresh codec's fast path, unwrapping the result.
fn parse_fast(payload: &str) -> (Signal, Vec<Event>) {
    let mut c = codec();
    let mut out = Vec::new();
    let sig = c
        .parse(payload.as_bytes(), MONO, WALL, &mut out)
        .unwrap_or_else(|e| panic!("fast parse failed: {e:?}: {payload}"));
    (sig, out)
}

/// Parse one payload with a fresh codec's slow path, unwrapping the result.
fn parse_slow(payload: &str) -> (Signal, Vec<Event>) {
    let mut c = codec();
    let mut out = Vec::new();
    let sig = c
        .parse_slow(payload.as_bytes(), MONO, WALL, &mut out)
        .unwrap_or_else(|e| panic!("slow parse failed: {e:?}: {payload}"));
    (sig, out)
}

/// Assert fast and slow agree on `payload` and return the shared result.
fn parse_both(payload: &str) -> (Signal, Vec<Event>) {
    let (sf, ef) = parse_fast(payload);
    let (ss, es) = parse_slow(payload);
    assert_eq!(sf, ss, "signal mismatch: {payload}");
    assert_eq!(ef, es, "event mismatch: {payload}");
    (sf, ef)
}

#[test]
fn kraken_golden_btc_snapshot() {
    // The first BTC/USD book snapshot of a live capture.
    let line = BTC_SNAPSHOT;
    let (sig, out) = parse_both(line);
    assert_eq!(sig, Signal::Nothing);
    // Clear + SnapBegin + 10 SnapBid + 10 SnapAsk + SnapEnd
    assert_eq!(out.len(), 23);
    for (i, e) in out.iter().enumerate() {
        assert_eq!(e.recv_mono_ns, MONO, "event {i}");
        assert_eq!(e.recv_wall_ns, WALL, "event {i}");
        assert_eq!(e.venue_ts_ns, 0, "snapshots carry no venue_ts (event {i})");
        assert_eq!(e.venue_seq, 0, "event {i}");
        assert_eq!(e.instrument, 11, "event {i}"); // BTC/USD on Kraken
        assert_eq!(e.venue, Venue::Kraken.code(), "event {i}");
        assert_eq!(e.flags, flags::FROM_SNAPSHOT, "event {i}");
        assert_eq!(e.rsvd, 0, "event {i}");
    }
    assert_eq!(out[0].kind, EventKind::Clear.code());
    assert_eq!(out[1].kind, EventKind::SnapBegin.code());
    assert_eq!(out[1].aux, 20);
    // best bid: {"price":63501.6,"qty":0.63889204}
    assert_eq!(out[2].kind, EventKind::SnapBid.code());
    assert_eq!(out[2].price, 6_350_160_000_000);
    assert_eq!(out[2].qty, 63_889_204);
    // last bid: {"price":63495.2,"qty":0.05990000}
    assert_eq!(out[11].kind, EventKind::SnapBid.code());
    assert_eq!(out[11].price, 6_349_520_000_000);
    assert_eq!(out[11].qty, 5_990_000);
    // best ask: {"price":63501.9,"qty":0.00100000}
    assert_eq!(out[12].kind, EventKind::SnapAsk.code());
    assert_eq!(out[12].price, 6_350_190_000_000);
    assert_eq!(out[12].qty, 100_000);
    assert_eq!(out[22].kind, EventKind::SnapEnd.code());
    assert_eq!(out[22].aux, 423_379_305); // venue checksum
}

#[test]
fn golden_eth_book_update() {
    // Verbatim line 9 of live-btc-eth.ndjson.
    let line = r#"{"channel":"book","type":"update","data":[{"symbol":"ETH/USD","bids":[],"asks":[{"price":1774.14,"qty":2.00130641}],"checksum":3356266482,"timestamp":"2026-07-07T23:00:03.977459Z"}]}"#;
    let (sig, out) = parse_both(line);
    assert_eq!(sig, Signal::Nothing);
    assert_eq!(out.len(), 2);
    let ask = &out[0];
    assert_eq!(ask.kind, EventKind::AskSet.code());
    assert_eq!(ask.instrument, 12); // ETH/USD on Kraken
    assert_eq!(ask.price, 177_414_000_000); // 1774.14 at 1e-8
    assert_eq!(ask.qty, 200_130_641);
    assert_eq!(ask.venue_ts_ns, 1_783_465_203_977_459_000); // python datetime
    assert_eq!(ask.venue_seq, 0);
    assert_eq!(ask.flags, 0);
    let ck = &out[1];
    assert_eq!(ck.kind, EventKind::Checksum.code());
    assert_eq!(ck.aux, 3_356_266_482);
    assert_eq!(ck.venue_ts_ns, 1_783_465_203_977_459_000);
    assert_eq!(ck.instrument, 12);
    assert_eq!(ck.price, 0);
    assert_eq!(ck.qty, 0);
}

#[test]
fn golden_eth_trade() {
    // Verbatim trade line from live-btc-eth.ndjson.
    let line = r#"{"channel":"trade","type":"update","data":[{"symbol":"ETH/USD","side":"buy","price":1774.14,"qty":0.00147959,"ord_type":"limit","trade_id":64175815,"timestamp":"2026-07-07T23:00:04.585581Z"}]}"#;
    let (sig, out) = parse_both(line);
    assert_eq!(sig, Signal::Nothing);
    assert_eq!(out.len(), 1);
    let t = &out[0];
    assert_eq!(t.kind, EventKind::Trade.code());
    assert_eq!(t.instrument, 12);
    assert_eq!(t.price, 177_414_000_000);
    assert_eq!(t.qty, 147_959);
    assert_eq!(t.aux, 64_175_815);
    assert_eq!(t.venue_seq, 64_175_815);
    assert_eq!(t.venue_ts_ns, 1_783_465_204_585_581_000); // python datetime
    assert_eq!(t.flags, 0, "buy => taker bought, no TAKER_SELL");
    assert_eq!(t.venue, Venue::Kraken.code());
}

#[test]
fn control_plane_signals() {
    let status = r#"{"channel":"status","type":"update","data":[{"version":"2.0.10","system":"online","api_version":"v2","connection_id":1}]}"#;
    let ack = r#"{"method":"subscribe","result":{"channel":"book","depth":10,"snapshot":true,"symbol":"BTC/USD"},"success":true,"time_in":"2026-07-07T23:00:03.501510Z","time_out":"2026-07-07T23:00:03.501553Z"}"#;
    let nack = r#"{"method":"subscribe","result":{"channel":"book","symbol":"NOPE/USD"},"success":false,"error":"Currency pair not supported"}"#;
    for line in [status, ack, nack] {
        let (sig, out) = parse_both(line);
        assert_eq!(sig, Signal::Control, "{line}");
        assert!(out.is_empty(), "{line}");
    }
    // channels we deliberately don't handle
    let ticker =
        r#"{"channel":"ticker","type":"update","data":[{"symbol":"BTC/USD","last":63500.0}]}"#;
    let (sig, out) = parse_both(ticker);
    assert_eq!(sig, Signal::Ignored);
    assert!(out.is_empty());
}

#[test]
fn heartbeat_emits_connection_level_event() {
    let (sig, out) = parse_both(r#"{"channel":"heartbeat"}"#);
    assert_eq!(sig, Signal::Nothing);
    assert_eq!(out.len(), 1);
    let e = &out[0];
    assert_eq!(e.kind, EventKind::Heartbeat.code());
    assert_eq!(e.instrument, 0, "connection-level, not per-instrument");
    assert_eq!(e.venue_ts_ns, 0);
    assert_eq!(e.venue_seq, 0);
    assert_eq!((e.price, e.qty, e.aux), (0, 0, 0));
    assert_eq!(e.flags, 0);
    assert_eq!(e.venue, Venue::Kraken.code());
    assert_eq!(e.recv_mono_ns, MONO);
    assert_eq!(e.recv_wall_ns, WALL);
}

#[test]
fn trade_snapshot_flag_and_taker_sell() {
    // Historical trades sent on subscribe are type=snapshot; side is the
    // taker side, so "sell" sets TAKER_SELL.
    let line = r#"{"channel":"trade","type":"snapshot","data":[{"symbol":"BTC/USD","side":"sell","price":63500.1,"qty":0.5,"ord_type":"market","trade_id":42,"timestamp":"2026-07-07T23:00:04.585581Z"},{"symbol":"BTC/USD","side":"buy","price":63500.2,"qty":0.25,"ord_type":"limit","trade_id":43,"timestamp":"2026-07-07T23:00:04.585581Z"}]}"#;
    let (sig, out) = parse_both(line);
    assert_eq!(sig, Signal::Nothing);
    assert_eq!(out.len(), 2);
    assert_eq!(out[0].flags, flags::FROM_SNAPSHOT | flags::TAKER_SELL);
    assert_eq!(out[0].price, 6_350_010_000_000);
    assert_eq!(out[0].qty, 50_000_000);
    assert_eq!(out[0].aux, 42);
    assert_eq!(out[1].flags, flags::FROM_SNAPSHOT);
    assert_eq!(out[1].aux, 43);
}

#[test]
fn multi_entry_book_update_preserves_order() {
    // One frame, two symbols; per entry: bids, then asks, then checksum.
    // Also exercises qty 0 (level delete).
    let line = r#"{"channel":"book","type":"update","data":[{"symbol":"BTC/USD","bids":[{"price":63501.6,"qty":0.00000000}],"asks":[{"price":63501.9,"qty":1.5}],"checksum":111,"timestamp":"2026-07-07T23:00:03.977459Z"},{"symbol":"ETH/USD","bids":[{"price":1774.13,"qty":2.0}],"asks":[],"checksum":222,"timestamp":"2026-07-07T23:00:04.585581Z"}]}"#;
    let (sig, out) = parse_both(line);
    assert_eq!(sig, Signal::Nothing);
    let kinds: Vec<u8> = out.iter().map(|e| e.kind).collect();
    assert_eq!(
        kinds,
        vec![
            EventKind::BidSet.code(),
            EventKind::AskSet.code(),
            EventKind::Checksum.code(),
            EventKind::BidSet.code(),
            EventKind::Checksum.code(),
        ]
    );
    assert_eq!(out[0].instrument, 11);
    assert_eq!(out[0].qty, 0, "qty 0 deletes the level");
    assert_eq!(out[1].qty, 150_000_000);
    assert_eq!(out[2].aux, 111);
    assert_eq!(out[2].venue_ts_ns, 1_783_465_203_977_459_000);
    assert_eq!(out[3].instrument, 12);
    assert_eq!(out[3].venue_ts_ns, 1_783_465_204_585_581_000);
    assert_eq!(out[4].aux, 222);
}

/// Legal-JSON whitespace after `"price":` / `"qty":` must not defeat the
/// slow path's number-quoting pre-pass: a reformatted frame parses via
/// parse_slow identically to its compact form. (The fast path's exact
/// byte-literal matching rejects the spaced form by design; it falls back
/// to the slow path in production.)
#[test]
fn slow_path_tolerates_whitespace_after_price_qty_keys() {
    let compact = r#"{"channel":"book","type":"update","data":[{"symbol":"ETH/USD","bids":[{"price":1774.13,"qty":2.0}],"asks":[{"price":1774.14,"qty":2.00130641}],"checksum":3356266482,"timestamp":"2026-07-07T23:00:03.977459Z"}]}"#;
    let spaced = r#"{"channel":"book","type":"update","data":[{"symbol":"ETH/USD","bids":[{"price": 1774.13,"qty":	2.0}],"asks":[{"price":  1774.14,"qty":
2.00130641}],"checksum":3356266482,"timestamp":"2026-07-07T23:00:03.977459Z"}]}"#;
    let (sig_c, out_c) = parse_both(compact);
    let (sig_s, out_s) = parse_slow(spaced);
    assert_eq!(sig_c, sig_s);
    assert_eq!(out_c, out_s, "spaced book update must parse identically");

    let compact = r#"{"channel":"trade","type":"update","data":[{"symbol":"ETH/USD","side":"buy","price":1774.14,"qty":0.00147959,"ord_type":"limit","trade_id":64175815,"timestamp":"2026-07-07T23:00:04.585581Z"}]}"#;
    let spaced = r#"{"channel":"trade","type":"update","data":[{"symbol":"ETH/USD","side":"buy","price": 1774.14,"qty": 0.00147959,"ord_type":"limit","trade_id":64175815,"timestamp":"2026-07-07T23:00:04.585581Z"}]}"#;
    let (sig_c, out_c) = parse_both(compact);
    let (sig_s, out_s) = parse_slow(spaced);
    assert_eq!(sig_c, sig_s);
    assert_eq!(out_c, out_s, "spaced trade must parse identically");
}

#[test]
fn unknown_symbol_is_an_error_in_both_paths() {
    let book = r#"{"channel":"book","type":"update","data":[{"symbol":"ADA/USD","bids":[],"asks":[{"price":1.0,"qty":1.0}],"checksum":1,"timestamp":"2026-07-07T23:00:03.977459Z"}]}"#;
    let trade = r#"{"channel":"trade","type":"update","data":[{"symbol":"ADA/USD","side":"buy","price":1.0,"qty":1.0,"ord_type":"limit","trade_id":1,"timestamp":"2026-07-07T23:00:03.977459Z"}]}"#;
    for line in [book, trade] {
        let mut c = codec();
        let mut out = Vec::new();
        assert!(matches!(
            c.parse(line.as_bytes(), MONO, WALL, &mut out),
            Err(CodecError::UnknownInstrument)
        ));
        assert!(out.is_empty(), "no partial events: {line}");
        assert!(matches!(
            c.parse_slow(line.as_bytes(), MONO, WALL, &mut out),
            Err(CodecError::UnknownInstrument)
        ));
        assert!(out.is_empty(), "no partial events (slow): {line}");
    }
}

#[test]
fn malformed_inputs_error_cleanly() {
    let cases: &[&str] = &[
        // truncated mid-message
        r#"{"channel":"book","type":"update","data":[{"symbol":"BTC/USD","bids":[{"price":63501.6,"#,
        // bad number token
        r#"{"channel":"book","type":"update","data":[{"symbol":"BTC/USD","bids":[{"price":1.2.3,"qty":1.0}],"asks":[],"checksum":1,"timestamp":"2026-07-07T23:00:03.977459Z"}]}"#,
        // wrong-type checksum
        r#"{"channel":"book","type":"update","data":[{"symbol":"BTC/USD","bids":[],"asks":[],"checksum":"abc","timestamp":"2026-07-07T23:00:03.977459Z"}]}"#,
        // update missing its timestamp
        r#"{"channel":"book","type":"update","data":[{"symbol":"BTC/USD","bids":[],"asks":[{"price":1.0,"qty":1.0}],"checksum":1}]}"#,
        // bogus timestamp
        r#"{"channel":"book","type":"update","data":[{"symbol":"BTC/USD","bids":[],"asks":[],"checksum":1,"timestamp":"2026-13-99T99:99:99Z"}]}"#,
        // unknown message type
        r#"{"channel":"book","type":"delta","data":[]}"#,
        // bad trade side
        r#"{"channel":"trade","type":"update","data":[{"symbol":"BTC/USD","side":"hold","price":1.0,"qty":1.0,"ord_type":"limit","trade_id":1,"timestamp":"2026-07-07T23:00:03.977459Z"}]}"#,
        // not JSON at all
        "hello world",
        "",
        // precision finer than 1e-8
        r#"{"channel":"book","type":"update","data":[{"symbol":"BTC/USD","bids":[{"price":1.000000001,"qty":1.0}],"asks":[],"checksum":1,"timestamp":"2026-07-07T23:00:03.977459Z"}]}"#,
    ];
    let sentinel = Event {
        recv_mono_ns: 7,
        kind: EventKind::Heartbeat.code(),
        venue: Venue::Kraken.code(),
        ..Event::zero()
    };
    for line in cases {
        let mut c = codec();
        let mut out = vec![sentinel];
        assert!(
            c.parse(line.as_bytes(), MONO, WALL, &mut out).is_err(),
            "fast should error: {line}"
        );
        assert_eq!(out, vec![sentinel], "buffer restored (fast): {line}");
        assert!(
            c.parse_slow(line.as_bytes(), MONO, WALL, &mut out).is_err(),
            "slow should error: {line}"
        );
        assert_eq!(out, vec![sentinel], "buffer restored (slow): {line}");
    }
}

#[test]
fn buffer_restored_after_mid_message_failure() {
    // First entry parses fine; the second entry's ask qty is malformed, so
    // the already-emitted BTC events must be rolled back.
    let line = r#"{"channel":"book","type":"update","data":[{"symbol":"BTC/USD","bids":[{"price":63501.6,"qty":1.0}],"asks":[],"checksum":111,"timestamp":"2026-07-07T23:00:03.977459Z"},{"symbol":"ETH/USD","bids":[],"asks":[{"price":1774.14,"qty":1..2}],"checksum":222,"timestamp":"2026-07-07T23:00:03.977459Z"}]}"#;
    let mut c = codec();
    let mut out = Vec::new();
    assert!(c.parse(line.as_bytes(), MONO, WALL, &mut out).is_err());
    assert!(out.is_empty(), "partial BTC events must be rolled back");
    assert!(c.parse_slow(line.as_bytes(), MONO, WALL, &mut out).is_err());
    assert!(
        out.is_empty(),
        "partial BTC events must be rolled back (slow)"
    );
}

#[test]
fn pair_decimals_match_asset_pairs() {
    assert_eq!(pair_decimals("BTC/USD"), Some((1, 8)));
    assert_eq!(pair_decimals("ETH/USD"), Some((2, 8)));
    assert_eq!(pair_decimals("SOL/USD"), Some((2, 8)));
    assert_eq!(pair_decimals("XRP/USD"), Some((5, 8)));
    assert_eq!(pair_decimals("DOGE/USD"), Some((7, 8)));
    assert_eq!(pair_decimals("ADA/USD"), None);
    assert_eq!(pair_decimals("XBT/USD"), None, "v1 names are not used");
}

#[test]
fn ws_url_and_subscribe_messages() {
    let c = codec();
    assert_eq!(c.venue(), Venue::Kraken);
    assert_eq!(c.ws_url(), "wss://ws.kraken.com/v2");
    let msgs = c.subscribe_messages();
    assert_eq!(msgs.len(), 2);
    let book: serde_json::Value = serde_json::from_str(&msgs[0]).unwrap();
    assert_eq!(book["method"], "subscribe");
    assert_eq!(book["params"]["channel"], "book");
    assert_eq!(book["params"]["depth"], 100);
    let syms: Vec<&str> = book["params"]["symbol"]
        .as_array()
        .unwrap()
        .iter()
        .map(|v| v.as_str().unwrap())
        .collect();
    assert_eq!(
        syms,
        ["BTC/USD", "ETH/USD", "SOL/USD", "XRP/USD", "DOGE/USD"]
    );
    let trade: serde_json::Value = serde_json::from_str(&msgs[1]).unwrap();
    assert_eq!(trade["params"]["channel"], "trade");
    assert_eq!(trade["params"]["symbol"], book["params"]["symbol"]);
    assert!(trade["params"].get("depth").is_none());
    // Matches the capture configuration: no historical-trade snapshot.
    assert_eq!(trade["params"]["snapshot"], false);
    assert!(
        book["params"].get("snapshot").is_none(),
        "book subscription unchanged"
    );
}

#[test]
fn stats_count_fast_msgs_and_events() {
    let mut c = codec();
    let mut out = Vec::new();
    c.parse(br#"{"channel":"heartbeat"}"#, MONO, WALL, &mut out)
        .unwrap();
    let bad = br#"{"channel":"book","type":"update","data":[{"symbol":"BTC/USD","#;
    assert!(c.parse(bad, MONO, WALL, &mut out).is_err());
    c.parse_slow(br#"{"channel":"heartbeat"}"#, MONO, WALL, &mut out)
        .unwrap();
    assert_eq!(c.stats().fast_msgs, 1, "errors don't count as fast msgs");
    assert_eq!(c.stats().events, 2);
    assert_eq!(c.stats().gaps, 0, "kraken v2 has no seq numbers, no gaps");
}

/// `(price, qty)` mantissa levels, best-first, as [`kraken_book_crc32`] wants.
type Levels = Vec<(i64, i64)>;

#[derive(Default)]
struct Book {
    bids: BTreeMap<i64, i64>,
    asks: BTreeMap<i64, i64>,
}

impl Book {
    fn set(side: &mut BTreeMap<i64, i64>, price: i64, qty: i64) {
        if qty == 0 {
            side.remove(&price);
        } else {
            side.insert(price, qty);
        }
    }

    /// Kraken truncates the client book to the subscription depth: when an
    /// insert pushes a side past `depth`, the worst levels fall off (the
    /// venue re-sends them if they come back into range).
    fn truncate(&mut self, depth: usize) {
        while self.bids.len() > depth {
            self.bids.pop_first(); // lowest bid is worst
        }
        while self.asks.len() > depth {
            self.asks.pop_last(); // highest ask is worst
        }
    }

    fn top10(&self) -> (Levels, Levels) {
        let asks = self.asks.iter().take(10).map(|(&p, &q)| (p, q)).collect();
        let bids = self
            .bids
            .iter()
            .rev()
            .take(10)
            .map(|(&p, &q)| (p, q))
            .collect();
        (asks, bids)
    }
}

/// Replay `lines` through the fast path, mirror book state from the emitted
/// events, and assert every venue checksum (SnapEnd + Checksum events)
/// against [`kraken_book_crc32`]. Returns the number of checks performed.
fn run_crc_oracle(lines: &[String], depth: usize) -> usize {
    let reg = Registry::builtin();
    let mut c = codec();
    let mut books: HashMap<u32, Book> = HashMap::new();
    let mut out = Vec::new();
    let mut checks = 0usize;
    for (i, line) in lines.iter().enumerate() {
        out.clear();
        c.parse(line.as_bytes(), MONO, WALL, &mut out)
            .unwrap_or_else(|e| panic!("parse error line {i}: {e:?}"));
        for e in &out {
            let book = books.entry(e.instrument).or_default();
            match e.kind().unwrap() {
                EventKind::Clear => {
                    book.bids.clear();
                    book.asks.clear();
                }
                EventKind::SnapBid | EventKind::BidSet => {
                    Book::set(&mut book.bids, e.price, e.qty);
                }
                EventKind::SnapAsk | EventKind::AskSet => {
                    Book::set(&mut book.asks, e.price, e.qty);
                }
                EventKind::SnapEnd | EventKind::Checksum => {
                    book.truncate(depth);
                    let sym = &reg.get(e.instrument).unwrap().venue_symbol;
                    let (pd, qd) = pair_decimals(sym).unwrap();
                    let (asks, bids) = book.top10();
                    let crc = kraken_book_crc32(&asks, &bids, pd, qd);
                    assert_eq!(
                        u64::from(crc),
                        e.aux,
                        "checksum mismatch line {i} sym {sym}: {line}"
                    );
                    checks += 1;
                }
                _ => {}
            }
        }
    }
    checks
}

#[test]
fn crc_oracle_over_a_snapshot() {
    let lines = [BTC_SNAPSHOT.to_string()];
    assert_eq!(run_crc_oracle(&lines, 10), 1);
}

#[test]
fn numbers_are_quoted_before_the_reference_parse() {
    let plain = br#"{"price":1.50,"qty": 2e-3,"qty":"7","x":{"price":}}"#;
    let quoted = quote_numeric_tokens(plain);
    assert_eq!(
        quoted,
        br#"{"price":"1.50","qty": "2e-3","qty":"7","x":{"price":}}"#.to_vec()
    );
}

#[test]
fn rest_snapshots_are_ignored() {
    let mut c = codec();
    let mut out = Vec::new();
    assert!(matches!(
        c.parse_rest_snapshot(11, b"{}", MONO, WALL, &mut out),
        Ok(Signal::Ignored)
    ));
    assert!(out.is_empty());
}

#[test]
fn pair_precision_drift_is_reported() {
    assert_eq!(v1_wsname("BTC/USD"), "XBT/USD");
    assert_eq!(v1_wsname("ETH/USD"), "ETH/USD");
    let pinned = vec![("BTC/USD".to_string(), (1, 8))];
    let same = r#"{"error":[],"result":{"XXBTZUSD":{"wsname":"XBT/USD","pair_decimals":1,"lot_decimals":8}}}"#;
    assert!(check_pair_decimals(same, &pinned).unwrap().is_empty());
    let drifted = r#"{"error":[],"result":{"XXBTZUSD":{"wsname":"XBT/USD","pair_decimals":2,"lot_decimals":8}}}"#;
    assert_eq!(check_pair_decimals(drifted, &pinned).unwrap().len(), 1);
    assert!(check_pair_decimals("not json", &pinned).is_err());
    assert!(check_pair_decimals(r#"{"error":["EGeneral"],"result":{}}"#, &pinned).is_err());
}

#[test]
fn mutations_and_truncations_never_leak_events() {
    for pos in 0..BTC_SNAPSHOT.len() {
        for byte in [0u8, b'"', b'}', b'9', 0xff] {
            let mut bytes = BTC_SNAPSHOT.as_bytes().to_vec();
            bytes[pos] = byte;
            let mut c = codec();
            let mut out = Vec::new();
            if c.parse(&bytes, MONO, WALL, &mut out).is_err() {
                assert!(out.is_empty());
            }
        }
        let mut c = codec();
        let mut out = Vec::new();
        if c
            .parse(&BTC_SNAPSHOT.as_bytes()[..pos], MONO, WALL, &mut out)
            .is_err()
        {
            assert!(out.is_empty());
        }
    }
}

/// What both paths say is wrong with a frame.
fn errors_of(payload: &str) -> (String, String) {
    let mut out = Vec::new();
    let f = codec().parse(payload.as_bytes(), MONO, WALL, &mut out);
    let s = codec().parse_slow(payload.as_bytes(), MONO, WALL, &mut out);
    assert!(out.is_empty());
    (
        f.expect_err("fast path reads it").message(),
        s.expect_err("slow path reads it").message(),
    )
}

#[test]
fn wrong_frames_of_the_venue_read_alike() {
    let book = |price: &str, time: &str| {
        format!(
            r#"{{"channel":"book","type":"update","data":[{{"symbol":"BTC/USD","bids":[{{"price":{price},"qty":1}}],"asks":[],"checksum":1,"timestamp":"{time}"}}]}}"#
        )
    };
    let trade = |side: &str, price: &str| {
        format!(
            r#"{{"channel":"trade","type":"update","data":[{{"symbol":"BTC/USD","side":"{side}","price":{price},"qty":1,"ord_type":"limit","trade_id":7,"timestamp":"2026-07-07T22:58:17Z"}}]}}"#
        )
    };
    let time = "2026-07-07T22:58:17.164892Z";
    parse_both(&book("1.5", time));
    parse_both(&trade("sell", "1.5"));
    for line in [
        book("0.123456789", time),
        book("1.5", ":timestamp"),
        trade("hold", "1.5"),
        trade("buy", "0.000000001"),
    ] {
        let (f, s) = errors_of(&line);
        assert_eq!(f, s, "{line}");
    }
    // wrong both in its level and in its timestamp: either is reported
    let (f, s) = errors_of(&book("0.123456789", "soon"));
    assert_ne!(f, s);
    assert_eq!(s, "json structure: bad timestamp");
    // another channel, and the answer to a request
    let (sig, out) = parse_both(r#"{"channel":":book","type":"update","data":[]}"#);
    assert_eq!((sig, out.len()), (Signal::Ignored, 0));
    let (sig, out) = parse_both(r#"{"method":"subscribe","channel":null,"success":true}"#);
    assert_eq!((sig, out.len()), (Signal::Control, 0));
}

#[test]
fn whitespace_behind_a_key_changes_nothing() {
    let line = r#"{"channel":"book","type":"update","data":[{"symbol":"ETH/USD","bids":[],"asks":[{"price":1774.14,"qty":2.00130641}],"checksum":3356266482,"timestamp":"2026-07-07T23:00:03.977459Z"}]}"#;
    for ws in [" ", "\n", "\t \r\n"] {
        let spaced = line
            .replace("\"price\":", &format!("\"price\":{ws}"))
            .replace("\"qty\":", &format!("\"qty\":{ws}"));
        assert_ne!(spaced, line);
        assert_eq!(parse_slow(&spaced), parse_slow(line));
    }
    assert_eq!(
        quote_numeric_tokens(b"{\"price\": 1.5,\"qty\":\t2}"),
        b"{\"price\": \"1.5\",\"qty\":\t\"2\"}".to_vec()
    );
}

#[test]
fn records_may_be_arrays_on_the_slow_path() {
    let line = r#"{"channel":"book","type":"update","data":[{"symbol":"ETH/USD","bids":[],"asks":[{"price":1774.14,"qty":2.5}],"checksum":7,"timestamp":"2026-07-07T23:00:03.977459Z"}]}"#;
    let want = parse_slow(line);
    let level = line.replace(r#"{"price":1774.14,"qty":2.5}"#, r#"["1774.14","2.5"]"#);
    assert_eq!(parse_slow(&level), want);
    let entry = r#"{"channel":"book","type":"update","data":[["ETH/USD",[],[["1774.14","2.5"]],7,"2026-07-07T23:00:03.977459Z"]]}"#;
    assert_eq!(parse_slow(entry), want);
    let trade = r#"{"channel":"trade","type":"update","data":[{"symbol":"ETH/USD","side":"sell","price":1774.14,"qty":2.5,"trade_id":9,"timestamp":"2026-07-07T23:00:03.977459Z"}]}"#;
    let flat = r#"{"channel":"trade","type":"update","data":[["ETH/USD","sell","1774.14","2.5",9,"2026-07-07T23:00:03.977459Z"]]}"#;
    assert_eq!(parse_slow(flat), parse_slow(trade));
    assert_eq!(parse_slow(r#"["heartbeat"]"#), parse_slow(r#"{"channel":"heartbeat"}"#));
    // one item too many, and one too few
    let mut out = Vec::new();
    for bad in [r#"["1774.14","2.5","1"]"#, r#"["1774.14"]"#] {
        let frame = line.replace(r#"{"price":1774.14,"qty":2.5}"#, bad);
        assert!(matches!(
            codec().parse_slow(frame.as_bytes(), MONO, WALL, &mut out),
            Err(CodecError::Structure("book entries"))
        ));
    }
}

#[test]
fn venue_errors_are_shown_item_by_item() {
    let body = r#"{"error":["EGeneral:\"x\"",7,null,[true],{"a":1.5}],"result":{}}"#;
    assert_eq!(
        check_pair_decimals(body, &[]),
        Err(String::from(
            "AssetPairs: venue error: [String(\"EGeneral:\\\"x\\\"\"), Number(7), Null, \
             Array [Bool(true)], Object {\"a\": Number(1.5)}]"
        ))
    );
    // no errors, and a member that is no list, are no venue error
    assert_eq!(check_pair_decimals(r#"{"error":[],"result":{}}"#, &[]), Ok(Vec::new()));
    assert_eq!(check_pair_decimals(r#"{"error":"x","result":{}}"#, &[]), Ok(Vec::new()));
}
