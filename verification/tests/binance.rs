//! Binance codec: both parse paths on real and synthetic frames, the
//! diff-depth sync protocol and malformed input.
use flashbook::binance::BinanceCodec;
use flashbook::codec::{CodecError, Signal, SymbolTable, VenueCodec};
use flashbook::event::{flags, Event, EventKind, Venue};

const BTC: u32 = 6;
const ETH: u32 = 7;

/// A trade of each side around one depth update, as captured.
const LINES: [&str; 3] = [
    r#"{"stream":"btcusdt@trade","data":{"e":"trade","E":1783465157897,"s":"BTCUSDT","t":6486989273,"p":"63551.02000000","q":"0.00317000","T":1783465157897,"m":true,"M":true}}"#,
    r#"{"stream":"ethusdt@trade","data":{"e":"trade","E":1783465157902,"s":"ETHUSDT","t":2486989273,"p":"1774.93000000","q":"0.50000000","T":1783465157901,"m":false,"M":true}}"#,
    r#"{"stream":"btcusdt@depth@100ms","data":{"e":"depthUpdate","E":1783465157917,"s":"BTCUSDT","U":97109082200,"u":97109082205,"b":[["63551.02000000","1.87857000"],["57195.92000000","0.00480000"]],"a":[]}}"#,
];

fn table() -> SymbolTable {
    SymbolTable::new(vec![("BTCUSDT".to_string(), BTC), ("ETHUSDT".to_string(), ETH)])
}

fn codecs() -> (BinanceCodec, BinanceCodec) {
    (BinanceCodec::new(table()), BinanceCodec::new(table()))
}

fn depth_line(sym: &str, first_u: u64, final_u: u64, bids: &str, asks: &str) -> String {
    let lower = sym.to_lowercase();
    format!(
        r#"{{"stream":"{lower}@depth@100ms","data":{{"e":"depthUpdate","E":1700000000123,"s":"{sym}","U":{first_u},"u":{final_u},"b":[{bids}],"a":[{asks}]}}}}"#
    )
}

fn trade_line(sym: &str, t: u64, p: &str, q: &str, t_ms: u64, m: bool) -> String {
    let lower = sym.to_lowercase();
    format!(
        r#"{{"stream":"{lower}@trade","data":{{"e":"trade","E":{t_ms},"s":"{sym}","t":{t},"p":"{p}","q":"{q}","T":{t_ms},"m":{m},"M":true}}}}"#
    )
}

fn snap_body(last_update_id: u64) -> String {
    format!(
        r#"{{"lastUpdateId":{last_update_id},"bids":[["100.00","1.00"]],"asks":[["101.00","1.00"]]}}"#
    )
}

/// Parse one payload through fast codec A and slow codec B with the same
/// fixed recv timestamps; assert identical events and signal; return them.
fn step_both(
    fast: &mut BinanceCodec,
    slow: &mut BinanceCodec,
    payload: &[u8],
    mono: u64,
    wall: u64,
) -> (Signal, Vec<Event>) {
    let mut out_f = Vec::new();
    let mut out_s = Vec::new();
    let sig_f = fast
        .parse(payload, mono, wall, &mut out_f)
        .unwrap_or_else(|e| {
            panic!(
                "fast parse failed: {e:?} on {}",
                String::from_utf8_lossy(payload)
            )
        });
    let sig_s = slow
        .parse_slow(payload, mono, wall, &mut out_s)
        .unwrap_or_else(|e| {
            panic!(
                "slow parse failed: {e:?} on {}",
                String::from_utf8_lossy(payload)
            )
        });
    assert_eq!(
        sig_f,
        sig_s,
        "signal mismatch: {}",
        String::from_utf8_lossy(payload)
    );
    assert_eq!(
        out_f,
        out_s,
        "event mismatch: {}",
        String::from_utf8_lossy(payload)
    );
    (sig_f, out_f)
}

#[test]
fn venue_url_and_subscribe() {
    let c = BinanceCodec::new(table());
    assert_eq!(c.venue(), Venue::Binance);
    assert_eq!(
        c.ws_url(),
        "wss://stream.binance.com:9443/stream?streams=\
         btcusdt@depth@100ms/btcusdt@trade/ethusdt@depth@100ms/ethusdt@trade"
    );
    assert!(c.subscribe_messages().is_empty());
}

#[test]
fn golden_trade_event() {
    // First fixture line, hand-verified:
    // {"e":"trade","E":1783465157897,"s":"BTCUSDT","t":6486989273,
    //  "p":"63551.02000000","q":"0.00317000","T":1783465157897,"m":true,...}
    let (mut fast, mut slow) = codecs();
    let (sig, events) = step_both(&mut fast, &mut slow, LINES[0].as_bytes(), 11, 22);
    assert_eq!(sig, Signal::Nothing);
    assert_eq!(
        events,
        vec![Event {
            recv_mono_ns: 11,
            recv_wall_ns: 22,
            venue_ts_ns: 1_783_465_157_897_000_000,
            venue_seq: 6_486_989_273,
            price: 6_355_102_000_000,
            qty: 317_000,
            aux: 6_486_989_273,
            instrument: BTC,
            kind: EventKind::Trade.code(),
            venue: Venue::Binance.code(),
            flags: flags::TAKER_SELL, // m == true: buyer was maker, aggressor sold
            rsvd: 0,
        }]
    );
}

#[test]
fn golden_depth_update() {
    // Fixture line 3 (index 2), hand-verified:
    // {"e":"depthUpdate","E":1783465157917,"s":"BTCUSDT","U":97109082200,
    //  "u":97109082205,"b":[["63551.02000000","1.87857000"],
    //  ["57195.92000000","0.00480000"]],"a":[]}
    let (mut fast, mut slow) = codecs();
    for c in [&mut fast, &mut slow] {
        let mut out = Vec::new();
        c.parse_rest_snapshot(BTC, snap_body(97_109_082_199).as_bytes(), 1, 2, &mut out)
            .unwrap();
    }
    let (sig, events) = step_both(&mut fast, &mut slow, LINES[2].as_bytes(), 33, 44);
    assert_eq!(sig, Signal::Nothing);
    let bid = |price: i64, qty: i64| Event {
        recv_mono_ns: 33,
        recv_wall_ns: 44,
        venue_ts_ns: 1_783_465_157_917_000_000,
        venue_seq: 97_109_082_205,
        price,
        qty,
        aux: 0,
        instrument: BTC,
        kind: EventKind::BidSet.code(),
        venue: Venue::Binance.code(),
        flags: 0,
        rsvd: 0,
    };
    assert_eq!(
        events,
        vec![
            bid(6_355_102_000_000, 187_857_000),
            bid(5_719_592_000_000, 480_000),
        ]
    );
}

#[test]
fn sync_protocol_full_walk() {
    // unsynced drop -> snapshot -> straddling first diff applies ->
    // contiguous diffs apply -> gap -> NeedResync + unsynced ->
    // re-snapshot recovers.
    let (mut fast, mut slow) = codecs();
    let lvl = r#"["100.00","1.00"]"#;

    // Unsynced: fully parsed, nothing emitted.
    let d = depth_line("BTCUSDT", 5, 6, lvl, "");
    let (sig, ev) = step_both(&mut fast, &mut slow, d.as_bytes(), 1, 1);
    assert_eq!((sig, ev.len()), (Signal::Nothing, 0));

    // Snapshot anchors last_u = 10.
    for c in [&mut fast, &mut slow] {
        let mut out = Vec::new();
        assert_eq!(
            c.parse_rest_snapshot(BTC, snap_body(10).as_bytes(), 1, 1, &mut out)
                .unwrap(),
            Signal::Nothing
        );
        assert_eq!(out.len(), 5); // Clear + SnapBegin + 1 bid + 1 ask + SnapEnd
    }

    // Straddling first diff (U <= lastUpdateId+1 <= u) applies.
    let d = depth_line("BTCUSDT", 9, 12, lvl, lvl);
    let (sig, ev) = step_both(&mut fast, &mut slow, d.as_bytes(), 2, 2);
    assert_eq!((sig, ev.len()), (Signal::Nothing, 2));
    assert_eq!(ev[0].kind, EventKind::BidSet.code());
    assert_eq!(ev[1].kind, EventKind::AskSet.code());
    assert_eq!(ev[0].venue_seq, 12);

    // Contiguous diff applies.
    let d = depth_line("BTCUSDT", 13, 14, lvl, "");
    let (sig, ev) = step_both(&mut fast, &mut slow, d.as_bytes(), 3, 3);
    assert_eq!((sig, ev.len()), (Signal::Nothing, 1));

    // Gap: U=17 > last_u+1=15 -> Gap event + NeedResync, book events dropped.
    let d = depth_line("BTCUSDT", 17, 18, lvl, lvl);
    let (sig, ev) = step_both(&mut fast, &mut slow, d.as_bytes(), 4, 4);
    assert_eq!(sig, Signal::NeedResync { instrument: BTC });
    assert_eq!(ev.len(), 1);
    assert_eq!(ev[0].kind, EventKind::Gap.code());
    assert_eq!(ev[0].aux, 2); // missed 15, 16
    assert_eq!(ev[0].venue_seq, 18);
    assert_eq!(fast.stats().gaps, 1);
    assert_eq!(slow.stats().gaps, 1);

    // Unsynced again: contiguous-looking diff is dropped.
    let d = depth_line("BTCUSDT", 19, 20, lvl, "");
    let (sig, ev) = step_both(&mut fast, &mut slow, d.as_bytes(), 5, 5);
    assert_eq!((sig, ev.len()), (Signal::Nothing, 0));

    // Re-snapshot recovers; the next diff applies.
    for c in [&mut fast, &mut slow] {
        let mut out = Vec::new();
        c.parse_rest_snapshot(BTC, snap_body(25).as_bytes(), 6, 6, &mut out)
            .unwrap();
    }
    let d = depth_line("BTCUSDT", 26, 27, lvl, "");
    let (sig, ev) = step_both(&mut fast, &mut slow, d.as_bytes(), 7, 7);
    assert_eq!((sig, ev.len()), (Signal::Nothing, 1));
    assert_eq!(ev[0].kind, EventKind::BidSet.code());
}

#[test]
fn stale_diffs_dropped_after_snapshot() {
    let (mut fast, mut slow) = codecs();
    for c in [&mut fast, &mut slow] {
        let mut out = Vec::new();
        c.parse_rest_snapshot(BTC, snap_body(100).as_bytes(), 1, 1, &mut out)
            .unwrap();
    }
    let lvl = r#"["100.00","1.00"]"#;
    // u == lastUpdateId and u < lastUpdateId: both stale, no events, no resync.
    for (first, last) in [(90u64, 100u64), (95, 99)] {
        let d = depth_line("BTCUSDT", first, last, lvl, lvl);
        let (sig, ev) = step_both(&mut fast, &mut slow, d.as_bytes(), 2, 2);
        assert_eq!((sig, ev.len()), (Signal::Nothing, 0), "U={first} u={last}");
    }
    // State was untouched: the straddling diff still applies.
    let d = depth_line("BTCUSDT", 99, 103, lvl, "");
    let (sig, ev) = step_both(&mut fast, &mut slow, d.as_bytes(), 3, 3);
    assert_eq!((sig, ev.len()), (Signal::Nothing, 1));
    assert_eq!(fast.stats().gaps, 0);
}

#[test]
fn depth_state_is_per_instrument() {
    // Anchoring BTC must not sync ETH.
    let (mut fast, mut slow) = codecs();
    for c in [&mut fast, &mut slow] {
        let mut out = Vec::new();
        c.parse_rest_snapshot(BTC, snap_body(10).as_bytes(), 1, 1, &mut out)
            .unwrap();
    }
    let lvl = r#"["100.00","1.00"]"#;
    let d = depth_line("ETHUSDT", 11, 12, lvl, "");
    let (sig, ev) = step_both(&mut fast, &mut slow, d.as_bytes(), 2, 2);
    assert_eq!((sig, ev.len()), (Signal::Nothing, 0)); // ETH still unsynced
    let d = depth_line("BTCUSDT", 11, 12, lvl, "");
    let (sig, ev) = step_both(&mut fast, &mut slow, d.as_bytes(), 3, 3);
    assert_eq!((sig, ev.len()), (Signal::Nothing, 1)); // BTC applies
}

#[test]
fn trade_id_gap_emits_gap_then_trade() {
    let (mut fast, mut slow) = codecs();
    for (t, want_events) in [(100u64, 1usize), (101, 1), (105, 2)] {
        let line = trade_line(
            "BTCUSDT",
            t,
            "63000.00",
            "0.50000000",
            1_700_000_000_123,
            false,
        );
        let (sig, ev) = step_both(&mut fast, &mut slow, line.as_bytes(), t, t);
        assert_eq!(sig, Signal::Nothing, "trade gaps never demand resync");
        assert_eq!(ev.len(), want_events, "t={t}");
        if want_events == 2 {
            assert_eq!(ev[0].kind, EventKind::Gap.code());
            assert_eq!(ev[0].aux, 3); // missed 102, 103, 104
            assert_eq!(ev[0].venue_seq, 105);
            assert_eq!(ev[1].kind, EventKind::Trade.code());
            assert_eq!(ev[1].aux, 105);
        }
        let last = ev.last().unwrap();
        assert_eq!(last.kind, EventKind::Trade.code());
        assert_eq!(last.flags, 0); // m == false: aggressor bought
        assert_eq!(last.venue_ts_ns, 1_700_000_000_123_000_000);
        assert_eq!(last.price, 6_300_000_000_000);
        assert_eq!(last.qty, 50_000_000);
    }
    assert_eq!(fast.stats().gaps, 1);
    assert_eq!(slow.stats().gaps, 1);
}

#[test]
fn control_ack_and_ignored_types() {
    let (mut fast, mut slow) = codecs();
    let mut out = Vec::new();
    // Subscription ack shape -> Control.
    let ack = br#"{"result":null,"id":3}"#;
    assert_eq!(fast.parse(ack, 1, 1, &mut out).unwrap(), Signal::Control);
    assert_eq!(
        slow.parse_slow(ack, 1, 1, &mut out).unwrap(),
        Signal::Control
    );
    // Unknown event type inside a valid envelope -> Ignored.
    let kline = br#"{"stream":"btcusdt@kline_1m","data":{"e":"kline","E":1,"s":"BTCUSDT","k":{}}}"#;
    assert_eq!(fast.parse(kline, 1, 1, &mut out).unwrap(), Signal::Ignored);
    assert_eq!(
        slow.parse_slow(kline, 1, 1, &mut out).unwrap(),
        Signal::Ignored
    );
    assert!(out.is_empty());
}

#[test]
fn server_shutdown_signals_reconnect() {
    // Binance docs: on serverShutdown the client should reconnect as soon
    // as possible. Both paths must agree: Signal::Reconnect, no events.
    let (mut fast, mut slow) = codecs();
    let frame = br#"{"stream":"!serverShutdown","data":{"e":"serverShutdown","E":1700000000123}}"#;
    let (sig, ev) = step_both(&mut fast, &mut slow, frame, 1, 1);
    assert_eq!((sig, ev.len()), (Signal::Reconnect, 0));
}

#[test]
fn stale_rest_snapshot_rejected() {
    // Documented sync step 4: while unsynced, the codec tracks the highest
    // diff u seen; a REST snapshot with lastUpdateId below that mark must be
    // rejected (Err, no anchor) so the connection layer retries.
    let (mut fast, mut slow) = codecs();
    let lvl = r#"["100.00","1.00"]"#;

    // Unsynced diff up to u=100 sets the high-water mark on both paths.
    let d = depth_line("BTCUSDT", 90, 100, lvl, "");
    let (sig, ev) = step_both(&mut fast, &mut slow, d.as_bytes(), 1, 1);
    assert_eq!((sig, ev.len()), (Signal::Nothing, 0));

    // Snapshot older than the mark: rejected, buffer restored, still unsynced.
    for c in [&mut fast, &mut slow] {
        let mut out = vec![Event::zero()];
        let res = c.parse_rest_snapshot(BTC, snap_body(50).as_bytes(), 2, 2, &mut out);
        assert!(
            matches!(res, Err(CodecError::Structure("stale rest snapshot"))),
            "stale snapshot not rejected"
        );
        assert_eq!(out, vec![Event::zero()], "buffer not restored");
    }

    // State stayed Unsynced: a contiguous-looking diff is still dropped
    // (and advances the mark to 102).
    let d = depth_line("BTCUSDT", 101, 102, lvl, "");
    let (sig, ev) = step_both(&mut fast, &mut slow, d.as_bytes(), 3, 3);
    assert_eq!((sig, ev.len()), (Signal::Nothing, 0));

    // A fresh snapshot at exactly the mark (lastUpdateId >= high-water)
    // anchors normally and clears the mark; the next diff applies.
    for c in [&mut fast, &mut slow] {
        let mut out = Vec::new();
        assert_eq!(
            c.parse_rest_snapshot(BTC, snap_body(102).as_bytes(), 4, 4, &mut out)
                .unwrap(),
            Signal::Nothing
        );
        assert_eq!(out.len(), 5); // Clear + SnapBegin + 1 bid + 1 ask + SnapEnd
    }
    let d = depth_line("BTCUSDT", 103, 104, lvl, "");
    let (sig, ev) = step_both(&mut fast, &mut slow, d.as_bytes(), 5, 5);
    assert_eq!((sig, ev.len()), (Signal::Nothing, 1));
    assert_eq!(ev[0].kind, EventKind::BidSet.code());
}

#[test]
fn gap_diff_seeds_stale_snapshot_mark() {
    // The diff that triggers a sequence gap was itself seen on the stream,
    // so its u seeds the unsynced high-water mark: a recovery snapshot
    // predating it is rejected.
    let (mut fast, mut slow) = codecs();
    let lvl = r#"["100.00","1.00"]"#;
    for c in [&mut fast, &mut slow] {
        let mut out = Vec::new();
        c.parse_rest_snapshot(BTC, snap_body(10).as_bytes(), 1, 1, &mut out)
            .unwrap();
    }
    // Gap: U=17 > last_u+1=11 -> NeedResync; mark seeded with u=18.
    let d = depth_line("BTCUSDT", 17, 18, lvl, "");
    let (sig, ev) = step_both(&mut fast, &mut slow, d.as_bytes(), 2, 2);
    assert_eq!(sig, Signal::NeedResync { instrument: BTC });
    assert_eq!(ev.len(), 1);
    // Recovery snapshot at 17 predates the gap diff's u=18: rejected.
    for c in [&mut fast, &mut slow] {
        let mut out = Vec::new();
        assert!(matches!(
            c.parse_rest_snapshot(BTC, snap_body(17).as_bytes(), 3, 3, &mut out),
            Err(CodecError::Structure("stale rest snapshot"))
        ));
        assert!(out.is_empty());
    }
    // Snapshot at 18 anchors; the straddling diff applies.
    for c in [&mut fast, &mut slow] {
        let mut out = Vec::new();
        c.parse_rest_snapshot(BTC, snap_body(18).as_bytes(), 4, 4, &mut out)
            .unwrap();
    }
    let d = depth_line("BTCUSDT", 18, 20, lvl, "");
    let (sig, ev) = step_both(&mut fast, &mut slow, d.as_bytes(), 5, 5);
    assert_eq!((sig, ev.len()), (Signal::Nothing, 1));
}

#[test]
fn unknown_symbol_is_rejected() {
    let (mut fast, mut slow) = codecs();
    let lvl = r#"["100.00","1.00"]"#;
    let depth = depth_line("FOOUSDT", 1, 2, lvl, "");
    let trade = trade_line("FOOUSDT", 1, "1.00", "1.00", 1, true);
    let mut out = Vec::new();
    for payload in [depth.as_bytes(), trade.as_bytes()] {
        assert!(matches!(
            fast.parse(payload, 1, 1, &mut out),
            Err(CodecError::UnknownInstrument)
        ));
        assert!(matches!(
            slow.parse_slow(payload, 1, 1, &mut out),
            Err(CodecError::UnknownInstrument)
        ));
    }
    assert!(out.is_empty());
}

#[test]
fn malformed_inputs_error_and_restore_buffer() {
    let (mut fast, mut slow) = codecs();
    // Sync BTC so depth payloads reach the emission path.
    for c in [&mut fast, &mut slow] {
        let mut out = Vec::new();
        c.parse_rest_snapshot(BTC, snap_body(10).as_bytes(), 1, 1, &mut out)
            .unwrap();
    }
    let cases: Vec<String> = vec![
        // Truncated JSON.
        LINES[0][..20].to_string(),
        LINES[2][..LINES[2].len() / 2].to_string(),
        String::new(),
        "{".to_string(),
        // Wrong-type fields.
        r#"{"stream":"btcusdt@depth@100ms","data":{"e":"depthUpdate","E":1,"s":"BTCUSDT","U":"abc","u":12,"b":[],"a":[]}}"#.to_string(),
        r#"{"stream":"btcusdt@depth@100ms","data":{"e":"depthUpdate","E":1,"s":"BTCUSDT","U":11,"u":12,"b":42,"a":[]}}"#.to_string(),
        r#"{"stream":"btcusdt@trade","data":{"e":"trade","E":1,"s":"BTCUSDT","t":1,"p":"1.0","q":"1.0","T":1,"m":"yes"}}"#.to_string(),
        // Bad numbers: malformed decimal and sub-1e-8 precision.
        depth_line("BTCUSDT", 11, 12, r#"["1.2.3","1.00"]"#, ""),
        depth_line("BTCUSDT", 11, 12, r#"["100.00","0.000000001"]"#, ""),
        trade_line("BTCUSDT", 7, "1.2.3", "1.0", 1, true),
        // Bad control shape.
        r#"{"result":42,"id":1}"#.to_string(),
    ];
    let mut out = vec![Event::zero()]; // sentinel: buffer must be restored
    for case in &cases {
        let rf = fast.parse(case.as_bytes(), 1, 1, &mut out);
        assert!(rf.is_err(), "fast accepted: {case}");
        let rs = slow.parse_slow(case.as_bytes(), 1, 1, &mut out);
        assert!(rs.is_err(), "slow accepted: {case}");
        assert_eq!(out, vec![Event::zero()], "buffer not restored: {case}");
    }
    // The bad-number cases surface as exact fixed-point errors on both paths.
    let bad_price = depth_line("BTCUSDT", 11, 12, r#"["1.2.3","1.00"]"#, "");
    assert!(matches!(
        fast.parse(bad_price.as_bytes(), 1, 1, &mut out),
        Err(CodecError::Fixed(_))
    ));
    assert!(matches!(
        slow.parse_slow(bad_price.as_bytes(), 1, 1, &mut out),
        Err(CodecError::Fixed(_))
    ));
    // A failed message never advances the state machine: 13/14 still applies.
    let lvl = r#"["100.00","1.00"]"#;
    let d = depth_line("BTCUSDT", 9, 14, lvl, "");
    let (sig, ev) = step_both(&mut fast, &mut slow, d.as_bytes(), 2, 2);
    assert_eq!((sig, ev.len()), (Signal::Nothing, 1));
}

#[test]
fn malformed_rest_snapshot_errors_and_restores() {
    let mut c = BinanceCodec::new(table());
    let mut out = vec![Event::zero()];
    for body in [
        &b"{"[..],
        br#"{"bids":[],"asks":[]}"#,
        br#"{"lastUpdateId":"x","bids":[],"asks":[]}"#,
        br#"{"lastUpdateId":5,"bids":[["1.2.3","1.0"]],"asks":[]}"#,
        br#"{"lastUpdateId":5,"bids":[["1.0"]],"asks":[]}"#,
    ] {
        assert!(
            c.parse_rest_snapshot(BTC, body, 1, 1, &mut out).is_err(),
            "accepted: {}",
            String::from_utf8_lossy(body)
        );
        assert_eq!(out, vec![Event::zero()]);
    }
    // Unknown instrument id.
    assert!(matches!(
        c.parse_rest_snapshot(999, snap_body(5).as_bytes(), 1, 1, &mut out),
        Err(CodecError::UnknownInstrument)
    ));
    // A failed snapshot never anchors: diffs stay unsynced.
    let d = depth_line("BTCUSDT", 6, 7, r#"["100.00","1.00"]"#, "");
    let mut ev = Vec::new();
    assert_eq!(c.parse(d.as_bytes(), 1, 1, &mut ev).unwrap(), Signal::Nothing);
    assert!(ev.is_empty());
}

/// Bids and asks come out bracketed, with the snapshot's id on every event.
#[test]
fn rest_snapshot_bracket() {
    let body = br#"{"lastUpdateId":97109906740,"bids":[["63566.00000000","2.33079000"],["63565.99000000","1.00000000"]],"asks":[["63566.01000000","0.04961000"]]}"#;
    let mut c = BinanceCodec::new(table());
    let mut out = Vec::new();
    let sig = c.parse_rest_snapshot(BTC, body, 9, 10, &mut out).unwrap();
    assert_eq!(sig, Signal::Nothing);
    assert_eq!(out.len(), 6);
    let snap = flags::FROM_SNAPSHOT | flags::SYNTHETIC;
    let mk = |kind: EventKind, price: i64, qty: i64, aux: u64| Event {
        recv_mono_ns: 9,
        recv_wall_ns: 10,
        venue_ts_ns: 0,
        venue_seq: 97_109_906_740,
        price,
        qty,
        aux,
        instrument: BTC,
        kind: kind.code(),
        venue: Venue::Binance.code(),
        flags: snap,
        rsvd: 0,
    };
    assert_eq!(out[0], mk(EventKind::Clear, 0, 0, 0));
    assert_eq!(out[1], mk(EventKind::SnapBegin, 0, 0, 3));
    assert_eq!(out[2], mk(EventKind::SnapBid, 6_356_600_000_000, 233_079_000, 0));
    assert_eq!(out[3], mk(EventKind::SnapBid, 6_356_599_000_000, 100_000_000, 0));
    assert_eq!(out[4], mk(EventKind::SnapAsk, 6_356_601_000_000, 4_961_000, 0));
    assert_eq!(out[5], mk(EventKind::SnapEnd, 0, 0, 0));
}

/// Mutated lines may fail but leave no partial events behind.
#[test]
fn mutated_lines_leave_no_partial_events() {
    for line in LINES {
        for pos in 0..line.len() {
            for mode in 0..3u8 {
                let mut payload = line.as_bytes().to_vec();
                match mode {
                    0 => payload.truncate(pos),
                    1 => payload[pos] = b'"',
                    _ => payload.insert(pos, b'7'),
                }
                let (mut fast, mut slow) = codecs();
                let mut out = Vec::new();
                let body = snap_body(97_109_082_199);
                fast.parse_rest_snapshot(BTC, body.as_bytes(), 1, 1, &mut out).unwrap();
                slow.parse_rest_snapshot(BTC, body.as_bytes(), 1, 1, &mut out).unwrap();
                let before = out.len();
                if fast.parse(&payload, 1, 2, &mut out).is_err() {
                    assert_eq!(out.len(), before);
                }
                let before = out.len();
                if slow.parse_slow(&payload, 1, 2, &mut out).is_err() {
                    assert_eq!(out.len(), before);
                }
            }
        }
    }
}

/// Chains of update-id ranges with gaps and stales injected: book events
/// never cross a gap, and a resync is demanded exactly when U > last_u + 1.
#[test]
fn depth_state_machine_matches_model() {
    let mut state: u64 = 0x2545_f491_4f6c_dd1d;
    let mut draw = |n: u64| {
        state ^= state << 13;
        state ^= state >> 7;
        state ^= state << 17;
        state % n
    };
    for _ in 0..200 {
        let (mut fast, mut slow) = codecs();
        let mut model: Option<u64> = None;
        let mut cursor: u64 = 1_000_000;
        let steps = 1 + draw(39);
        for _ in 0..steps {
            let delta = draw(10) as i64 - 3;
            let span = draw(5);
            if draw(2) == 0 {
                let body = snap_body(cursor);
                for c in [&mut fast, &mut slow] {
                    let mut out = Vec::new();
                    c.parse_rest_snapshot(BTC, body.as_bytes(), 1, 1, &mut out).unwrap();
                }
                model = Some(cursor);
            }
            let first = cursor.saturating_add_signed(delta).max(1);
            let last = first + span;
            let line = depth_line(
                "BTCUSDT",
                first,
                last,
                r#"["100.00","1.00"]"#,
                r#"["101.00","2.00"]"#,
            );
            let (sig, out) = step_both(&mut fast, &mut slow, line.as_bytes(), 1, 2);
            match model {
                None => {
                    assert_eq!(sig, Signal::Nothing);
                    assert!(out.is_empty());
                }
                Some(last_u) if last <= last_u => {
                    assert_eq!(sig, Signal::Nothing);
                    assert!(out.is_empty());
                }
                Some(last_u) if first > last_u + 1 => {
                    assert_eq!(sig, Signal::NeedResync { instrument: BTC });
                    assert_eq!(out.len(), 1);
                    assert_eq!(out[0].kind, EventKind::Gap.code());
                    assert_eq!(out[0].aux, first - last_u - 1);
                    assert_eq!(out[0].venue_seq, last);
                    model = None;
                }
                Some(_) => {
                    assert_eq!(sig, Signal::Nothing);
                    assert_eq!(out.len(), 2);
                    assert_eq!(out[0].kind, EventKind::BidSet.code());
                    assert_eq!(out[1].kind, EventKind::AskSet.code());
                    model = Some(last);
                }
            }
            cursor = cursor.max(last) + 1;
        }
    }
}

#[test]
fn frames_of_the_venue_read_alike_whatever_they_say() {
    // odd but writable texts, unknown symbols and inexact numbers: both paths
    // come to the same events or to the same error
    let lines = [
        trade_line("BTCUSDT", 7, "63551.01", "0.001", 1_700_000_000_123, true),
        trade_line("BTCUSDT", 8, "0.123456789", "1", 1_700_000_000_123, false),
        trade_line(":data", 9, "1", "1", 5, false),
        trade_line("s", u64::MAX, "p", "q", u64::MAX, false),
        depth_line("BTCUSDT", 1, 2, r#"["1.5","2"],["1.4","0"]"#, r#"["1.6","3"]"#),
        depth_line("BTCUSDT", 1, 2, "", r#"["1.6","0.000000001"]"#),
        depth_line(":E", 1, 2, r#"[":b",":a"]"#, ""),
        r#"{"stream":"x","data":{"e":"kline","k":{"e":"trade"}}}"#.to_string(),
        r#"{"stream":"x","data":{"e":"serverShutdown","E":1}}"#.to_string(),
        r#"{"result":null,"id":18446744073709551615}"#.to_string(),
    ];
    let mut errors = 0;
    for line in &lines {
        let (mut fast, mut slow) = codecs();
        let (mut out_f, mut out_s) = (Vec::new(), Vec::new());
        let f = fast.parse(line.as_bytes(), 1, 2, &mut out_f);
        let s = slow.parse_slow(line.as_bytes(), 1, 2, &mut out_s);
        assert_eq!(out_f, out_s, "{line}");
        match (f, s) {
            (Ok(a), Ok(b)) => assert_eq!(a, b, "{line}"),
            (Err(a), Err(b)) => {
                errors += 1;
                assert_eq!(a.message(), b.message(), "{line}");
            }
            other => panic!("{other:?}: {line}"),
        }
    }
    assert_eq!(errors, 5);
}
