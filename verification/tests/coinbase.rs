//! Coinbase codec: both parse paths on real and synthetic frames, the gap
//! state machine and malformed input.
use flashbook::codec::{CodecError, Signal, SymbolTable, VenueCodec};
use flashbook::coinbase::CoinbaseCodec;
use flashbook::event::{flags, Event, EventKind, Venue};
use flashbook::instrument::Registry;

const MATCH_LINE: &str = r#"{"type":"match","trade_id":1052119289,"maker_order_id":"6b380eba-fd1d-43a8-91a0-fdb06e6ce87f","taker_order_id":"b3639a38-ae66-493c-96ba-d2319e503590","side":"sell","size":"0.2","price":"63514.6","product_id":"BTC-USD","sequence":132235026010,"time":"2026-07-07T22:58:17.164892Z"}"#;
const HEARTBEAT_LINE: &str = r#"{"type":"heartbeat","last_trade_id":1052119293,"product_id":"BTC-USD","sequence":132235026653,"time":"2026-07-07T22:58:18.000000Z"}"#;
const SUBSCRIPTIONS_LINE: &str = r#"{"type":"subscriptions","channels":[{"name":"level2_batch","product_ids":["BTC-USD","ETH-USD"],"account_ids":null},{"name":"matches","product_ids":["BTC-USD","ETH-USD"],"account_ids":null},{"name":"heartbeat","product_ids":["BTC-USD","ETH-USD"],"account_ids":null}]}"#;

/// Symbol table with two products, ids from the builtin registry (BTC-USD =
/// 1, ETH-USD = 2).
fn table() -> SymbolTable {
    let reg = Registry::builtin();
    SymbolTable::new(
        reg.for_venue(Venue::Coinbase)
            .iter()
            .filter(|m| m.venue_symbol == "BTC-USD" || m.venue_symbol == "ETH-USD")
            .map(|m| (m.venue_symbol.clone(), m.id))
            .collect(),
    )
}

fn codec() -> CoinbaseCodec {
    CoinbaseCodec::new(table())
}

/// A captured line of one message type.
fn first_line_of_type(ty: &str) -> &'static [u8] {
    match ty {
        "match" => MATCH_LINE.as_bytes(),
        "heartbeat" => HEARTBEAT_LINE.as_bytes(),
        "subscriptions" => SUBSCRIPTIONS_LINE.as_bytes(),
        other => panic!("no {other} line"),
    }
}

/// 17 changes of the bid side, then 27 of the ask side.
fn l2update_line() -> String {
    let mut changes = vec![r#"["buy","63507.67","0.00000000"]"#.to_string()];
    for i in 1..17 {
        changes.push(format!("[\"buy\",\"635{i:02}.50\",\"0.{i:08}\"]"));
    }
    changes.push(r#"["sell","63543.00","2.00000000"]"#.to_string());
    for i in 18..44 {
        changes.push(format!("[\"sell\",\"636{i}.25\",\"1.{i:08}\"]"));
    }
    format!(
        "{{\"type\":\"l2update\",\"product_id\":\"BTC-USD\",\"changes\":[{}],\"time\":\"2026-07-07T22:58:17.068248Z\"}}",
        changes.join(",")
    )
}

/// Run one payload through fresh fast and slow codecs; assert identical
/// output and return the fast result.
fn parse_both(payload: &[u8], mono: u64, wall: u64) -> (Signal, Vec<Event>) {
    let mut fast = codec();
    let mut slow = codec();
    let mut out_f = Vec::new();
    let mut out_s = Vec::new();
    let sig_f = fast
        .parse(payload, mono, wall, &mut out_f)
        .expect("fast ok");
    let sig_s = slow
        .parse_slow(payload, mono, wall, &mut out_s)
        .expect("slow ok");
    assert_eq!(sig_f, sig_s);
    assert_eq!(out_f, out_s);
    (sig_f, out_f)
}

/// Feed a sequence of payloads through one fast and one slow codec (shared
/// state across the sequence) and assert per-message identical output.
/// Returns the fast codec's per-message event vectors, per-message signals,
/// and final gap count.
fn run_sequence(payloads: &[&[u8]]) -> (Vec<Vec<Event>>, Vec<Signal>, u64) {
    let mut fast = codec();
    let mut slow = codec();
    let mut all = Vec::new();
    let mut sigs = Vec::new();
    for (i, p) in payloads.iter().enumerate() {
        let mono = 100 + i as u64;
        let wall = 200 + i as u64;
        let mut out_f = Vec::new();
        let mut out_s = Vec::new();
        let sig_f = fast.parse(p, mono, wall, &mut out_f).expect("fast ok");
        let sig_s = slow.parse_slow(p, mono, wall, &mut out_s).expect("slow ok");
        assert_eq!(sig_f, sig_s, "signal mismatch at msg {i}");
        assert_eq!(out_f, out_s, "events mismatch at msg {i}");
        all.push(out_f);
        sigs.push(sig_f);
    }
    assert_eq!(fast.stats().gaps, slow.stats().gaps);
    let gaps = fast.stats().gaps;
    (all, sigs, gaps)
}

fn synth_match(ty: &str, trade_id: u64, side: &str, product: &str, seq: u64) -> String {
    format!(
        "{{\"type\":\"{ty}\",\"trade_id\":{trade_id},\
         \"maker_order_id\":\"6b380eba-fd1d-43a8-91a0-fdb06e6ce87f\",\
         \"taker_order_id\":\"b3639a38-ae66-493c-96ba-d2319e503590\",\
         \"side\":\"{side}\",\"size\":\"0.5\",\"price\":\"100.25\",\
         \"product_id\":\"{product}\",\"sequence\":{seq},\
         \"time\":\"2026-07-07T22:58:17Z\"}}"
    )
}

fn synth_heartbeat(last_trade_id: u64, product: &str, seq: u64) -> String {
    format!(
        "{{\"type\":\"heartbeat\",\"last_trade_id\":{last_trade_id},\
         \"product_id\":\"{product}\",\"sequence\":{seq},\
         \"time\":\"2026-07-07T22:58:18Z\"}}"
    )
}

#[test]
fn venue_url_and_subscribe_message() {
    let c = codec();
    assert_eq!(c.venue(), Venue::Coinbase);
    assert_eq!(c.ws_url(), "wss://ws-feed.exchange.coinbase.com");
    let subs = c.subscribe_messages();
    assert_eq!(subs.len(), 1);
    let v: serde_json::Value = serde_json::from_str(&subs[0]).expect("valid json");
    assert_eq!(v["type"], "subscribe");
    let ids: Vec<&str> = v["product_ids"]
        .as_array()
        .unwrap()
        .iter()
        .map(|s| s.as_str().unwrap())
        .collect();
    assert!(ids.contains(&"BTC-USD") && ids.contains(&"ETH-USD"));
    let channels: Vec<&str> = v["channels"]
        .as_array()
        .unwrap()
        .iter()
        .map(|s| s.as_str().unwrap())
        .collect();
    assert_eq!(channels, ["level2_batch", "matches", "heartbeat"]);
}

/// GOLDEN: an `l2update` line of 44 changes (BTC-USD, time
/// 2026-07-07T22:58:17.068248Z). Mantissas hand-verified.
#[test]
fn golden_l2update_line() {
    let line = l2update_line();
    let line = line.as_bytes();
    let (sig, out) = parse_both(line, 33, 44);
    assert_eq!(sig, Signal::Nothing);
    assert_eq!(out.len(), 44);
    // changes[0] = ["buy","63507.67","0.00000000"] -> BidSet, qty 0 deletes
    assert_eq!(
        out[0],
        Event {
            recv_mono_ns: 33,
            recv_wall_ns: 44,
            venue_ts_ns: 1_783_465_097_068_248_000,
            venue_seq: 0,
            price: 6_350_767_000_000, // "63507.67"
            qty: 0,
            aux: 0,
            instrument: 1,
            kind: EventKind::BidSet.code(),
            venue: Venue::Coinbase.code(),
            flags: 0,
            rsvd: 0,
        }
    );
    // changes[17] = ["sell","63543.00","2.00000000"] -> AskSet; payload
    // order (buys then sells here) must be preserved as-is.
    assert_eq!(out[17].kind, EventKind::AskSet.code());
    assert_eq!(out[17].price, 6_354_300_000_000);
    assert_eq!(out[17].qty, 200_000_000);
    for (i, e) in out.iter().enumerate() {
        let want = if i < 17 {
            EventKind::BidSet
        } else {
            EventKind::AskSet
        };
        assert_eq!(e.kind, want.code(), "change {i}");
        assert_eq!(e.venue_seq, 0);
        assert_eq!(e.flags, 0);
    }
}

/// GOLDEN: first real `match` line, every field hand-verified.
/// `{"type":"match","trade_id":1052119289,...,"side":"sell","size":"0.2",
///   "price":"63514.6","product_id":"BTC-USD","sequence":132235026010,
///   "time":"2026-07-07T22:58:17.164892Z"}`
#[test]
fn golden_match_line() {
    let line = first_line_of_type("match");
    let (sig, out) = parse_both(line, 11, 22);
    assert_eq!(sig, Signal::Nothing);
    assert_eq!(
        out,
        vec![Event {
            recv_mono_ns: 11,
            recv_wall_ns: 22,
            venue_ts_ns: 1_783_465_097_164_892_000,
            venue_seq: 132_235_026_010,
            price: 6_351_460_000_000, // "63514.6"
            qty: 20_000_000,          // "0.2"
            aux: 1_052_119_289,       // trade_id
            instrument: 1,            // BTC-USD
            kind: EventKind::Trade.code(),
            venue: Venue::Coinbase.code(),
            flags: 0, // maker side "sell" => taker BOUGHT => no TAKER_SELL
            rsvd: 0,
        }]
    );
}

/// GOLDEN: first real `heartbeat` line; fresh codec has no trade baseline,
/// so exactly one Heartbeat event and no Gap.
#[test]
fn golden_heartbeat_line() {
    let line = first_line_of_type("heartbeat");
    let (sig, out) = parse_both(line, 55, 66);
    assert_eq!(sig, Signal::Nothing);
    assert_eq!(
        out,
        vec![Event {
            recv_mono_ns: 55,
            recv_wall_ns: 66,
            venue_ts_ns: 1_783_465_098_000_000_000, // 2026-07-07T22:58:18Z
            venue_seq: 132_235_026_653,
            price: 0,
            qty: 0,
            aux: 1_052_119_293, // last_trade_id
            instrument: 1,
            kind: EventKind::Heartbeat.code(),
            venue: Venue::Coinbase.code(),
            flags: 0,
            rsvd: 0,
        }]
    );
}

/// Maker-side mapping in both directions: Coinbase's match `side` is the
/// MAKER's side, so side "buy" (bid hit) means the taker SOLD.
#[test]
fn maker_side_mapping_both_directions() {
    let maker_buy = synth_match("match", 10, "buy", "BTC-USD", 500);
    let maker_sell = synth_match("match", 11, "sell", "BTC-USD", 501);
    let (all, _sigs, gaps) = run_sequence(&[maker_buy.as_bytes(), maker_sell.as_bytes()]);
    assert_eq!(gaps, 0);
    assert_eq!(all[0].len(), 1);
    assert_eq!(all[0][0].kind, EventKind::Trade.code());
    assert_eq!(all[0][0].flags, flags::TAKER_SELL); // maker bid hit => taker sold
    assert_eq!(all[1][0].flags, 0); // maker ask lifted => taker bought
    assert_eq!(all[0][0].price, 10_025_000_000);
    assert_eq!(all[0][0].qty, 50_000_000);
}

/// Trade-gap injection: consecutive trade ids increment by 1; a jump emits
/// Gap(aux = missed) BEFORE the Trade and signals NeedResync for the
/// instrument (the l2 book may have silently dropped messages too). First
/// match never gaps (no baseline).
#[test]
fn trade_gap_injection() {
    let m1 = synth_match("match", 100, "sell", "BTC-USD", 900);
    let m2 = synth_match("match", 105, "sell", "BTC-USD", 901);
    let (all, sigs, gaps) = run_sequence(&[m1.as_bytes(), m2.as_bytes()]);
    assert_eq!(gaps, 1);
    assert_eq!(all[0].len(), 1, "first match: baseline only, no gap");
    assert_eq!(sigs[0], Signal::Nothing, "gap-free match: no resync");
    assert_eq!(all[1].len(), 2);
    assert_eq!(all[1][0].kind, EventKind::Gap.code());
    assert_eq!(all[1][0].aux, 4); // 101..=104 missed
    assert_eq!(all[1][0].venue_seq, 901);
    assert_eq!(all[1][0].flags, 0);
    assert_eq!(all[1][1].kind, EventKind::Trade.code());
    assert_eq!(all[1][1].aux, 105);
    assert_eq!(sigs[1], Signal::NeedResync { instrument: 1 });

    // Gap tracking is per instrument: an ETH trade doesn't disturb BTC.
    let m3 = synth_match("match", 7, "sell", "ETH-USD", 1);
    let m4 = synth_match("match", 106, "sell", "BTC-USD", 902);
    let (all2, sigs2, gaps2) = run_sequence(&[m1.as_bytes(), m3.as_bytes(), m4.as_bytes()]);
    assert_eq!(gaps2, 1); // 101..=105 missed on BTC
    assert_eq!(all2[2][0].kind, EventKind::Gap.code());
    assert_eq!(all2[2][0].aux, 5);
    assert_eq!(sigs2[2], Signal::NeedResync { instrument: 1 });
}

/// Out-of-order matches (documented by Coinbase: lower trade ids "can be
/// ignored or represent a message that has arrived out of order") must
/// never roll the baseline backwards: the sequence 100, 102, 101, 103
/// produces exactly ONE gap (at 102, one resync), the straggler 101 is
/// still emitted as a Trade, and 103 is contiguous with the advanced
/// baseline.
#[test]
fn out_of_order_matches_report_gap_once() {
    let m100 = synth_match("match", 100, "sell", "BTC-USD", 1);
    let m102 = synth_match("match", 102, "sell", "BTC-USD", 2);
    let m101 = synth_match("match", 101, "sell", "BTC-USD", 3);
    let m103 = synth_match("match", 103, "sell", "BTC-USD", 4);
    let (all, sigs, gaps) = run_sequence(&[
        m100.as_bytes(),
        m102.as_bytes(),
        m101.as_bytes(),
        m103.as_bytes(),
    ]);
    assert_eq!(gaps, 1, "exactly one gap for 100,102,101,103");
    assert_eq!(all[0].len(), 1, "baseline seed");
    assert_eq!(sigs[0], Signal::Nothing);
    assert_eq!(all[1].len(), 2, "102 skips 101: gap + trade");
    assert_eq!(all[1][0].kind, EventKind::Gap.code());
    assert_eq!(all[1][0].aux, 1);
    assert_eq!(sigs[1], Signal::NeedResync { instrument: 1 });
    assert_eq!(all[2].len(), 1, "straggler 101: trade only, no new gap");
    assert_eq!(all[2][0].kind, EventKind::Trade.code());
    assert_eq!(all[2][0].aux, 101);
    assert_eq!(sigs[2], Signal::Nothing);
    assert_eq!(all[3].len(), 1, "103 contiguous with baseline 102");
    assert_eq!(all[3][0].kind, EventKind::Trade.code());
    assert_eq!(sigs[3], Signal::Nothing);
}

/// A regressed trade id followed by a heartbeat must not double-report the
/// already-reported gap: before the advance-only fix, the straggler lowered
/// the baseline to 101 and hb(102) re-reported the same missing trade.
#[test]
fn out_of_order_match_then_heartbeat_reports_once() {
    let m100 = synth_match("match", 100, "sell", "BTC-USD", 1);
    let m102 = synth_match("match", 102, "sell", "BTC-USD", 2);
    let m101 = synth_match("match", 101, "sell", "BTC-USD", 3);
    let hb102 = synth_heartbeat(102, "BTC-USD", 4);
    let (all, sigs, gaps) = run_sequence(&[
        m100.as_bytes(),
        m102.as_bytes(),
        m101.as_bytes(),
        hb102.as_bytes(),
    ]);
    assert_eq!(gaps, 1, "the 101 gap is reported once, at m102");
    assert_eq!(sigs[1], Signal::NeedResync { instrument: 1 });
    assert_eq!(all[3].len(), 1, "heartbeat alone: no re-reported gap");
    assert_eq!(all[3][0].kind, EventKind::Heartbeat.code());
    assert_eq!(sigs[3], Signal::Nothing);
}

/// Heartbeat cross-check: last_trade_id ahead of the last seen trade emits
/// Gap AFTER the Heartbeat and signals NeedResync; once reported, the
/// baseline advances so the same gap is not re-reported. No baseline (no
/// matches yet) => no gap.
#[test]
fn heartbeat_gap_detection() {
    let hb_cold = synth_heartbeat(999, "BTC-USD", 10);
    let m = synth_match("match", 100, "sell", "BTC-USD", 11);
    let hb_ok = synth_heartbeat(100, "BTC-USD", 12);
    let hb_ahead = synth_heartbeat(103, "BTC-USD", 13);
    let hb_again = synth_heartbeat(103, "BTC-USD", 14);
    let (all, sigs, gaps) = run_sequence(&[
        hb_cold.as_bytes(),
        m.as_bytes(),
        hb_ok.as_bytes(),
        hb_ahead.as_bytes(),
        hb_again.as_bytes(),
    ]);
    assert_eq!(gaps, 1);
    assert_eq!(all[0].len(), 1, "no baseline: heartbeat alone");
    assert_eq!(sigs[0], Signal::Nothing);
    assert_eq!(all[2].len(), 1, "matching last_trade_id: no gap");
    assert_eq!(sigs[2], Signal::Nothing, "gap-free heartbeat: no resync");
    assert_eq!(all[3].len(), 2);
    assert_eq!(all[3][0].kind, EventKind::Heartbeat.code());
    assert_eq!(all[3][0].aux, 103);
    assert_eq!(all[3][1].kind, EventKind::Gap.code());
    assert_eq!(all[3][1].aux, 3); // trades 101..=103 never arrived
    assert_eq!(sigs[3], Signal::NeedResync { instrument: 1 });
    assert_eq!(all[4].len(), 1, "gap reported once, baseline advanced");
    assert_eq!(sigs[4], Signal::Nothing);
}

/// NeedResync carries the instrument that actually lost sync (ETH here,
/// not the codec's first instrument).
#[test]
fn need_resync_carries_gapped_instrument() {
    let m1 = synth_match("match", 100, "sell", "ETH-USD", 1);
    let m2 = synth_match("match", 105, "sell", "ETH-USD", 2);
    let (_all, sigs, gaps) = run_sequence(&[m1.as_bytes(), m2.as_bytes()]);
    assert_eq!(gaps, 1);
    assert_eq!(sigs[1], Signal::NeedResync { instrument: 2 }); // ETH-USD
}

/// `last_match` seeds the per-instrument baseline (never gap-checked), so
/// the next contiguous match doesn't gap and a later jump does.
#[test]
fn last_match_seeds_baseline() {
    let lm = synth_match("last_match", 50, "buy", "ETH-USD", 1);
    let m1 = synth_match("match", 51, "sell", "ETH-USD", 2);
    let m2 = synth_match("match", 53, "sell", "ETH-USD", 3);
    let (all, _sigs, gaps) = run_sequence(&[lm.as_bytes(), m1.as_bytes(), m2.as_bytes()]);
    assert_eq!(gaps, 1);
    assert_eq!(all[0].len(), 1);
    assert_eq!(all[0][0].kind, EventKind::Trade.code());
    assert_eq!(all[0][0].flags, flags::TAKER_SELL); // maker "buy"
    assert_eq!(all[1].len(), 1, "51 follows 50: contiguous");
    assert_eq!(all[2].len(), 2, "53 skips 52: gap");
    assert_eq!(all[2][0].kind, EventKind::Gap.code());
    assert_eq!(all[2][0].aux, 1);
}

/// REST body in auction mode: the `auction` object carries its own `time`
/// property, serialized BEFORE the top-level `time` (body order is bids,
/// asks, sequence, auction_mode, auction, time). venue_ts must come from
/// the top-level (last) `time`, not the auction's.
#[test]
fn rest_snapshot_auction_mode_uses_top_level_time() {
    let body = br#"{"bids":[["100.00","1.5",3]],"asks":[["100.10","2.0",1]],"sequence":777,"auction_mode":true,"auction":{"open_price":"100.05","open_size":"0.1","best_bid_price":"100.00","best_bid_size":"1.5","best_ask_price":"100.10","best_ask_size":"2.0","auction_state":"collection","can_open":"no","time":"2026-07-07T09:00:00Z"},"time":"2026-07-07T10:00:00.123456Z"}"#;
    let mut c = codec();
    let mut out = Vec::new();
    let sig = c
        .parse_rest_snapshot(1, body, 3, 4, &mut out)
        .expect("auction-mode body parses");
    assert_eq!(sig, Signal::Nothing);
    // Clear + SnapBegin + 1 bid + 1 ask + SnapEnd
    assert_eq!(out.len(), 5);
    assert_eq!(out[2].kind, EventKind::SnapBid.code());
    assert_eq!(out[2].price, 10_000_000_000);
    assert_eq!(out[3].kind, EventKind::SnapAsk.code());
    for e in &out {
        // 2026-07-07T10:00:00.123456Z — the top-level time, NOT the
        // auction's 09:00:00 (1_783_414_800_000_000_000).
        assert_eq!(e.venue_ts_ns, 1_783_418_400_123_456_000);
        assert_eq!(e.venue_seq, 777);
        assert_eq!(e.flags, flags::FROM_SNAPSHOT | flags::SYNTHETIC);
    }
}

/// Control-plane and deliberately ignored message types.
#[test]
fn control_and_ignored_signals() {
    let subs = first_line_of_type("subscriptions");
    let (sig, out) = parse_both(subs, 1, 2);
    assert_eq!(sig, Signal::Control);
    assert!(out.is_empty());
    let (sig, out) = parse_both(br#"{"type":"error","message":"nope"}"#, 1, 2);
    assert_eq!(sig, Signal::Control);
    assert!(out.is_empty());
    for ignored in [
        &br#"{"type":"status","products":[]}"#[..],
        br#"{"type":"ticker","product_id":"BTC-USD","price":"1"}"#,
    ] {
        let (sig, out) = parse_both(ignored, 1, 2);
        assert_eq!(sig, Signal::Ignored);
        assert!(out.is_empty());
    }
}

/// An empty `changes` list is valid and emits nothing.
#[test]
fn empty_changes_l2update() {
    let payload =
        br#"{"type":"l2update","product_id":"ETH-USD","changes":[],"time":"2026-07-07T22:58:17Z"}"#;
    let (sig, out) = parse_both(payload, 1, 2);
    assert_eq!(sig, Signal::Nothing);
    assert!(out.is_empty());
}

/// CodecStats bookkeeping on the fast path.
#[test]
fn stats_counters() {
    let mut c = codec();
    let mut out = Vec::new();
    let hb = synth_heartbeat(5, "BTC-USD", 1);
    let m1 = synth_match("match", 10, "sell", "BTC-USD", 2);
    let m2 = synth_match("match", 15, "sell", "BTC-USD", 3);
    let subs = first_line_of_type("subscriptions");
    for p in [hb.as_bytes(), m1.as_bytes(), m2.as_bytes(), subs] {
        c.parse(p, 1, 2, &mut out).expect("parses");
    }
    assert_eq!(c.stats().fast_msgs, 4);
    assert_eq!(c.stats().events, 4); // hb + trade + (gap + trade) + nothing
    assert_eq!(c.stats().gaps, 1);
    assert_eq!(out.len(), 4);
}

/// One malformed-input case: payload plus a predicate over the error kind.
type MalformedCase<'a> = (&'a [u8], fn(&CodecError) -> bool);

/// Malformed inputs: both paths must error (never panic) and leave `out`
/// exactly as it was (buffer-length restore; no partial garbage events).
#[test]
fn malformed_inputs_error_cleanly_and_restore_buffer() {
    let good_match = synth_match("match", 1, "sell", "BTC-USD", 1);
    let mut truncated = good_match.as_bytes().to_vec();
    truncated.truncate(truncated.len() / 2);
    let l2_bad_price = br#"{"type":"l2update","product_id":"BTC-USD","changes":[["buy","63507.67","0.5"],["sell","1.2.3","1.0"]],"time":"2026-07-07T22:58:17Z"}"#;
    let cases: Vec<MalformedCase> = vec![
        (b"", |_| true),
        (b"hello", |_| true),
        (b"{}", |_| true),
        (&truncated, |_| true),
        // wrong-type field: trade_id as string
        (
            br#"{"type":"match","trade_id":"abc","side":"sell","size":"1","price":"2","product_id":"BTC-USD","sequence":3,"time":"2026-07-07T22:58:17Z"}"#,
            |e| matches!(e, CodecError::Structure(_)),
        ),
        // bad number "1.2.3" -> exact fixed-point error, after one valid change
        (l2_bad_price, |e| matches!(e, CodecError::Fixed(_))),
        // unknown symbol
        (
            br#"{"type":"match","trade_id":9,"side":"sell","size":"1","price":"2","product_id":"FOO-USD","sequence":3,"time":"2026-07-07T22:58:17Z"}"#,
            |e| matches!(e, CodecError::UnknownInstrument),
        ),
        // changes is not an array
        (
            br#"{"type":"l2update","product_id":"BTC-USD","changes":{},"time":"2026-07-07T22:58:17Z"}"#,
            |e| matches!(e, CodecError::Structure(_)),
        ),
        // bad side token
        (
            br#"{"type":"l2update","product_id":"BTC-USD","changes":[["hold","1","2"]],"time":"2026-07-07T22:58:17Z"}"#,
            |e| matches!(e, CodecError::Structure(_)),
        ),
        // unparseable time
        (
            br#"{"type":"heartbeat","last_trade_id":1,"product_id":"BTC-USD","sequence":2,"time":"not-a-time"}"#,
            |e| matches!(e, CodecError::Structure(_)),
        ),
    ];
    for (payload, check) in cases {
        let mut fast = codec();
        let mut slow = codec();
        // Pre-seed the buffer to prove errors restore, not clear.
        let mut out = vec![Event::zero()];
        let e = fast
            .parse(payload, 1, 2, &mut out)
            .expect_err("fast must error");
        assert!(check(&e), "fast error kind: {e:?} for {payload:?}");
        assert_eq!(out.len(), 1, "fast left partial events for {payload:?}");
        let e = slow
            .parse_slow(payload, 1, 2, &mut out)
            .expect_err("slow must error");
        assert!(check(&e), "slow error kind: {e:?} for {payload:?}");
        assert_eq!(out.len(), 1, "slow left partial events for {payload:?}");
        assert_eq!(out[0], Event::zero());
    }
}

/// Snapshot bracket: Clear + SnapBegin + bids + asks + SnapEnd, canonical
/// bids-then-asks (the JSON carries asks first), FROM_SNAPSHOT everywhere.
#[test]
fn snapshot_bracket_is_bids_then_asks() {
    let line = br#"{"type":"snapshot","product_id":"ETH-USD","asks":[["1774.93","0.56100580"],["1774.95","1"]],"bids":[["1774.92","3.32560450"]],"time":"2026-07-07T22:58:17.050195Z"}"#;
    let (sig, out) = parse_both(line, 1, 2);
    assert_eq!(sig, Signal::Nothing);
    let kinds: Vec<u8> = out.iter().map(|e| e.kind).collect();
    assert_eq!(
        kinds,
        vec![
            EventKind::Clear.code(),
            EventKind::SnapBegin.code(),
            EventKind::SnapBid.code(),
            EventKind::SnapAsk.code(),
            EventKind::SnapAsk.code(),
            EventKind::SnapEnd.code(),
        ]
    );
    assert_eq!(out[1].aux, 3);
    assert_eq!(out[5].aux, 0); // Coinbase snapshots carry no checksum
    for e in &out {
        assert_eq!(e.flags, flags::FROM_SNAPSHOT);
        assert_eq!(e.instrument, 2); // ETH-USD
        assert_eq!(e.venue_seq, 0);
        assert_eq!(e.venue_ts_ns, 1_783_465_097_050_195_000);
    }
    assert_eq!((out[2].price, out[2].qty), (177_492_000_000, 332_560_450));
    assert_eq!((out[3].price, out[3].qty), (177_493_000_000, 56_100_580));
}

/// REST levels have a third element (order count), which must be skipped,
/// not mis-parsed.
#[test]
fn rest_snapshot_skips_order_counts() {
    let body = br#"{"bids":[["63527.87","0.48883646",8]],"asks":[["63527.88","0.000018",1]],"sequence":132236333487,"auction_mode":false,"auction":null,"time":"2026-07-07T23:36:24.683209774Z"}"#;
    let mut c = codec();
    let mut out = Vec::new();
    let sig = c
        .parse_rest_snapshot(1, body, 9, 10, &mut out)
        .expect("rest parses");
    assert_eq!(sig, Signal::Nothing);
    assert_eq!(out.len(), 5);
    for e in &out {
        assert_eq!(e.flags, flags::FROM_SNAPSHOT | flags::SYNTHETIC);
        assert_eq!(e.instrument, 1);
        assert_eq!(e.venue_seq, 132_236_333_487);
        assert_eq!(e.venue_ts_ns, 1_783_467_384_683_209_774);
        assert_eq!(e.recv_mono_ns, 9);
        assert_eq!(e.recv_wall_ns, 10);
    }
    assert_eq!((out[2].price, out[2].qty), (6_352_787_000_000, 48_883_646));
    assert_eq!((out[3].price, out[3].qty), (6_352_788_000_000, 1_800));
    assert_eq!(c.stats().events, out.len() as u64);
}

#[test]
fn mutations_never_leak_events() {
    let line = l2update_line();
    for pos in (0..line.len()).step_by(3) {
        for byte in [0u8, b'"', b']', b'9', 0xff] {
            let mut bytes = line.as_bytes().to_vec();
            bytes[pos] = byte;
            let mut c = codec();
            let mut out = vec![Event::zero()];
            if c.parse(&bytes, 1, 2, &mut out).is_err() {
                assert_eq!(out.len(), 1);
            }
            out.truncate(1);
            if c.parse_slow(&bytes, 1, 2, &mut out).is_err() {
                assert_eq!(out.len(), 1);
            }
        }
    }
}

#[test]
fn messages_of_the_venue_read_alike_whatever_they_say() {
    // odd but writable texts, unknown products and inexact numbers: both
    // paths come to the same events or to the same error
    let t = "2026-07-07T22:58:17Z";
    let lines = [
        synth_match("match", 5, "buy", "BTC-USD", 9),
        synth_match("last_match", 5, "hold", "BTC-USD", 9),
        synth_match("match", 5, "sell", ":time", 9),
        synth_match("match", 5, "sell", "BTC-USD", u64::MAX),
        synth_heartbeat(u64::MAX, "BTC-USD", 3),
        synth_heartbeat(1, "time", 3),
        format!(
            r#"{{"type":"l2update","product_id":"BTC-USD","changes":[["buy","1","2"],["sell","0.123456789","1"]],"time":"{t}"}}"#
        ),
        format!(
            r#"{{"type":"l2update","product_id":"BTC-USD","changes":[["sell","3","0"]],"time":"{t}"}}"#
        ),
        format!(
            r#"{{"type":"l2update","product_id":"BTC-USD","changes":[[":changes","3","0"]],"time":":"}}"#
        ),
        format!(
            r#"{{"type":"snapshot","product_id":"BTC-USD","asks":[["2","1"]],"bids":[["1","x"]],"time":"{t}"}}"#
        ),
        format!(r#"{{"type":"snapshot","product_id":"BTC-USD","asks":[],"bids":[],"time":"{t}"}}"#),
        r#"{"type":"ticker","changes":{"type":"match"}}"#.to_string(),
    ];
    let mut errors = 0;
    for line in &lines {
        let (mut fast, mut slow) = (codec(), codec());
        let (mut out_f, mut out_s) = (Vec::new(), Vec::new());
        let f = fast.parse(line.as_bytes(), 1, 2, &mut out_f);
        let s = slow.parse_slow(line.as_bytes(), 1, 2, &mut out_s);
        assert_eq!(out_f, out_s, "{line}");
        match (f, s) {
            (Ok(a), Ok(b)) => assert_eq!(a, b, "{line}"),
            (Err(a), Err(b)) => {
                errors += 1;
                assert_eq!(a.message(), b.message(), "{line}");
            }
            other => panic!("{other:?}: {line}"),
        }
    }
    assert_eq!(errors, 6);
}
