//! Benchmarks: command lines, pacing, percentiles, load generation, replayed
//! passes, live measurement and the SQL comparison.
use flashbook::bench::bus;
use flashbook::bench::bus::{
    workload, Meter, PACED_MSGS_FULL, PACED_MSGS_QUICK, PACED_RATE_FULL, PACED_RATE_QUICK,
    THROUGHPUT_MSGS_FULL, THROUGHPUT_MSGS_QUICK,
};
use flashbook::bench::compare::{
    as_i64, event_from_sql, finish_sql_pit, fold_event, full_scan_ours, pit_ours, pit_top,
    scan_row_from_sql, sql_row, sql_str_literal, window as ours_window, PitTop, RowError, ScanRow,
    SqlPit, SCHEMA_SQL,
};
use flashbook::bench::e2e;
use flashbook::bench::e2e::{
    early_close_note, net_plan, ping_payload, rtt_from_pong, venue_path_sample, wait_for, Wait,
};
use flashbook::bench::feed;
use flashbook::bench::feed::{
    check_paths, check_run, frame_cap, measured_runs, run_pass, Fate, Loader, PassResult, PathKind,
    Rec,
};
use flashbook::bench::live::{
    parse_with_fallback, publish_all, venue_instrument, venue_stamp, LiveCounts, ReadStats,
    SubStats,
};
use flashbook::bench::loadgen::EventGen;
use flashbook::bench::lob;
use flashbook::bench::lob::{
    apply_all, check_digest, make_btree, make_ladder, measured_passes, top_changed, RoutedBooks,
};
use flashbook::bench::options::{quick_note, Options};
use flashbook::bench::parity::{same_rows, same_top, Parity};
use flashbook::bench::pacing::{pace_target_ns, sample_stride, send_deadline_ns};
use flashbook::bench::percentile::{median_ns, sorted, Percentiles};
use flashbook::bench::results::{cpu_model, mem_total_gb, pretty_name};
use flashbook::bench::store;
use flashbook::bench::store::{
    compare_queries, gen_queries, meta_knobs, pit_queries, raw_payload_bytes,
};
use flashbook::binance::BinanceCodec;
use flashbook::book::L2Book;
use flashbook::codec::SymbolTable;
use flashbook::conn::rest_envelope;
use flashbook::event::{flags, Event, EventKind, Venue};
use flashbook::instrument::Registry;
use flashbook::ladder::LadderBook;
use flashbook::rawlog::rkind;
use flashbook::ring::ring;

fn argv(words: &[&str]) -> Vec<String> {
    words.iter().map(|w| w.to_string()).collect()
}

fn run_args(cli: Result<feed::Cli, String>) -> feed::Args {
    match cli.unwrap() {
        feed::Cli::Run(a) => a,
        feed::Cli::Help => panic!("expected Run"),
    }
}

/// One entry for each apply that changed the top of its book.
fn tob_latency_samples<B: L2Book, F: Fn(Option<usize>) -> B>(
    events: &[Event],
    make_other: F,
    make_kraken: F,
    kraken_depth: Option<usize>,
) -> Vec<usize> {
    let mut books = RoutedBooks::new(make_other, make_kraken, kraken_depth);
    let mut out = Vec::new();
    for (i, e) in events.iter().enumerate() {
        if top_changed(&books.apply(e)) {
            out.push(i);
        }
    }
    out
}

#[test]
fn digests_of_passes_are_compared() {
    assert_eq!(check_digest(7, 1, 7), Ok(()));
    assert_eq!(
        check_digest(0xab, 3, u64::MAX),
        Err("digest mismatch across passes: warmup 00000000000000ab vs pass 3 ffffffffffffffff"
            .to_string())
    );
}

#[test]
fn usage_errors_name_the_argument() {
    let e = bus::parse_args(&argv(&["--nope"])).unwrap_err();
    assert!(e.contains("--nope"), "{e}");
    let e = lob::parse_args(&argv(&["--kraken-depth", "x", "--data", "d"])).unwrap_err();
    assert!(e.contains("--kraken-depth"), "{e}");
    let e = store::parse_args(&argv(&["--store"])).unwrap_err();
    assert!(e.contains("--store"), "{e}");
    let e = e2e::parse_args(&argv(&["net", "--secs", "-1"])).unwrap_err();
    assert!(e.contains("--secs"), "{e}");
    assert!(!quick_note(true).is_empty());
    assert_ne!(quick_note(true), quick_note(false));
}

#[test]
fn meters_sample_after_the_warmup() {
    let mut m = Meter::new(2, 3, 2);
    for i in 0..12u64 {
        m.receive(100 + i, 90);
    }
    // Messages 2, 5 and 8 are due; the cap keeps two.
    assert_eq!(m.samples, [12, 15]);
    assert_eq!((m.delivered, m.lost), (12, 0));
    assert!(!m.done(14));
    m.lose(2);
    assert!(m.done(14));
    let mut early = Meter::new(0, 1, 10);
    early.receive(5, 9);
    assert_eq!(early.samples, [0], "a stamp from the future counts as none");
}

#[test]
fn net_runs_are_planned() {
    let cfg = |rate: u64, subs: usize, secs: u64| e2e::NetCfg {
        rate,
        subs,
        secs,
        options: Options {
            quick: false,
            results_dir: String::new(),
            overwrite: false,
        },
    };
    assert_eq!(net_plan(&cfg(200_000, 4, 30)), Some((6_000_000, 3)));
    assert_eq!(net_plan(&cfg(10, 1, 10)), Some((100, 1)));
    assert_eq!(net_plan(&cfg(0, 4, 30)), None);
    assert_eq!(net_plan(&cfg(1, 0, 30)), None);
    assert_eq!(net_plan(&cfg(u64::MAX, 1, 2)), None);
    assert_eq!(wait_for(5, 5), Wait::Go);
    assert_eq!(wait_for(0, 300_000), Wait::Spin);
    assert_eq!(wait_for(0, 300_001), Wait::Sleep(100_001));
}

#[test]
fn loaders_keep_frames_up_to_the_cap() {
    let mut l = Loader::new(1);
    assert_eq!(l.sift(Venue::Kraken, rkind::NOTE), Fate::Skip);
    assert_eq!(l.sift(Venue::Kraken, rkind::REST_SNAPSHOT), Fate::Keep);
    assert_eq!(l.sift(Venue::Kraken, rkind::WS_TEXT), Fate::Keep);
    assert_eq!(l.sift(Venue::Kraken, rkind::REST_SNAPSHOT), Fate::Skip);
    assert_eq!(l.sift(Venue::Coinbase, rkind::WS_BINARY), Fate::Keep);
    assert_eq!(l.sift(Venue::Coinbase, rkind::WS_TEXT), Fate::Skip);
    assert_eq!(l.sift(Venue::Binance, rkind::WS_TEXT), Fate::Keep);
    assert_eq!(l.sift(Venue::Binance, rkind::WS_TEXT), Fate::Stop);
}

fn binance() -> BinanceCodec {
    BinanceCodec::new(SymbolTable::new(vec![("BTCUSDT".to_string(), 6)]))
}

const TRADE: &[u8] = br#"{"stream":"btcusdt@trade","data":{"e":"trade","E":1,"s":"BTCUSDT","t":1,"p":"100.00","q":"0.50","T":2,"m":true,"M":true}}"#;
/// Out of the order that the fast path expects, but complete.
const ODD_TRADE: &[u8] = br#"{"data":{"s":"BTCUSDT","e":"trade","E":1,"p":"100.00","t":2,"q":"0.50","T":2,"m":true,"M":true},"stream":"btcusdt@trade"}"#;

fn records() -> Vec<Rec> {
    let rec = |rkind: u8, payload: Vec<u8>| Rec { rkind, mono: 1, wall: 2, payload };
    let body = br#"{"lastUpdateId":10,"bids":[["1.00","1.00"]],"asks":[]}"#;
    vec![
        rec(rkind::REST_SNAPSHOT, rest_envelope(6, "BTCUSDT", "u", body)),
        rec(rkind::WS_TEXT, TRADE.to_vec()),
        rec(rkind::NOTE, b"{}".to_vec()),
        rec(rkind::WS_BINARY, ODD_TRADE.to_vec()),
        rec(rkind::WS_TEXT, b"junk".to_vec()),
        rec(rkind::REST_SNAPSHOT, b"no envelope".to_vec()),
    ]
}

#[test]
fn passes_count_what_they_replay() {
    let recs = records();
    let mut out = Vec::new();
    let fast = run_pass(&mut binance(), &recs, PathKind::Fast, &mut out);
    let slow = run_pass(&mut binance(), &recs, PathKind::Slow, &mut out);
    let bytes = (TRADE.len() + ODD_TRADE.len() + 4) as u64;
    assert_eq!(
        fast,
        PassResult {
            ws_frames: 3,
            rest_snapshots: 2,
            ws_payload_bytes: bytes,
            events: 6,
            fallbacks: 2,
            parse_errors: 2,
        }
    );
    assert_eq!(slow, PassResult { fallbacks: 0, ..fast });
    assert_eq!(PathKind::Fast.name(), "fast");
    assert_eq!(check_run(Venue::Binance, PathKind::Fast, 6, 6), Ok(()));
    assert_eq!(
        check_run(Venue::Binance, PathKind::Slow, 6, 7),
        Err("binance slow path: run event counts diverged (6 vs 7) \u{2014} nondeterministic parse"
            .to_string())
    );
    assert_eq!(check_paths(Venue::Kraken, 1, 1), Ok(()));
    assert_eq!(
        check_paths(Venue::Kraken, 1, 2),
        Err("kraken: fast/slow event counts differ (1 vs 2) \u{2014} differential FAILURE".to_string())
    );
}

#[test]
fn live_frames_fall_back() {
    let mut codec = binance();
    let mut out = vec![Event::zero()];
    let mut n = LiveCounts::default();
    assert!(parse_with_fallback(&mut codec, TRADE, 1, 2, &mut out, &mut n));
    assert!(parse_with_fallback(&mut codec, ODD_TRADE, 1, 2, &mut out, &mut n));
    assert_eq!(out.len(), 3);
    assert!(!parse_with_fallback(&mut codec, b"junk", 1, 2, &mut out, &mut n));
    let gone = br#"{"stream":"!serverShutdown","data":{"e":"serverShutdown","E":1}}"#;
    assert!(parse_with_fallback(&mut codec, gone, 1, 2, &mut out, &mut n));
    assert_eq!(out.len(), 3);
    assert_eq!((n.fallbacks, n.parse_errors, n.resync_signals), (1, 1, 1));
    assert_eq!(venue_stamp(&out), Some(2_000_000));
    assert_eq!(venue_stamp(&[Event::zero()]), None);
}

#[test]
fn subscribers_match_events_to_frames() {
    let e = |mono: u64, flags: u8| Event { recv_mono_ns: mono, flags, ..Event::zero() };
    let mut s = SubStats::new();
    s.stamp(100, 150);
    let live = e(100, 0);
    assert!(s.knows(&live));
    s.dequeue(&live, 180);
    s.settle(&live, 180);
    let snap = e(100, flags::FROM_SNAPSHOT);
    s.dequeue(&snap, 190);
    s.settle(&snap, 190);
    let lost = e(101, 0);
    assert!(!s.knows(&lost));
    s.dequeue(&lost, 50);
    s.settle(&lost, 50);
    s.lag(4);
    assert_eq!(s.total_added, [80, 90, 0]);
    assert_eq!(s.total_steady, [80, 0]);
    assert_eq!(s.deliver, [30, 40]);
    assert_eq!(s.deliver_steady, [30]);
    assert_eq!((s.unmatched, s.lagged_lost), (1, 4));
}

#[test]
fn queries_of_a_run() {
    assert_eq!((pit_queries(true), pit_queries(false)), (100, 1000));
    assert_eq!((compare_queries(true), compare_queries(false)), (20, 200));
    assert_eq!(raw_payload_bytes(br#"{"raw_payload_bytes":12}"#), Some(12));
    assert_eq!(raw_payload_bytes(br#"{"raw_payload_bytes":"12"}"#), None);
    assert_eq!(raw_payload_bytes(b""), None);
    let (_, z) = meta_knobs(br#"{"zstd_level":-5}"#);
    assert_eq!(z, -5);
}

#[test]
fn sorting_keeps_every_sample() {
    assert_eq!(sorted(&[3, 1, 2, 1]), [1, 1, 2, 3]);
    assert_eq!(sorted(&[]), [0u64; 0]);
    let p = Percentiles::from_samples(&[9, 7, 8]).unwrap();
    assert!(p.min <= p.p50 && p.p50 <= p.p90 && p.p90 <= p.p99);
    assert!(p.p99 <= p.p999 && p.p999 <= p.max);
}

#[test]
fn generated_streams_are_valid() {
    let mut g = EventGen::new(3);
    let mut out = vec![Event::zero()];
    g.fill(100, &mut out);
    assert_eq!(out.len(), 100, "the buffer is replaced");
    for e in &out {
        assert!(e.qty > 0 || e.kind().is_ok());
        assert_eq!(e.recv_wall_ns - e.recv_mono_ns, 1_700_000_000_000_000_000);
    }
}

#[test]
fn rows_reject_what_a_column_cannot_hold() {
    assert_eq!(as_i64(5, "aux"), Ok(5));
    let over = as_i64(1 << 63, "aux").unwrap_err();
    assert!(over.message().contains("aux"), "{}", over.message());
    let e = sql_ev(123, EventKind::Trade, 5, 1, 2);
    let mut wide = e;
    wide.instrument = u32::MAX;
    assert!(sql_row(&wide).unwrap_err().message().contains("instrument"));
    let mut odd = e;
    odd.kind = 200;
    assert!(sql_row(&odd).unwrap_err().message().contains("kind"));
    let row = sql_row(&e).unwrap();
    let bad: RowError = event_from_sql((-1, row.1, row.2, row.3, row.4, row.5, row.6, row.7, row.8, row.9, row.10))
        .unwrap_err();
    assert!(bad.message().contains("recv_mono"));
    assert!(event_from_sql((row.0, row.1, row.2, row.3, row.4, row.5, row.6, row.7, row.8, 256, row.10)).is_err());
}

const SCAN_SQL: &str = "SELECT instrument, count(*), sum(qty >> 31), sum(qty & 2147483647), \
     min(price), max(price), max(recv_mono) FROM events GROUP BY instrument ORDER BY instrument";

fn load(events: &[Event]) -> Result<rusqlite::Connection, RowError> {
    let conn = rusqlite::Connection::open_in_memory().unwrap();
    conn.execute_batch(SCHEMA_SQL).unwrap();
    let mut stmt = conn
        .prepare("INSERT INTO events VALUES (?1,?2,?3,?4,?5,?6,?7,?8,?9,?10,?11)")
        .unwrap();
    for e in events {
        stmt.execute(sql_row(e)?).unwrap();
    }
    drop(stmt);
    Ok(conn)
}

#[test]
fn full_scan_agrees_with_sqlite() {
    let mut events = corpus();
    let conn = load(&events).unwrap();
    let mut stmt = conn.prepare(SCAN_SQL).unwrap();
    let theirs: Vec<ScanRow> = stmt
        .query_map([], |r| {
            Ok((r.get(0)?, r.get(1)?, r.get(2)?, r.get(3)?, r.get(4)?, r.get(5)?, r.get(6)?))
        })
        .unwrap()
        .map(|t| scan_row_from_sql(t.unwrap()).unwrap())
        .collect();
    let ours = full_scan_ours(&events);
    assert_eq!(ours, theirs);
    assert_eq!(ours.len(), 3);
    let i1 = &ours[0];
    assert_eq!((i1.instrument, i1.count, i1.max_mono), (1, 13, 510), "{i1:?}");
    assert_eq!((i1.min_price, i1.max_price), (0, 10_300));
    let i3 = &ours[2];
    assert_eq!((i3.instrument, i3.count, i3.sum_qty), (3, 1, 1));

    // A value that a column cannot hold fails the load.
    events[5].aux = u64::MAX;
    let err = load(&events).unwrap_err();
    assert!(err.message().contains("aux"));
    // Sums beyond 64 bits are exact.
    let huge: Vec<Event> = (0..4).map(|i| store_ev(i, 9, EventKind::Trade, 1, i64::MAX)).collect();
    assert_eq!(full_scan_ours(&huge)[0].sum_qty, 4 * i128::from(i64::MAX));
}

/// The window of one instrument from its anchor on, fetched back from SQL.
fn window(conn: &rusqlite::Connection, instrument: u32, from: u64, to: u64) -> Vec<Event> {
    let mut stmt = conn
        .prepare(
            "SELECT recv_mono, recv_wall, venue_ts, venue_seq, price, qty, aux, instrument, kind, \
             venue, flags FROM events WHERE instrument = ? AND recv_mono BETWEEN ? AND ? \
             ORDER BY recv_mono, rowid",
        )
        .unwrap();
    let rows = stmt
        .query_map((instrument, from as i64, to as i64), |r| {
            Ok((
                r.get(0)?,
                r.get(1)?,
                r.get(2)?,
                r.get(3)?,
                r.get(4)?,
                r.get(5)?,
                r.get(6)?,
                r.get(7)?,
                r.get(8)?,
                r.get(9)?,
                r.get(10)?,
            ))
        })
        .unwrap();
    rows.map(|r| event_from_sql(r.unwrap()).unwrap()).collect()
}

#[test]
fn point_in_time_tops_agree_with_sqlite() {
    let events = corpus();
    let conn = load(&events).unwrap();
    let top = |instrument: u32, t: u64, anchor: Option<u64>| -> PitTop {
        let from = anchor.unwrap_or(0);
        let ours = ours_window(&events, instrument, from, t);
        assert_eq!(window(&conn, instrument, from, t), ours);
        let top = pit_ours(&events, instrument, t, anchor);
        if anchor.is_some() {
            assert_eq!(top, pit_top(anchor, &ours));
        }
        top
    };
    let a = top(1, 104, Some(100));
    assert_eq!(a.anchor_mono, Some(100));
    assert_eq!(a.best_bid, Some((10_000, 5)));
    assert_eq!(a.best_ask, Some((10_100, 4)));
    assert_eq!(top(1, 110, Some(100)).best_bid, Some((10_000, 7)), "delta applied");
    // Folding from the complete snapshot replays through the dangling one.
    let b = top(1, 600, Some(200));
    assert_eq!((b.best_bid, b.best_ask), (Some((9_000, 1)), None));
    // No anchor: nothing, whatever the events.
    let c = top(3, 600, None);
    assert_eq!((c.anchor_mono, c.best_bid, c.best_ask), (None, None, None));
    // Clear wipes the book until the next snapshot.
    let d = top(2, 255, Some(105));
    assert_eq!((d.best_bid, d.best_ask), (None, None));
    let e = top(2, 600, Some(260));
    assert_eq!((e.best_bid, e.best_ask), (Some((5_200, 2)), None));
}

#[test]
fn host_files_are_read() {
    let cpu = "processor\t: 0\nmodel name\t: Fast CPU @ 3.0GHz\nmodel name\t: other\n";
    assert_eq!(cpu_model(cpu), Some("Fast CPU @ 3.0GHz".to_string()));
    assert_eq!(cpu_model("processor : 0\n"), None);
    assert_eq!(mem_total_gb("MemFree: 1 kB\nMemTotal:       33554432 kB\n"), Some(32));
    assert_eq!(mem_total_gb("MemTotal: lots kB\n"), None);
    assert_eq!(
        pretty_name("NAME=x\nPRETTY_NAME=\"Linux 1.0 (x)\"\n"),
        Some("Linux 1.0 (x)".to_string())
    );
    assert_eq!(pretty_name("NAME=x\n"), None);
}

fn ev(kind: EventKind, venue: Venue, instrument: u32, price: i64, qty: i64) -> Event {
    Event {
        recv_mono_ns: 0,
        recv_wall_ns: 0,
        venue_ts_ns: 0,
        venue_seq: 0,
        price,
        qty,
        aux: 0,
        instrument,
        kind: kind.code(),
        venue: venue.code(),
        flags: 0,
        rsvd: 0,
    }
}

/// A tiny two-venue stream: snapshot then deltas, exercising both the
/// kraken-routed and default book sets.
fn synthetic_events() -> Vec<Event> {
    vec![
        ev(EventKind::SnapBegin, Venue::Coinbase, 1, 0, 0),
        ev(EventKind::SnapBid, Venue::Coinbase, 1, 100_00000000, 5_00000000),
        ev(EventKind::SnapAsk, Venue::Coinbase, 1, 101_00000000, 5_00000000),
        ev(EventKind::SnapEnd, Venue::Coinbase, 1, 0, 0),
        // best-bid qty change -> top_changed
        ev(EventKind::BidSet, Venue::Coinbase, 1, 100_00000000, 7_00000000),
        // deeper level -> not top_changed
        ev(EventKind::BidSet, Venue::Coinbase, 1, 99_00000000, 3_00000000),
        // remove best ask -> top_changed
        ev(EventKind::AskSet, Venue::Coinbase, 1, 101_00000000, 0),
        // kraken instrument routed to the capped set
        ev(EventKind::SnapBegin, Venue::Kraken, 2, 0, 0),
        ev(EventKind::SnapBid, Venue::Kraken, 2, 50_00000000, 1_00000000),
        ev(EventKind::SnapEnd, Venue::Kraken, 2, 0, 0),
    ]
}

fn sql_ev(mono: u64, kind: EventKind, instrument: u32, price: i64, qty: i64) -> Event {
    Event {
        recv_mono_ns: mono,
        recv_wall_ns: mono + 1,
        venue_ts_ns: mono + 2,
        venue_seq: mono + 3,
        price,
        qty,
        aux: 7,
        instrument,
        kind: kind.code(),
        venue: Venue::Coinbase.code(),
        flags: 2,
        rsvd: 0,
    }
}

fn store_ev(mono: u64, instrument: u32, kind: EventKind, price: i64, qty: i64) -> Event {
    Event {
        recv_mono_ns: mono,
        recv_wall_ns: mono + 1_000,
        venue_ts_ns: mono + 2_000,
        venue_seq: mono,
        price,
        qty,
        aux: 0,
        instrument,
        kind: kind.code(),
        venue: Venue::Coinbase.code(),
        flags: 0,
        rsvd: 0,
    }
}

/// The synthetic corpus, in strict mono order:
/// - instrument 1: two complete snapshots, deltas, a trade, then a DANGLING
///   `SnapBegin` at mono 500 (never ended) with one level after it;
/// - instrument 2: one snapshot, a delta, a `Clear`, then a second snapshot;
/// - instrument 3: a lone trade, no snapshots ever (anchor misses).
fn corpus() -> Vec<Event> {
    vec![
        store_ev(100, 1, EventKind::SnapBegin, 0, 0),
        store_ev(101, 1, EventKind::SnapBid, 10_000, 5),
        store_ev(102, 1, EventKind::SnapAsk, 10_100, 4),
        store_ev(103, 1, EventKind::SnapEnd, 0, 0),
        store_ev(105, 2, EventKind::SnapBegin, 0, 0),
        store_ev(106, 2, EventKind::SnapBid, 5_000, 5),
        store_ev(107, 2, EventKind::SnapAsk, 5_100, 5),
        store_ev(108, 2, EventKind::SnapEnd, 0, 0),
        store_ev(110, 1, EventKind::BidSet, 10_000, 7),
        store_ev(115, 3, EventKind::Trade, 777, 1),
        store_ev(120, 1, EventKind::Trade, 10_050, 2),
        store_ev(150, 2, EventKind::AskSet, 5_100, 3),
        store_ev(200, 1, EventKind::SnapBegin, 0, 0),
        store_ev(201, 1, EventKind::SnapBid, 10_200, 1),
        store_ev(202, 1, EventKind::SnapAsk, 10_300, 2),
        store_ev(203, 1, EventKind::SnapEnd, 0, 0),
        store_ev(250, 2, EventKind::Clear, 0, 0),
        store_ev(260, 2, EventKind::SnapBegin, 0, 0),
        store_ev(261, 2, EventKind::SnapBid, 5_200, 2),
        store_ev(262, 2, EventKind::SnapEnd, 0, 0),
        store_ev(300, 1, EventKind::BidSet, 10_200, 9),
        store_ev(500, 1, EventKind::SnapBegin, 0, 0), // dangling: no SnapEnd ever
        store_ev(510, 1, EventKind::SnapBid, 9_000, 1),
    ]
}

#[test]
fn parse_args_defaults_and_flags() {
    let c = bus::parse_args(&[]).unwrap();
    assert_eq!(
        c,
        Options {
            quick: false,
            results_dir: "bench/results".to_string(),
            overwrite: false,
        }
    );
    let c = bus::parse_args(&argv(&["--quick", "--results-dir", "/tmp/x", "--overwrite"]))
    .unwrap();
    assert!(c.quick && c.overwrite);
    assert_eq!(c.results_dir, "/tmp/x");
}

#[test]
fn parse_args_rejects_bad_input() {
    assert!(bus::parse_args(&argv(&["--nope"])).is_err());
    // --results-dir with no value
    assert!(bus::parse_args(&argv(&["--results-dir"])).is_err());
    // --help is a usage "error" (prints usage, exit 2)
    assert!(bus::parse_args(&argv(&["-h"])).is_err());
}

#[test]
fn workload_sizes() {
    assert_eq!(
        workload(false),
        (THROUGHPUT_MSGS_FULL, PACED_RATE_FULL, PACED_MSGS_FULL)
    );
    assert_eq!(
        workload(true),
        (THROUGHPUT_MSGS_QUICK, PACED_RATE_QUICK, PACED_MSGS_QUICK)
    );
}

#[test]
fn sample_stride_caps_at_target() {
    assert_eq!(sample_stride(100, 1000), 1, "under cap: keep everything");
    assert_eq!(sample_stride(2_000_000, 2_000_000), 1);
    assert_eq!(sample_stride(2_000_001, 2_000_000), 2);
    assert_eq!(sample_stride(10_000_000, 2_000_000), 5);
    assert_eq!(sample_stride(0, 2_000_000), 1);
    assert_eq!(sample_stride(7, 0), 7, "cap 0 degrades to one sample");
    // stride actually enforces the cap: ceil(total/stride) <= cap
    for (total, cap) in [(5_000_001u64, 2_000_000u64), (3, 2), (999, 10)] {
        let s = sample_stride(total, cap);
        assert!(total.div_ceil(s) <= cap, "total={total} cap={cap} s={s}");
    }
}

#[test]
fn pace_target_schedule_is_absolute_and_monotone() {
    // 500k msg/s => 2000 ns between messages, from the start anchor
    assert_eq!(pace_target_ns(1000, 0, 500_000), 1000);
    assert_eq!(pace_target_ns(1000, 1, 500_000), 3000);
    assert_eq!(pace_target_ns(1000, 5, 500_000), 11_000);
    // 100k msg/s => 10_000 ns spacing
    assert_eq!(pace_target_ns(0, 3, 100_000), 30_000);
    // monotone in index, no overflow at large indices
    let mut prev = 0;
    for i in [0u64, 1, 10, 1_000_000, u64::MAX / 2] {
        let t = pace_target_ns(5, i, 250_000);
        assert!(t >= prev);
        prev = t;
    }
    // rate 0 degrades to rate 1 rather than dividing by zero
    assert_eq!(pace_target_ns(0, 2, 0), 2_000_000_000);
}

#[test]
fn parse_args_net_quick_defaults() {
    let cli = e2e::parse_args(&argv(&["net", "--quick"])).unwrap();
    let e2e::Cli::Net(c) = cli else {
        panic!("expected net")
    };
    assert_eq!((c.rate, c.subs, c.secs, c.options.quick), (50_000, 4, 10, true));
    assert_eq!(c.options.results_dir, "bench/results");
    assert!(!c.options.overwrite);
}

#[test]
fn parse_args_net_full_defaults_and_overrides() {
    let e2e::Cli::Net(c) = e2e::parse_args(&argv(&["net"])).unwrap() else {
        panic!("expected net")
    };
    assert_eq!((c.rate, c.subs, c.secs), (200_000, 4, 30));

    let args = [
        "net", "--rate", "1000", "--subs", "2", "--secs", "5", "--quick",
    ];
    let e2e::Cli::Net(c) = e2e::parse_args(&argv(&args)).unwrap() else {
        panic!("expected net")
    };
    // explicit values beat --quick defaults
    assert_eq!((c.rate, c.subs, c.secs, c.options.quick), (1000, 2, 5, true));
}

#[test]
fn parse_args_live_defaults_help_and_errors() {
    let e2e::Cli::Live(c) = e2e::parse_args(&argv(&["live", "--quick"])).unwrap()
    else {
        panic!("expected live")
    };
    assert_eq!((c.secs, c.options.quick), (60, true));
    assert_eq!(c.symbols, "BTC");

    let args = ["live", "--secs", "300", "--symbols", "eth"];
    let e2e::Cli::Live(c) = e2e::parse_args(&argv(&args)).unwrap() else {
        panic!("expected live")
    };
    assert_eq!((c.secs, c.symbols.as_str()), (300, "ETH"));

    assert_eq!(
        e2e::parse_args(&argv(&["--help"])).unwrap(),
        e2e::Cli::Help
    );
    assert!(e2e::parse_args(&argv(&["bogus"])).is_err());
    assert!(e2e::parse_args(&argv(&["net", "--rate"])).is_err());
    assert!(e2e::parse_args(&argv(&["net", "--symbols", "BTC"])).is_err());
    assert!(e2e::parse_args(&[]).is_err());
}

#[test]
fn pacing_schedule_and_stride() {
    assert_eq!(send_deadline_ns(0, 1000), 0);
    assert_eq!(send_deadline_ns(1, 1000), 1_000_000);
    assert_eq!(send_deadline_ns(200_000, 200_000), 1_000_000_000);
    // no overflow at large i
    assert!(send_deadline_ns(u64::MAX / 2, 1) > 0);

    assert_eq!(sample_stride(100, 1000), 1);
    assert_eq!(sample_stride(2001, 1000), 3);
    assert_eq!(sample_stride(0, 1000), 1);
    assert_eq!(sample_stride(100, 0), 100);
}

#[test]
fn rtt_ping_pong_roundtrip() {
    let sent = 123_456_789u64;
    let p = ping_payload(sent);
    assert_eq!(rtt_from_pong(&p, sent + 1_000), Some(1_000));
    // saturates instead of underflowing if the echo beats the clock
    assert_eq!(rtt_from_pong(&p, 0), Some(0));
    // non-8-byte payloads (venue-originated pongs) are ignored
    assert_eq!(rtt_from_pong(b"", 5), None);
    assert_eq!(rtt_from_pong(b"123456789", 5), None);
}

#[test]
fn venue_path_clamping() {
    assert_eq!(venue_path_sample(1_000, 400), (600, false));
    assert_eq!(venue_path_sample(400, 1_000), (0, true));
    assert_eq!(venue_path_sample(7, 7), (0, false));
}

#[test]
fn early_close_note_formatting() {
    // before the deadline: a note with whole seconds elapsed + reason
    assert_eq!(
        early_close_note("kraken", 7_900_000_000, 500_000_000, 60_000_000_000, "eof"),
        Some("kraken closed early (7s in): eof".into())
    );
    // sub-second sessions read "0s in"
    assert_eq!(
        early_close_note("binance", 10, 5, 100, "x"),
        Some("binance closed early (0s in): x".into())
    );
    // at/after the deadline: clean end, no note
    assert_eq!(early_close_note("coinbase", 100, 0, 100, "x"), None);
    assert_eq!(early_close_note("coinbase", 200, 0, 100, "x"), None);
}

#[test]
fn builtin_registry_btc_instruments() {
    let reg = Registry::builtin();
    assert_eq!(
        venue_instrument(&reg, Venue::Coinbase, "BTC"),
        Some(("BTC-USD".into(), 1))
    );
    assert_eq!(
        venue_instrument(&reg, Venue::Binance, "BTC"),
        Some(("BTCUSDT".into(), 6))
    );
    assert_eq!(
        venue_instrument(&reg, Venue::Kraken, "BTC"),
        Some(("BTC/USD".into(), 11))
    );
    assert_eq!(venue_instrument(&reg, Venue::Kraken, "NOPE"), None);
}

#[test]
fn parse_args_full_and_defaults() {
    let a = run_args(feed::parse_args(&argv(&[
        "--data",
        "data/smoke",
        "--quick",
        "--results-dir",
        "bench/results/tmp",
        "--overwrite",
    ])));
    assert_eq!(a.data, "data/smoke");
    assert!(a.options.quick);
    assert!(a.options.overwrite);
    assert!(!a.alloc_check);
    assert_eq!(a.options.results_dir, "bench/results/tmp");

    // bench/run-all.sh contract: bare invocation works, defaulting to
    // the soak capture root and the official results dir.
    let d = run_args(feed::parse_args(&argv(&[])));
    assert!(!d.options.quick && !d.alloc_check && !d.options.overwrite);
    assert_eq!(d.data, "data/raw");
    assert_eq!(d.options.results_dir, "bench/results");

    let c = run_args(feed::parse_args(&argv(&["--data", "x", "--alloc-check"])));
    assert!(c.alloc_check);
}

#[test]
fn parse_args_help_and_bad_input() {
    // bench/run-all.sh probes with --help and requires exit 0.
    assert_eq!(feed::parse_args(&argv(&["--help"])).unwrap(), feed::Cli::Help);
    assert_eq!(feed::parse_args(&argv(&["-h"])).unwrap(), feed::Cli::Help);
    assert!(
        feed::parse_args(&argv(&["--data"]))
            .unwrap_err()
            .contains("--data needs")
    );
    assert!(
        feed::parse_args(&argv(&["--data", "x", "--bogus"]))
            .unwrap_err()
            .contains("unknown arg: --bogus")
    );
}

#[test]
fn median_is_nearest_rank() {
    assert_eq!(median_ns(&[42]), 42);
    assert_eq!(median_ns(&[3, 1, 2]), 2);
    // even n: lower median (nearest-rank p50), matching Percentiles
    assert_eq!(median_ns(&[10, 20]), 10);
    assert_eq!(median_ns(&[4, 1, 3, 2]), 2);
}

#[test]
fn caps_and_runs_per_mode() {
    assert_eq!(frame_cap(true), 100_000);
    assert_eq!(frame_cap(false), 1_000_000);
    assert_eq!(measured_runs(true), 2);
    assert_eq!(measured_runs(false), 5);
}

#[test]
fn parse_args_full_defaults_and_errors() {
    let full = lob::parse_args(&argv(&[
            "--data",
            "data/smoke",
            "--quick",
            "--results-dir",
            "bench/results/tmp",
            "--kraken-depth",
            "25",
            "--overwrite",
        ]))
    .unwrap();
    assert_eq!(
        full,
        lob::Config {
            data: "data/smoke".to_string(),
            kraken_depth: 25,
            options: Options {
                quick: true,
                results_dir: "bench/results/tmp".to_string(),
                overwrite: true,
            },
        }
    );

    let defaults = lob::parse_args(&argv(&["--data", "d"])).unwrap();
    assert!(!defaults.options.quick);
    assert!(!defaults.options.overwrite);
    assert_eq!(defaults.kraken_depth, 100);
    assert_eq!(defaults.options.results_dir, "bench/results");

    assert!(lob::parse_args(&[]).is_err(), "--data required");
    assert!(
        lob::parse_args(&argv(&["--bogus"])).is_err(),
        "unknown arg rejected"
    );
    assert!(
        lob::parse_args(&argv(&["--data", "d", "--kraken-depth", "nope"]))
        .is_err(),
        "non-integer depth rejected"
    );
}

#[test]
fn measured_passes_quick_vs_full() {
    assert_eq!(measured_passes(true), 2);
    assert_eq!(measured_passes(false), 5);
}

#[test]
fn apply_all_digest_identical_across_representations_and_repeats() {
    let events = synthetic_events();
    let a = apply_all(&events, make_ladder, make_ladder, Some(100));
    let b = apply_all(&events, make_ladder, make_ladder, Some(100));
    let c = apply_all(&events, make_btree, make_btree, Some(100));
    assert_eq!(a, b, "same representation must be deterministic");
    assert_eq!(a, c, "ladder and btree must agree");
    assert_ne!(a, 0);
}

#[test]
fn tob_samples_only_for_top_changes_and_match_across_impls() {
    let events = synthetic_events();
    let ladder = tob_latency_samples(&events, make_ladder, make_ladder, Some(100));
    let btree = tob_latency_samples(&events, make_btree, make_btree, Some(100));
    // snapshot levels (3) + best-bid qty change + best-ask removal = 5;
    // the deeper BidSet and the SnapBegin/SnapEnd brackets don't count.
    assert_eq!(ladder.len(), 5);
    assert_eq!(
        ladder.len(),
        btree.len(),
        "top-changed classification must agree across impls"
    );
}

#[test]
fn bench_store_parse_args_full_defaults_and_errors() {
    let full = store::parse_args(&argv(&[
            "--store",
            "x.fbstore",
            "--quick",
            "--results-dir",
            "bench/results/tmp",
            "--overwrite",
        ]))
    .unwrap();
    assert_eq!(
        full,
        store::Config {
            store: "x.fbstore".to_string(),
            options: Options {
                quick: true,
                results_dir: "bench/results/tmp".to_string(),
                overwrite: true,
            },
        }
    );
    let defaults = store::parse_args(&argv(&["--store", "s"])).unwrap();
    assert!(!defaults.options.quick && !defaults.options.overwrite);
    assert_eq!(defaults.options.results_dir, "bench/results");
    assert!(store::parse_args(&[]).is_err(), "--store required");
    assert!(store::parse_args(&argv(&["--nope"])).is_err());
}

#[test]
fn gen_queries_is_seeded_and_in_range() {
    let insts = [3u32, 7, 9];
    let a = gen_queries(&insts, 100, 200, 50, 42);
    let b = gen_queries(&insts, 100, 200, 50, 42);
    assert_eq!(a, b, "same seed => same queries");
    assert_eq!(a.len(), 50);
    assert!(
        a.iter()
            .all(|(i, t)| insts.contains(i) && (100..=200).contains(t))
    );
    let c = gen_queries(&insts, 100, 200, 50, 43);
    assert_ne!(a, c, "different seed => different queries");
    // Degenerate time range still works.
    let d = gen_queries(&insts, 5, 5, 3, 1);
    assert!(d.iter().all(|&(_, t)| t == 5));
}

#[test]
fn meta_knobs_parses_ingest_meta_and_defaults() {
    let (b, z) = meta_knobs(br#"{"block_events":1024,"zstd_level":7}"#);
    assert_eq!((b, z), (1024, 7));
    // zstd_level null (raw store) and missing fields fall back sanely.
    let (b, z) = meta_knobs(br#"{"block_events":512,"zstd_level":null}"#);
    assert_eq!((b, z), (512, 3));
    let (b, z) = meta_knobs(b"not json");
    assert_eq!((b, z), (8192, 3));
    let (b, z) = meta_knobs(br#"{"block_events":0}"#);
    assert_eq!((b, z), (8192, 3), "zero block_events rejected");
}

#[test]
fn sql_row_roundtrips_and_rejects_overflow() {
    let e = sql_ev(123, EventKind::BidSet, 5, 100_00000000, 3_00000000);
    let row = sql_row(&e).unwrap();
    assert_eq!(event_from_sql(row).unwrap(), e);

    let mut big = e;
    big.aux = u64::MAX; // > i64::MAX: unrepresentable in BIGINT
    let err = sql_row(&big).unwrap_err();
    assert!(err.message().contains("aux"), "{err:?}");

    let mut big = e;
    big.recv_mono_ns = (1u64 << 63) + 1;
    assert!(sql_row(&big).is_err(), "recv_mono over i64::MAX rejected");
}

#[test]
fn scan_row_from_sql_rejects_negatives_and_recombines_split_sum() {
    let ok = scan_row_from_sql((1, 2, 3, 4, 5, 6, 7)).unwrap();
    // hi/lo recombination: 3 * 2^31 + 4
    assert_eq!(ok.sum_qty, 3i128 * 2_147_483_648 + 4);
    assert!(scan_row_from_sql((-1, 2, 3, 4, 5, 6, 7)).is_err());
    assert!(scan_row_from_sql((1, -2, 3, 4, 5, 6, 7)).is_err());
    assert!(scan_row_from_sql((1, 2, 3, 4, 5, 6, -7)).is_err());
    // a sum that would overflow i64 recombines exactly in i128
    let big = scan_row_from_sql((1, 2, i64::MAX / 4, 100, 0, 0, 1)).unwrap();
    assert_eq!(big.sum_qty, i128::from(i64::MAX / 4) * 2_147_483_648 + 100);
    assert!(big.sum_qty > i128::from(i64::MAX));
}

#[test]
fn sql_literal_escapes_quotes() {
    let p = "/tmp/it's a dir/out.parquet";
    assert_eq!(
        sql_str_literal(p),
        "'/tmp/it''s a dir/out.parquet'"
    );
}

#[test]
fn finish_sql_pit_reports_divergence_and_empty_anchor() {
    let mut book = LadderBook::new();
    for e in [
        sql_ev(10, EventKind::SnapBegin, 1, 0, 0),
        sql_ev(11, EventKind::SnapBid, 1, 100, 5),
        sql_ev(12, EventKind::SnapAsk, 1, 101, 6),
        sql_ev(13, EventKind::SnapEnd, 1, 0, 0),
    ] {
        fold_event(&mut book, &e);
    }
    let agree = finish_sql_pit(Some(10), Some(10), &book);
    assert!(!agree.anchor_diverged);
    assert_eq!(agree.top.best_bid, Some((100, 5)));
    assert_eq!(agree.top.best_ask, Some((101, 6)));

    let diverged = finish_sql_pit(Some(10), Some(50), &book);
    assert!(diverged.anchor_diverged);
    assert_eq!(diverged.top.anchor_mono, Some(10));

    // No ours-anchor: empty top regardless of the folded book state.
    let none = finish_sql_pit(None, Some(50), &book);
    assert_eq!(none.top.best_bid, None);
    assert_eq!(none.top.best_ask, None);
    assert!(none.anchor_diverged);
}

#[test]
fn deterministic_across_instances() {
    let mut a = EventGen::new(7);
    let mut b = EventGen::new(7);
    let (mut va, mut vb) = (Vec::new(), Vec::new());
    a.fill(1000, &mut va);
    b.fill(1000, &mut vb);
    assert_eq!(va, vb);
    let mut c = EventGen::new(8);
    let mut vc = Vec::new();
    c.fill(1000, &mut vc);
    assert_ne!(va, vc);
}

#[test]
fn timestamps_monotone_and_kinds_valid() {
    let mut g = EventGen::new(1);
    let mut prev = 0;
    for _ in 0..10_000 {
        let e = g.next_event();
        assert!(e.recv_mono_ns > prev);
        prev = e.recv_mono_ns;
        assert!(e.kind().is_ok());
        assert!((1..=15).contains(&e.instrument));
    }
}

#[test]
fn nearest_rank_definition() {
    // 1..=100: p50 = 50th value = 50, p90 = 90, p99 = 99, p999 -> ceil(99.9)=100
    let s: Vec<u64> = (1..=100).collect();
    let p = Percentiles::from_sorted(&s);
    assert_eq!(p.n, 100);
    assert_eq!(p.min, 1);
    assert_eq!(p.p50, 50);
    assert_eq!(p.p90, 90);
    assert_eq!(p.p99, 99);
    assert_eq!(p.p999, 100, "p999 of 100 samples saturates at max");
    assert_eq!(p.max, 100);
}

#[test]
fn single_sample_and_unsorted_input() {
    let p = Percentiles::from_samples(&[42]).unwrap();
    assert_eq!((p.min, p.p50, p.p999, p.max, p.n), (42, 42, 42, 42, 1));

    let p = Percentiles::from_samples(&[5, 1, 3, 2, 4]).unwrap();
    assert_eq!(p.min, 1);
    assert_eq!(p.p50, 3);
    assert_eq!(p.max, 5);
}

#[test]
fn empty_is_none() {
    assert!(Percentiles::from_samples(&[]).is_none());
}

#[test]
fn large_skewed_distribution() {
    // 999 fast samples at 100ns, one outlier at 1ms: p999 must expose it
    let mut s = vec![100u64; 999];
    s.push(1_000_000);
    s.sort_unstable();
    let p = Percentiles::from_sorted(&s);
    assert_eq!(p.p50, 100);
    assert_eq!(p.p99, 100);
    assert_eq!(p.p999, 100); // ceil(0.999*1000)=999 -> 999th value = 100
    assert_eq!(p.max, 1_000_000); // the outlier lives in max
    let mut s2 = vec![100u64; 998];
    s2.extend([1_000_000, 1_000_000]);
    s2.sort_unstable();
    let p2 = Percentiles::from_sorted(&s2);
    assert_eq!(p2.p999, 1_000_000); // with 2 outliers p999 catches them
}

#[test]
fn backends_are_held_to_agree() {
    let row = |n: u64| ScanRow {
        instrument: 1,
        count: n,
        sum_qty: 2,
        min_price: 3,
        max_price: 4,
        max_mono: 5,
    };
    let mut p = Parity::scanned(&[row(1)], &[row(1)], &[row(1)]);
    assert!(p.ok() && p.reported == 0);
    let top = |bid: i64| PitTop {
        anchor_mono: Some(1),
        best_bid: Some((bid, 1)),
        best_ask: None,
    };
    let pit = |bid: i64, diverged: bool| SqlPit {
        top: top(bid),
        sql_anchor: Some(1),
        anchor_diverged: diverged,
    };
    assert!(!p.queried(&top(7), &pit(7, false), &pit(7, true)));
    assert!(p.ok());
    assert_eq!((p.hits, p.divergences), (1, 1));
    for i in 0..7 {
        assert_eq!(p.queried(&top(7), &pit(7, false), &pit(8, false)), i < 5);
    }
    assert!(!p.ok() && !p.pit_tops_equal && p.full_scan_equal);
    assert_eq!((p.hits, p.reported), (8, 5));

    let q = Parity::scanned(&[row(1)], &[row(1)], &[row(2)]);
    assert!(!q.ok() && q.reported == 1);
    assert!(same_rows(&[], &[]));
    assert!(!same_rows(&[row(1)], &[]));
    assert!(same_top(&top(1), &top(1)) && !same_top(&top(1), &top(2)));
}

#[test]
fn a_read_loop_counts_what_it_reads() {
    let mut p = ring(8);
    let mut r = ReadStats::new();
    let mut a = ev(EventKind::Trade, Venue::Kraken, 1, 5, 6);
    let b = a;
    a.venue_ts_ns = 900;
    r.on_parsed(true, 100, 130);
    publish_all(&mut p, &[b, a]);
    r.on_published(&[b, a], 1_000, 130, 150);
    // a frame without events, one that could not be parsed, and a venue clock
    // that is ahead
    r.on_parsed(true, 200, 210);
    r.on_published(&[], 1_000, 210, 211);
    r.on_parsed(false, 300, 310);
    r.on_parsed(true, 400, 399);
    publish_all(&mut p, &[a]);
    r.on_published(&[a], 800, 410, 415);
    r.on_pong(&ping_payload(50), 75);
    r.on_pong(b"other", 80);
    assert_eq!((r.frames, r.events, p.published()), (3, 3, 3));
    assert_eq!(r.parse, vec![30, 10, 0]);
    assert_eq!(r.publish, vec![20, 5]);
    assert_eq!((r.venue_path, r.venue_path_clamped), (vec![100, 0], 1));
    assert_eq!(r.rtt, vec![25]);
}

#[test]
fn host_files_are_read_line_by_line() {
    // a line ends in front of a carriage return and a line feed
    assert_eq!(
        pretty_name("NAME=x\r\nPRETTY_NAME=\"Linux 2\"\r\nID=y\r\n"),
        Some("Linux 2".to_string())
    );
    // but not in front of a carriage return alone
    assert_eq!(pretty_name("PRETTY_NAME=\"L\"\r"), Some("L\"\r".to_string()));
    // a prefix is removed as often as it is there
    assert_eq!(
        pretty_name("PRETTY_NAME=PRETTY_NAME=\"\"Linux\"\n"),
        Some("Linux".to_string())
    );
    // any white space parts the words
    assert_eq!(mem_total_gb("MemTotal:\u{a0}\u{2003}2097152\u{3000}kB\n"), Some(2));
    assert_eq!(mem_total_gb("MemTotal: \r\n"), None);
    assert_eq!(mem_total_gb("MemTotal: +1048576\r\n"), Some(1));
}
