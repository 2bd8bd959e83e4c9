//! Capture: rotating raw sinks, stats lines, backoff, REST envelopes and
//! schedules, the parse-fallback policy and the session rules, driven through
//! a scriptable codec.
use flashbook::capture::{
    parse_args, rest_plan, select, shutdown_line, symbol_ids, symbol_table,
};
use flashbook::codec::{CodecError, CodecStats, Signal, VenueCodec};
use flashbook::conn::session::{
    connect_note, shutdown_note, Arrival, Reason, Retry, Session, Step,
};
use flashbook::conn::{
    account_events, backoff_ceiling, backoff_with, idle_deadline, next_backoff,
    parse_rest_envelope, process_payload, rest_envelope, retry_after_delay, session_healthy,
    should_log_parse_error, stagger_offset, EnvelopeError, RestPlan, RestSched, RestTarget,
    VenueConfig, HEALTHY_SESSION_MIN,
};
use flashbook::event::{Event, EventKind, Venue};
use flashbook::instrument::Registry;
use flashbook::rawlog;
use flashbook::rawlog::rkind;
use flashbook::sink::{
    default_max_age, meta_json, segment_name, should_rotate, RotatingRawLog, SinkGauges,
    DEFAULT_MAX_AGE, DEFAULT_MAX_BYTES,
};
use flashbook::span::Span;
use flashbook::stats::{emit_lines, EmitterEntry, VenueStats};

/// Scriptable codec: behavior keyed off the payload prefix.
///
/// - `fast...` -> fast path emits one event
/// - `gap...` -> fast path emits a Gap event + NeedResync signal
/// - `slow...` -> fast path Structure error, slow path emits two events
/// - `bad...` -> fast path Structure error, slow path appends a partial
///   event and THEN errors (exercises buffer restore)
/// - `unknown...` -> fast path UnknownInstrument (no slow retry expected)
struct MockCodec {
    stats: CodecStats,
    fast_calls: u64,
    slow_calls: u64,
}

impl MockCodec {
    fn new() -> Self {
        Self {
            stats: CodecStats::default(),
            fast_calls: 0,
            slow_calls: 0,
        }
    }

    fn event(kind: EventKind, mono: u64, wall: u64) -> Event {
        Event {
            recv_mono_ns: mono,
            recv_wall_ns: wall,
            instrument: 11,
            kind: kind.code(),
            venue: Venue::Kraken.code(),
            ..Event::zero()
        }
    }
}

impl VenueCodec for MockCodec {
    fn venue(&self) -> Venue {
        Venue::Kraken
    }

    fn ws_url(&self) -> String {
        "wss://mock.invalid/ws".into()
    }

    fn subscribe_messages(&self) -> Vec<String> {
        Vec::new()
    }

    fn parse(
        &mut self,
        payload: &[u8],
        recv_mono_ns: u64,
        recv_wall_ns: u64,
        out: &mut Vec<Event>,
    ) -> Result<Signal, CodecError> {
        self.fast_calls += 1;
        if payload.starts_with(b"fast") {
            out.push(Self::event(EventKind::Trade, recv_mono_ns, recv_wall_ns));
            Ok(Signal::Nothing)
        } else if payload.starts_with(b"gap") {
            out.push(Self::event(EventKind::Gap, recv_mono_ns, recv_wall_ns));
            Ok(Signal::NeedResync { instrument: 11 })
        } else if payload.starts_with(b"unknown") {
            Err(CodecError::UnknownInstrument)
        } else {
            Err(CodecError::Structure("mock fast"))
        }
    }

    fn parse_slow(
        &mut self,
        payload: &[u8],
        recv_mono_ns: u64,
        recv_wall_ns: u64,
        out: &mut Vec<Event>,
    ) -> Result<Signal, CodecError> {
        self.slow_calls += 1;
        if payload.starts_with(b"slow") {
            out.push(Self::event(EventKind::BidSet, recv_mono_ns, recv_wall_ns));
            out.push(Self::event(EventKind::AskSet, recv_mono_ns, recv_wall_ns));
            Ok(Signal::Nothing)
        } else {
            // Emit partial garbage before failing: process_payload must
            // restore the buffer so none of it leaks out.
            out.push(Self::event(EventKind::Clear, recv_mono_ns, recv_wall_ns));
            Err(CodecError::Structure("mock slow"))
        }
    }

    fn parse_rest_snapshot(
        &mut self,
        instrument: u32,
        body: &[u8],
        recv_mono_ns: u64,
        recv_wall_ns: u64,
        out: &mut Vec<Event>,
    ) -> Result<Signal, CodecError> {
        out.push(Event {
            instrument,
            ..Self::event(EventKind::Clear, recv_mono_ns, recv_wall_ns)
        });
        if body.starts_with(b"good") {
            Ok(Signal::Nothing)
        } else if body.starts_with(b"stale") {
            Ok(Signal::NeedResync { instrument })
        } else {
            Err(CodecError::Structure("mock rest"))
        }
    }

    fn stats(&self) -> &CodecStats {
        &self.stats
    }
}


fn twice(s: Span) -> Span {
    Span { nanos: s.nanos * 2 }
}

fn argv(words: &[&str]) -> Vec<String> {
    words.iter().map(|w| w.to_string()).collect()
}

/// A sink whose closed segments are kept in memory.
struct Store {
    sink: RotatingRawLog,
    closed: Vec<Vec<u8>>,
    current: Vec<u8>,
}

impl Store {
    fn new(venue: Venue, meta: Vec<u8>, max_bytes: u64, max_age: Span) -> Store {
        Store {
            sink: RotatingRawLog::create(venue, meta, max_bytes, max_age, 7, 8, 0).unwrap(),
            closed: Vec::new(),
            current: Vec::new(),
        }
    }

    fn maybe_rotate(&mut self, now: u64) -> bool {
        if !self.sink.due(now) {
            return false;
        }
        let rest = self.sink.rotate(now + 7, now + 8, now);
        self.current.extend(rest);
        self.closed.push(std::mem::take(&mut self.current));
        true
    }

    fn append(&mut self, rk: u8, mono: u64, wall: u64, payload: &[u8], now: u64) {
        self.maybe_rotate(now);
        self.sink.append(rk, mono, wall, payload, now).unwrap();
    }

    fn finish(mut self) -> Vec<Vec<u8>> {
        self.current.extend(self.sink.take_pending());
        self.closed.push(self.current);
        self.closed
    }
}

#[test]
fn rotation_by_size_produces_clean_segments() {
    let meta = meta_json(&[("BTC/USD", 11), ("ETH/USD", 12)]);
    let mut store = Store::new(
        Venue::Kraken,
        meta.clone(),
        300, // tiny byte budget -> rotate every few records
        Span::from_secs(3600),
    );

    let payload = [b'x'; 40];
    for i in 0..50u64 {
        store.append(rkind::WS_TEXT, i, i + 1, &payload, i);
    }
    let segments = store.sink.segments_created();
    assert!(segments > 5, "expected many rotations, got {segments}");
    assert!(store.sink.current_bytes() > 0);
    assert_eq!(store.sink.gauges().segments, segments);
    let files = store.finish();
    assert_eq!(files.len() as u64, segments);
    let mut total_records = 0;
    for f in &files {
        let rep = rawlog::scan(f).unwrap();
        assert!(rep.torn.is_none(), "torn segment");
        total_records += rep.records;
        let rd = rawlog::RawLogReader::from_reader(f).unwrap();
        assert_eq!(rd.header.venue, Venue::Kraken.code());
        assert_eq!(rd.header.meta, meta);
        assert!(f.len() < 300 + 21 + 4 + 40);
    }
    assert_eq!(total_records, 50);
}

#[test]
fn rotation_by_age() {
    let mut store = Store::new(
        Venue::Coinbase,
        meta_json(&[("BTC-USD", 1)]),
        u64::MAX,
        Span::from_millis(150),
    );
    store.append(rkind::WS_TEXT, 1, 2, b"first", 1_000_000);
    assert!(!store.maybe_rotate(149_999_999), "should not rotate while young");
    assert!(store.maybe_rotate(200_000_000), "age budget exceeded");
    assert_eq!(store.sink.segments_created(), 2);
    store.append(rkind::NOTE, 3, 4, b"second", 200_000_001);
    let files = store.finish();
    assert_eq!(files.len(), 2);
    let reps: Vec<_> = files.iter().map(|f| rawlog::scan(f).unwrap()).collect();
    assert!(reps.iter().all(|r| r.torn.is_none()));
    assert_eq!(reps.iter().map(|r| r.records).sum::<u64>(), 2);
}

#[test]
fn a_segment_over_budget_from_its_header_on_takes_one_record() {
    let mut store = Store::new(Venue::Binance, vec![b'm'; 100], 10, Span::from_secs(1));
    for i in 0..3u64 {
        store.append(rkind::WS_BINARY, i, i, b"abc", i);
    }
    let files = store.finish();
    assert_eq!(files.len(), 4);
    let records: Vec<u64> = files.iter().map(|f| rawlog::scan(f).unwrap().records).collect();
    assert_eq!(records, [0, 1, 1, 1]);
}

#[test]
fn segment_names_and_meta() {
    assert_eq!(segment_name(Venue::Kraken, 1_700_000_000_000_000_000), "kraken-1700000000000000000.fbraw");
    let meta = meta_json(&[("BTC/USD", 11), ("a\"b\\c", 7)]);
    let v: serde_json::Value = serde_json::from_slice(&meta).unwrap();
    assert_eq!(v["symbols"][0]["sym"], "BTC/USD");
    assert_eq!(v["symbols"][0]["id"], 11);
    assert_eq!(v["symbols"][1]["sym"], "a\"b\\c");
    assert_eq!(serde_json::to_vec(&v).unwrap(), meta);
    assert_eq!(meta_json(&[]), br#"{"symbols":[]}"#);
    assert_eq!(default_max_age(), Span::from_secs(DEFAULT_MAX_AGE));
    assert_eq!(DEFAULT_MAX_BYTES, 256 * 1024 * 1024);
}

#[test]
fn snapshots_add_up() {
    let a = VenueStats { msgs: 1, bytes: 2, rest_snaps: 9, ..VenueStats::default() };
    let b = VenueStats { msgs: 10, events: 5, ..VenueStats::default() };
    let sum = a.snapshot().add(&b.snapshot());
    assert_eq!((sum.msgs, sum.bytes, sum.events, sum.rest_snaps), (11, 2, 5, 9));
    assert_eq!(a.snapshot().add(&VenueStats::default().snapshot()), a.snapshot());
}

#[test]
fn one_stats_line_to_the_byte() {
    let out = emit_lines(&[], 5, 1, 2, 3);
    assert_eq!(
        out,
        "{\"ts_wall_ns\":5,\"venue\":\"total\",\"msgs\":0,\"bytes\":0,\"events\":0,\"gaps\":0,\
         \"resyncs\":0,\"reconnects\":0,\"fallbacks\":0,\"parse_errors\":0,\"rest_snaps\":0,\
         \"rss_mb\":1,\"rss_max_mb\":2,\"segments\":0,\"current_segment_bytes\":0,\"uptime_s\":3}\n"
    );
}

#[test]
fn backoff_with_a_given_jitter() {
    let floor = Span::from_secs(1);
    let cap = Span::from_secs(60);
    assert_eq!(backoff_with(2, floor, cap, 0), floor);
    assert_eq!(backoff_with(2, floor, cap, 3_000_000_000), Span::from_secs(4));
    assert_eq!(backoff_with(0, floor, cap, 500_000_000), Span::from_millis(1500));
}

#[test]
fn envelope_errors_have_texts() {
    let all = [EnvelopeError::BadPrefix, EnvelopeError::BadInstrument, EnvelopeError::BadBody];
    for (i, a) in all.iter().enumerate() {
        for b in &all[i + 1..] {
            assert_ne!(a.message(), b.message());
        }
    }
    let env = rest_envelope(6, "BTCUSDT", "https://x/\u{e9}\n", b"{}");
    let v: serde_json::Value = serde_json::from_slice(&env).unwrap();
    assert_eq!(v["instrument"], 6);
    assert_eq!(v["venue_symbol"], "BTCUSDT");
    assert_eq!(v["url"], "https://x/\u{e9}\n");
}

#[test]
fn capture_arguments() {
    let d = parse_args(&[]).unwrap();
    assert_eq!(d.data_dir, "data/raw");
    assert_eq!(d.stats_file, "ops/soak/stats.jsonl");
    assert_eq!(d.pid_file, "ops/soak/capture.pid");
    assert_eq!(d.venues, [Venue::Coinbase, Venue::Binance, Venue::Kraken]);
    assert_eq!(d.symbols, ["BTC", "ETH", "SOL", "XRP", "DOGE"]);

    let a = parse_args(&argv(&[
        "--venues", " Kraken,,BINANCE", "--symbols", "btc, eth ,", "--data-dir", "/a", "--data-dir",
        "/b", "--stats-file", "s", "--pid-file", "p",
    ]))
    .unwrap();
    assert_eq!(a.venues, [Venue::Kraken, Venue::Binance]);
    assert_eq!(a.symbols, ["BTC", "ETH"]);
    assert_eq!(a.data_dir, "/b");
    assert_eq!((a.stats_file.as_str(), a.pid_file.as_str()), ("s", "p"));

    let err = |words: &[&str]| parse_args(&argv(words)).unwrap_err();
    assert_eq!(err(&["--venues"]), "--venues requires a value");
    assert_eq!(err(&["--nope"]), "unknown arg: --nope");
    assert_eq!(err(&["--venues", "coinbase,FTX"]), "unknown venue: ftx");
    assert_eq!(err(&["--venues", ","]), "--venues selected no venue");
    assert_eq!(err(&["--symbols", ""]), "--symbols selected no symbol");
    // The first complaint in order wins.
    assert_eq!(err(&["--venues", "x", "--nope"]), "unknown venue: x");
    assert_eq!(err(&["--nope", "--venues", "x"]), "unknown arg: --nope");
}

#[test]
fn instruments_are_selected_by_base_symbol() {
    let reg = Registry::builtin();
    let metas = select(&reg, Venue::Binance, &argv(&["ETH", "BTC", "NONE"]));
    let ids: Vec<u32> = metas.iter().map(|m| m.id).collect();
    assert_eq!(ids, [6, 7]);
    assert_eq!(symbol_ids(&metas), [("BTCUSDT", 6), ("ETHUSDT", 7)]);
    let table = symbol_table(&metas);
    assert_eq!(table.lookup(b"ETHUSDT"), Some(7));
    assert_eq!(table.lookup(b"ETH"), None);
    assert!(select(&reg, Venue::Kraken, &argv(&["BT"])).is_empty());
}

#[test]
fn rest_plans_of_the_venues() {
    let reg = Registry::builtin();
    let metas = select(&reg, Venue::Binance, &argv(&["BTC", "ETH"]));
    let plan = rest_plan(Venue::Binance, &metas);
    assert!(plan.on_connect);
    assert_eq!(plan.refresh_every, Some(Span::from_secs(1800)));
    assert_eq!(plan.min_spacing, Span::from_millis(1500));
    assert_eq!(plan.targets.len(), 2);
    assert_eq!(plan.targets[1].instrument, 7);
    assert_eq!(plan.targets[1].venue_symbol, "ETHUSDT");
    assert_eq!(
        plan.targets[1].url,
        "https://api.binance.com/api/v3/depth?symbol=ETHUSDT&limit=1000"
    );
    assert_eq!(plan.target_of(7), Some(1));
    assert_eq!(plan.target_of(8), None);

    let metas = select(&reg, Venue::Coinbase, &argv(&["BTC"]));
    let plan = rest_plan(Venue::Coinbase, &metas);
    assert!(!plan.on_connect);
    assert_eq!(plan.refresh_every, Some(Span::from_secs(900)));
    assert_eq!(plan.min_spacing, Span::from_millis(500));
    assert_eq!(
        plan.targets[0].url,
        "https://api.exchange.coinbase.com/products/BTC-USD/book?level=2"
    );

    assert!(rest_plan(Venue::Kraken, &metas).is_empty());
    assert!(RestPlan::none().is_empty());
}

fn plan(on_connect: bool) -> RestPlan {
    let target = |instrument: u32| RestTarget {
        instrument,
        venue_symbol: format!("S{instrument}"),
        url: format!("https://x/{instrument}"),
    };
    RestPlan {
        targets: vec![target(11), target(12), target(13)],
        on_connect,
        refresh_every: Some(Span::from_secs(900)),
        min_spacing: Span::from_secs(2),
    }
}

const SEC: u64 = 1_000_000_000;

#[test]
fn rest_schedule() {
    // Staggered over one period, the earliest first.
    let s = RestSched::new(&plan(false), SEC);
    assert_eq!(s.due, [Some(301 * SEC), Some(601 * SEC), Some(901 * SEC)]);
    assert_eq!(s.next(Span::from_secs(2)), Some((0, 301 * SEC)));

    // At once after a connect, spaced apart.
    let p = plan(true);
    let mut s = RestSched::new(&p, SEC);
    assert_eq!(s.next(p.min_spacing), Some((0, SEC)));
    s.begin(SEC);
    assert_eq!(s.next(p.min_spacing), Some((0, 3 * SEC)));
    s.succeed(&p, 0, 2 * SEC);
    assert_eq!(s.due[0], Some(902 * SEC));
    assert_eq!(s.next(p.min_spacing), Some((1, 3 * SEC)));

    // A failure backs off one target.
    s.fail(1, 4 * SEC);
    let at = s.due[1].unwrap();
    assert!((5 * SEC..=6 * SEC).contains(&at));
    assert_eq!(s.attempts, [0, 1, 0]);
    assert_eq!(s.due[2], Some(SEC));

    // Rate limiting pauses them all.
    s.reject(2, 10 * SEC, 429, Some("300"));
    assert_eq!(s.due, [Some(902 * SEC), Some(310 * SEC), Some(310 * SEC)]);
    assert_eq!(s.attempts, [0, 1, 1]);
    s.reject(0, 20 * SEC, 500, Some("300"));
    assert!(s.due[0].unwrap() <= 22 * SEC);

    s.ask(0, 1);
    assert_eq!(s.next(Span::zero()), Some((0, SEC)));
    let mut none = plan(false);
    none.refresh_every = None;
    assert_eq!(RestSched::new(&none, SEC).next(Span::zero()), None);
}

#[test]
fn session_walk() {
    let cfg = VenueConfig { rest: plan(true), ..VenueConfig::default() };
    let mut codec = MockCodec::new();
    let mut stats = VenueStats::default();
    let mut out = Vec::new();
    let mut s = Session::start(&cfg, SEC);
    assert_eq!(s.deadline(&cfg), 61 * SEC);

    let step = s.on_text(&mut codec, &cfg.rest, b"fast", 5, 6, 2 * SEC, &mut stats, &mut out);
    assert_eq!(step, Step::Continue);
    assert_eq!((stats.msgs, stats.bytes, stats.events), (1, 4, 1));
    assert_eq!((s.frames_parsed, s.parse_errors, s.last_frame), (1, 0, 2 * SEC));

    let step = s.on_text(&mut codec, &cfg.rest, b"bad", 5, 6, 3 * SEC, &mut stats, &mut out);
    assert_eq!(step, Step::Continue);
    assert!(out.is_empty());
    assert_eq!((s.frames_parsed, s.parse_errors, stats.parse_errors), (1, 1, 1));

    // A lost instrument with a REST target is fetched at once.
    s.rest.succeed(&cfg.rest, 0, 3 * SEC);
    let step = s.on_text(&mut codec, &cfg.rest, b"gap", 5, 6, 4 * SEC, &mut stats, &mut out);
    assert_eq!(step, Step::Continue);
    assert_eq!(s.rest.due[0], Some(4 * SEC));
    assert_eq!((stats.resyncs, stats.gaps, stats.reconnects), (1, 1, 0));

    // Without one the connection is given up.
    let none = VenueConfig::default();
    let mut t = Session::start(&none, SEC);
    let step = t.on_text(&mut codec, &none.rest, b"gap", 5, 6, SEC, &mut stats, &mut out);
    assert_eq!(step, Step::Reconnect(Reason::Resync));
    assert_eq!((stats.resyncs, stats.reconnects), (2, 1));
    let step = t.on_signal(&none.rest, SEC, Some(Signal::Reconnect), &mut stats);
    assert_eq!(step, Step::Reconnect(Reason::VenueAdvisory));
    assert_eq!(stats.reconnects, 2);

    assert_eq!(t.on_arrival(Arrival::Binary(10), 5, &mut stats), Step::Continue);
    assert_eq!((stats.msgs, stats.bytes, t.last_frame), (5, 4 + 3 + 3 + 3 + 10, 5));
    assert_eq!(t.on_arrival(Arrival::Ping(true), 6, &mut stats), Step::Continue);
    assert_eq!(t.on_arrival(Arrival::Pong, 7, &mut stats), Step::Continue);
    assert_eq!(t.last_frame, 7);
    let ends = [
        (Arrival::Ping(false), Reason::PongFailed),
        (Arrival::Close, Reason::ServerClose),
        (Arrival::Error, Reason::WebsocketError),
        (Arrival::End, Reason::StreamEnd),
    ];
    for (a, reason) in ends {
        assert_eq!(t.on_arrival(a, 8, &mut stats), Step::Reconnect(reason));
    }
    assert_eq!(stats.reconnects, 6);
}

#[test]
fn snapshot_steps() {
    let cfg = VenueConfig { rest: plan(true), ..VenueConfig::default() };
    let mut codec = MockCodec::new();
    let mut stats = VenueStats::default();
    let mut out = vec![Event::zero()];
    let mut s = Session::start(&cfg, SEC);
    let r = s.on_snapshot(&mut codec, &cfg.rest, 1, b"stale", 5, 6, 2 * SEC, &mut stats, &mut out);
    assert!(matches!(r, Ok(Signal::NeedResync { instrument: 12 })));
    assert_eq!((stats.rest_snaps, stats.resyncs, stats.events), (1, 1, 1));
    assert_eq!(s.rest.attempts, [0, 1, 0]);
    let r = s.on_snapshot(&mut codec, &cfg.rest, 1, b"junk", 5, 6, 2 * SEC, &mut stats, &mut out);
    assert!(r.is_err());
    assert_eq!((stats.rest_snaps, stats.parse_errors), (2, 1));
    assert_eq!(s.rest.attempts, [0, 2, 0]);
    let r = s.on_snapshot(&mut codec, &cfg.rest, 1, b"good", 5, 6, 2 * SEC, &mut stats, &mut out);
    assert!(matches!(r, Ok(Signal::Nothing)));
    assert_eq!(out[0].instrument, 12);
    assert_eq!(s.rest.attempts, [0, 0, 0]);
    assert_eq!(s.rest.due[1], Some(902 * SEC));
}

#[test]
fn retries_escalate_until_a_session_is_healthy() {
    let cfg = VenueConfig::default();
    let mut r = Retry::new();
    assert!(r.connect_failed(&cfg) <= Span::from_secs(2));
    assert!(r.connect_failed(&cfg) <= Span::from_secs(2));
    assert!(r.session_over(&cfg, Span::from_secs(1), 100) <= Span::from_secs(4));
    assert_eq!(r.attempt, 3);
    assert!(r.session_over(&cfg, Span::from_secs(30), 1) <= Span::from_secs(2));
    assert_eq!(r.attempt, 0);
}

#[test]
fn notes_of_the_raw_log() {
    assert_eq!(
        connect_note("wss://a/\"b\"\n"),
        "{\"event\":\"connect\",\"url\":\"wss://a/\\\"b\\\"\\n\"}"
    );
    assert_eq!(shutdown_note(), "{\"event\":\"disconnect\",\"reason\":\"shutdown\"}");
    let mut stats = VenueStats::default();
    assert_eq!(
        Session::give_up(Reason::IdleTimeout, &mut stats),
        "{\"event\":\"disconnect\",\"reason\":\"idle timeout\"}"
    );
    assert_eq!(stats.reconnects, 1);
    assert_eq!(
        Reason::VenueAdvisory.note(),
        "{\"event\":\"reconnect\",\"reason\":\"venue-advisory\"}"
    );
    assert_eq!(Reason::Resync.name(), "resync");
    assert_eq!(
        shutdown_line(17, true),
        "{\"event\":\"shutdown\",\"ts_wall_ns\":17,\"clean\":true}\n"
    );
    assert_eq!(
        shutdown_line(0, false),
        "{\"event\":\"shutdown\",\"ts_wall_ns\":0,\"clean\":false}\n"
    );
}

#[test]
fn tick_arithmetic_helpers() {
    // Rotation predicate.
    assert!(!should_rotate(
        10,
        100,
        Span::zero(),
        Span::from_secs(900)
    ));
    assert!(should_rotate(
        100,
        100,
        Span::zero(),
        Span::from_secs(900)
    ));
    assert!(should_rotate(
        0,
        100,
        Span::from_secs(900),
        Span::from_secs(900)
    ));
    assert!(!should_rotate(
        99,
        100,
        Span::from_secs(899),
        Span::from_secs(900)
    ));

    // Idle deadline.
    let now: u64 = 1_000;
    assert_eq!(
        idle_deadline(now, Span::from_secs(60)),
        now + 60_000_000_000
    );

    // Staggering spreads n targets evenly over one period.
    let p = Span::from_secs(900);
    assert_eq!(stagger_offset(0, 3, p), Span::from_secs(300));
    assert_eq!(stagger_offset(1, 3, p), Span::from_secs(600));
    assert_eq!(stagger_offset(2, 3, p), p);
}

fn entry(venue: Venue, msgs: u64, events: u64, segments: u64, seg_bytes: u64) -> EmitterEntry {
    EmitterEntry {
        venue,
        stats: VenueStats {
            msgs,
            events,
            gaps: 1,
            ..VenueStats::default()
        },
        gauges: SinkGauges {
            segments,
            current_bytes: seg_bytes,
        },
    }
}

#[test]
fn stats_lines_have_documented_json_shape() {
    let entries = vec![
        entry(Venue::Coinbase, 10, 100, 2, 4096),
        entry(Venue::Binance, 5, 50, 1, 512),
    ];
    let out = emit_lines(&entries, 1_700_000_000_000_000_000, 42, 64, 3600);
    let lines: Vec<&str> = out.trim_end().split('\n').collect();
    assert_eq!(lines.len(), 3); // coinbase, binance, total

    for line in &lines {
        let v: serde_json::Value = serde_json::from_str(line).unwrap();
        for field in [
            "ts_wall_ns",
            "venue",
            "msgs",
            "bytes",
            "events",
            "gaps",
            "resyncs",
            "reconnects",
            "fallbacks",
            "parse_errors",
            "rest_snaps",
            "rss_mb",
            "rss_max_mb",
            "segments",
            "current_segment_bytes",
            "uptime_s",
        ] {
            assert!(v.get(field).is_some(), "missing field {field} in {line}");
        }
        assert_eq!(v["ts_wall_ns"].as_u64(), Some(1_700_000_000_000_000_000));
        assert_eq!(v["rss_mb"].as_u64(), Some(42));
        assert_eq!(v["rss_max_mb"].as_u64(), Some(64));
        assert_eq!(v["uptime_s"].as_u64(), Some(3600));
    }

    let coinbase: serde_json::Value = serde_json::from_str(lines[0]).unwrap();
    assert_eq!(coinbase["venue"], "coinbase");
    assert_eq!(coinbase["msgs"].as_u64(), Some(10));
    let total: serde_json::Value = serde_json::from_str(lines[2]).unwrap();
    assert_eq!(total["venue"], "total");
    assert_eq!(total["msgs"].as_u64(), Some(15));
    assert_eq!(total["events"].as_u64(), Some(150));
    assert_eq!(total["gaps"].as_u64(), Some(2));
    assert_eq!(total["segments"].as_u64(), Some(3));
    assert_eq!(total["current_segment_bytes"].as_u64(), Some(4608));
}

#[test]
fn backoff_ceiling_is_exponential_and_capped() {
    let floor = Span::from_secs(1);
    let cap = Span::from_secs(60);
    assert_eq!(backoff_ceiling(0, floor, cap), Span::from_secs(1));
    assert_eq!(backoff_ceiling(1, floor, cap), Span::from_secs(2));
    assert_eq!(backoff_ceiling(2, floor, cap), Span::from_secs(4));
    assert_eq!(backoff_ceiling(5, floor, cap), Span::from_secs(32));
    assert_eq!(backoff_ceiling(6, floor, cap), cap); // 64 clamped
    assert_eq!(backoff_ceiling(31, floor, cap), cap);
    assert_eq!(backoff_ceiling(u32::MAX, floor, cap), cap); // no overflow
}

#[test]
fn backoff_jitter_stays_in_bounds_and_spreads() {
    let floor = Span::from_secs(1);
    let cap = Span::from_secs(60);

    // attempt 0 jitters too: uniform in [floor, 2*floor], so retries never
    // hammer a venue at exactly 1/floor in lockstep.
    let samples0: Vec<Span> = (0..1000).map(|_| next_backoff(0, floor, cap)).collect();
    for s in &samples0 {
        assert!(*s >= floor, "attempt 0 below floor: {s:?}");
        assert!(*s <= twice(floor), "attempt 0 above 2*floor: {s:?}");
    }
    let mid = Span { nanos: floor.nanos + 500_000_000 };
    assert!(
        samples0.iter().any(|s| *s > mid),
        "attempt 0 never jittered up"
    );
    assert!(
        samples0.iter().any(|s| *s < mid),
        "attempt 0 never jittered down"
    );

    // Degenerate cap == floor: the cap still wins (no jitter possible).
    for _ in 0..100 {
        assert_eq!(next_backoff(0, floor, floor), floor);
    }

    // attempt 6 (capped): full jitter over [1s, 60s].
    let samples: Vec<Span> = (0..1000).map(|_| next_backoff(6, floor, cap)).collect();
    for s in &samples {
        assert!(*s >= floor, "below floor: {s:?}");
        assert!(*s <= cap, "above cap: {s:?}");
    }
    let max = samples.iter().max().unwrap();
    let min = samples.iter().min().unwrap();
    assert!(
        *max > Span::from_secs(45),
        "jitter never reached upper range: {max:?}"
    );
    assert!(
        *min < Span::from_secs(20),
        "jitter never reached lower range: {min:?}"
    );

    // Growth: per-attempt ceilings dominate earlier ones.
    for attempt in 0..6u32 {
        let c0 = backoff_ceiling(attempt, floor, cap);
        let c1 = backoff_ceiling(attempt + 1, floor, cap);
        assert_eq!(c1, twice(c0).min(cap));
    }
}

#[test]
fn session_health_rule_gates_backoff_reset() {
    // Healthy = lasted >= HEALTHY_SESSION_MIN AND parsed >= 1 frame.
    assert!(session_healthy(Span::from_secs(HEALTHY_SESSION_MIN), 1));
    assert!(session_healthy(Span::from_secs(7200), 1_000_000));
    // Accept-then-drop venue: session too short, never resets backoff.
    assert!(!session_healthy(
        Span { nanos: Span::from_secs(HEALTHY_SESSION_MIN).nanos - 1_000_000 },
        1
    ));
    assert!(!session_healthy(Span::from_millis(50), 10_000));
    // Long-lived but silent/unparseable session is not healthy either.
    assert!(!session_healthy(Span::from_secs(7200), 0));
    assert!(!session_healthy(Span::zero(), 0));
}

#[test]
fn retry_after_parsing_and_clamping() {
    // Delta-seconds form, honored as-is inside the clamp range.
    assert_eq!(retry_after_delay(Some("300")), Span::from_secs(300));
    assert_eq!(retry_after_delay(Some(" 42 ")), Span::from_secs(42));
    assert_eq!(retry_after_delay(Some("1")), Span::from_secs(1));
    assert_eq!(retry_after_delay(Some("3600")), Span::from_secs(3600));
    // Clamped to [1 s, 3600 s].
    assert_eq!(retry_after_delay(Some("0")), Span::from_secs(1));
    assert_eq!(retry_after_delay(Some("999999")), Span::from_secs(3600));
    // Absent or unparseable (HTTP-date form, garbage) -> 120 s default.
    assert_eq!(retry_after_delay(None), Span::from_secs(120));
    assert_eq!(
        retry_after_delay(Some("Wed, 21 Oct 2026 07:28:00 GMT")),
        Span::from_secs(120)
    );
    assert_eq!(retry_after_delay(Some("")), Span::from_secs(120));
    assert_eq!(retry_after_delay(Some("-5")), Span::from_secs(120));
    assert_eq!(retry_after_delay(Some("12.5")), Span::from_secs(120));
}

#[test]
fn parse_error_warn_rate_limit_schedule() {
    // Full detail for the first 5 errors of a session...
    for n in 1..=5u64 {
        assert!(should_log_parse_error(n), "error #{n} must log");
    }
    // ...then only every 1000th.
    assert!(!should_log_parse_error(6));
    assert!(!should_log_parse_error(999));
    assert!(should_log_parse_error(1000));
    assert!(!should_log_parse_error(1001));
    assert!(should_log_parse_error(2000));
    assert!(!should_log_parse_error(2001));
}

#[test]
fn rest_envelope_roundtrip_preserves_body_verbatim() {
    let cases: &[&[u8]] = &[
        br#"{"bids":[["1.5","2"]],"asks":[]}"#,
        b"",
        b"   {\"spaced\": true}  ",
        "{\"unicode\":\"\u{20ac}\u{1f680} caf\u{e9}\"}".as_bytes(),
        br#"{"nested":{"body":",\"body\":"}}"#, // body containing the marker
        &[0xff, 0xfe, 0x00, 0x01],              // non-UTF8 garbage body
    ];
    for (i, body) in cases.iter().enumerate() {
        let env = rest_envelope(6, "BTCUSDT", "https://api.binance.com/api/v3/depth", body);
        let (instr, got) = parse_rest_envelope(&env).unwrap();
        assert_eq!(instr, 6, "case {i}");
        assert_eq!(got, *body, "case {i}: body not byte-identical");
    }

    // Hostile symbol/url strings must be escaped, not break the frame.
    let env = rest_envelope(3, "we\"ird\\sym", "https://x/?a=\",\"body\":", b"{\"k\":1}");
    let (instr, got) = parse_rest_envelope(&env).unwrap();
    assert_eq!(instr, 3);
    assert_eq!(got, b"{\"k\":1}");
}

#[test]
fn rest_envelope_rejects_malformed() {
    assert_eq!(parse_rest_envelope(b""), Err(EnvelopeError::BadPrefix));
    assert_eq!(
        parse_rest_envelope(b"garbage"),
        Err(EnvelopeError::BadPrefix)
    );
    assert_eq!(
        parse_rest_envelope(b"{\"instrument\":abc,\"body\":{}}"),
        Err(EnvelopeError::BadInstrument)
    );
    assert_eq!(
        parse_rest_envelope(b"{\"instrument\":5,\"venue_symbol\":\"X\"}"),
        Err(EnvelopeError::BadBody)
    );
    // Truncated mid-body (no closing brace at all).
    assert_eq!(
        parse_rest_envelope(b"{\"instrument\":5,\"body\":{\"x\":1"),
        Err(EnvelopeError::BadBody)
    );
    // Instrument id larger than u32.
    assert_eq!(
        parse_rest_envelope(b"{\"instrument\":99999999999,\"body\":{}}"),
        Err(EnvelopeError::BadInstrument)
    );
}

#[test]
fn fast_path_success_and_resync_signal() {
    let mut codec = MockCodec::new();
    let mut stats = VenueStats::default();
    let mut errs = 0u64;
    let mut out = Vec::new();

    let sig = process_payload(
        &mut codec,
        b"fast frame",
        10,
        20,
        &mut stats,
        &mut errs,
        &mut out,
    );
    assert_eq!(sig, Some(Signal::Nothing));
    assert_eq!(out.len(), 1);
    assert_eq!(out[0].recv_mono_ns, 10);
    assert_eq!(out[0].recv_wall_ns, 20);
    assert_eq!(codec.slow_calls, 0, "fast success must not touch slow path");
    assert_eq!(stats.fallbacks, 0);
    assert_eq!(stats.parse_errors, 0);
    assert_eq!(errs, 0, "success must not bump the session error counter");

    out.clear();
    let sig = process_payload(
        &mut codec,
        b"gap frame",
        11,
        21,
        &mut stats,
        &mut errs,
        &mut out,
    );
    assert_eq!(sig, Some(Signal::NeedResync { instrument: 11 }));
    account_events(&mut stats, &out);
    assert_eq!(stats.events, 1);
    assert_eq!(stats.gaps, 1);
}

#[test]
fn structure_error_falls_back_to_slow() {
    let mut codec = MockCodec::new();
    let mut stats = VenueStats::default();
    let mut errs = 0u64;
    let mut out = vec![MockCodec::event(EventKind::Heartbeat, 1, 1)]; // pre-existing

    let sig = process_payload(
        &mut codec,
        b"slow frame",
        30,
        40,
        &mut stats,
        &mut errs,
        &mut out,
    );
    assert_eq!(sig, Some(Signal::Nothing));
    assert_eq!(codec.fast_calls, 1);
    assert_eq!(codec.slow_calls, 1);
    assert_eq!(stats.fallbacks, 1);
    assert_eq!(stats.parse_errors, 0);
    assert_eq!(errs, 0, "fallback success is not a parse error");
    // Pre-existing event untouched, two new ones appended by the slow path.
    assert_eq!(out.len(), 3);
    assert_eq!(out[0].kind, EventKind::Heartbeat.code());
    assert_eq!(out[1].kind, EventKind::BidSet.code());
    assert_eq!(out[2].kind, EventKind::AskSet.code());
}

#[test]
fn both_paths_failing_counts_error_and_restores_buffer() {
    let mut codec = MockCodec::new();
    let mut stats = VenueStats::default();
    let mut errs = 0u64;
    let mut out = vec![MockCodec::event(EventKind::Heartbeat, 1, 1)];

    // MockCodec's slow path appends a partial event before erroring; the
    // policy must roll the buffer back to exactly its prior contents.
    let sig = process_payload(
        &mut codec,
        b"bad frame",
        50,
        60,
        &mut stats,
        &mut errs,
        &mut out,
    );
    assert_eq!(sig, None);
    assert_eq!(codec.fast_calls, 1);
    assert_eq!(codec.slow_calls, 1);
    assert_eq!(stats.fallbacks, 0);
    assert_eq!(stats.parse_errors, 1);
    assert_eq!(errs, 1, "session error counter tracks parse errors");
    assert_eq!(
        out.len(),
        1,
        "no partial garbage events for a failed message"
    );
    assert_eq!(out[0].kind, EventKind::Heartbeat.code());

    // The counter keeps climbing across failures (rate-limit input).
    for _ in 0..4 {
        let _ = process_payload(
            &mut codec,
            b"bad frame",
            51,
            61,
            &mut stats,
            &mut errs,
            &mut out,
        );
    }
    assert_eq!(errs, 5);
    assert_eq!(stats.parse_errors, 5);
}

#[test]
fn non_structure_error_skips_slow_path() {
    let mut codec = MockCodec::new();
    let mut stats = VenueStats::default();
    let mut errs = 0u64;
    let mut out = Vec::new();

    let sig = process_payload(
        &mut codec,
        b"unknown symbol",
        70,
        80,
        &mut stats,
        &mut errs,
        &mut out,
    );
    assert_eq!(sig, None);
    assert_eq!(codec.fast_calls, 1);
    assert_eq!(
        codec.slow_calls, 0,
        "UnknownInstrument must not retry via slow"
    );
    assert_eq!(stats.fallbacks, 0);
    assert_eq!(stats.parse_errors, 1);
    assert_eq!(errs, 1);
    assert!(out.is_empty());
}

#[test]
fn backoff_ceiling_doubles_without_end() {
    let floor = Span::from_nanos(1);
    let cap = Span::from_secs(3600);
    assert_eq!(backoff_ceiling(40, floor, cap), Span { nanos: 1_099_511_627_776 });
    assert_eq!(backoff_ceiling(42, floor, cap), cap);
    let widest = Span { nanos: u128::MAX };
    assert_eq!(backoff_ceiling(127, floor, widest), Span { nanos: 1 << 127 });
    assert_eq!(backoff_ceiling(128, floor, widest), widest);
    assert_eq!(backoff_ceiling(u32::MAX, Span::from_secs(0), cap), Span::from_secs(0));
    // a wait may reach over the whole range
    assert_eq!(backoff_with(200, floor, widest, u128::MAX), widest);
}

#[test]
fn staggering_goes_to_the_nearest_nanosecond() {
    let p = Span::from_secs(1);
    assert_eq!(stagger_offset(0, 3, p), Span { nanos: 333_333_333 });
    assert_eq!(stagger_offset(1, 3, p), Span { nanos: 666_666_667 });
    assert_eq!(stagger_offset(2, 3, p), p);
    // half a nanosecond goes to the even one
    assert_eq!(stagger_offset(0, 1024, p), Span { nanos: 976_562 });
    assert_eq!(stagger_offset(2, 1024, p), Span { nanos: 2_929_688 });
    // past the last target it goes on evenly
    assert_eq!(stagger_offset(5, 3, p), Span::from_secs(2));
}

#[test]
fn raw_capture_comes_before_the_parse() {
    let cfg = VenueConfig::default();
    let mut codec = MockCodec::new();
    let mut stats = VenueStats::default();
    let mut out = Vec::new();
    let mut s = Session::start(&cfg, 0);
    let mut log =
        RotatingRawLog::create(Venue::Kraken, Vec::new(), 1 << 30, Span::from_secs(900), 7, 8, 0)
            .unwrap();
    let empty = log.current_bytes();
    // a frame that no path parses stands in the log all the same
    let step = s.capture_text(
        &mut log, &mut codec, &cfg.rest, b"bad", 5, 6, 1, &mut stats, &mut out,
    );
    assert_eq!(step, Ok(Step::Continue));
    assert_eq!((stats.msgs, stats.parse_errors), (1, 1));
    assert!(log.current_bytes() > empty);
    let bytes = log.take_pending();
    let mut r = rawlog::RawLogReader::from_reader(&bytes).unwrap();
    let rec = r.read_next().unwrap().unwrap();
    assert_eq!((rec.rkind, rec.recv_mono_ns, rec.recv_wall_ns), (rkind::WS_TEXT, 5, 6));
    assert_eq!(rec.payload, b"bad".to_vec());
    // a frame that the log does not take is not parsed
    let calls = (codec.fast_calls, codec.slow_calls);
    let huge = vec![0u8; rawlog::MAX_PAYLOAD + 1];
    let held = log.current_bytes();
    let refused = s.capture_text(
        &mut log, &mut codec, &cfg.rest, &huge, 5, 6, 2, &mut stats, &mut out,
    );
    assert_eq!(refused, Err(rawlog::RawLogError::TooLarge));
    assert_eq!((codec.fast_calls, codec.slow_calls), calls);
    assert_eq!((stats.msgs, log.current_bytes()), (1, held));
}

#[test]
fn rest_bodies_are_captured_in_their_envelope() {
    let cfg = VenueConfig { rest: plan(true), ..VenueConfig::default() };
    let mut codec = MockCodec::new();
    let mut stats = VenueStats::default();
    let mut out = Vec::new();
    let mut s = Session::start(&cfg, 0);
    let mut log =
        RotatingRawLog::create(Venue::Binance, Vec::new(), 1 << 30, Span::from_secs(900), 7, 8, 0)
            .unwrap();
    // a body that does not parse stands in the log all the same
    let r = s.capture_snapshot(
        &mut log, &mut codec, &cfg.rest, 1, b"junk", 5, 6, SEC, &mut stats, &mut out,
    );
    assert!(matches!(r, Ok(Err(_))));
    assert_eq!((stats.rest_snaps, stats.parse_errors), (1, 1));
    let bytes = log.take_pending();
    let mut rd = rawlog::RawLogReader::from_reader(&bytes).unwrap();
    let rec = rd.read_next().unwrap().unwrap();
    assert_eq!((rec.rkind, rec.recv_mono_ns, rec.recv_wall_ns), (rkind::REST_SNAPSHOT, 5, 6));
    assert_eq!(rec.payload, rest_envelope(12, "S12", "https://x/12", b"junk"));
    // one that is too large for a record is not parsed
    let huge = vec![0x20u8; rawlog::MAX_PAYLOAD];
    let r = s.capture_snapshot(
        &mut log, &mut codec, &cfg.rest, 1, &huge, 5, 6, SEC, &mut stats, &mut out,
    );
    assert!(matches!(r, Err(rawlog::RawLogError::TooLarge)));
    assert_eq!(stats.rest_snaps, 1);
}

#[test]
fn json_literals_escape_what_they_have_to() {
    let meta = meta_json(&[("a\"b\\c/\n\t\r\u{8}\u{c}\u{1}\u{1f}\u{7f}\u{e9}", 1)]);
    assert_eq!(
        String::from_utf8(meta).unwrap(),
        "{\"symbols\":[{\"id\":1,\"sym\":\"a\\\"b\\\\c/\\n\\t\\r\\b\\f\\u0001\\u001f\u{7f}\u{e9}\"}]}"
    );
}
