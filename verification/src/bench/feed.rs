//! The normalization benchmark: its command line, which captured records it
//! keeps, and one pass of a codec over them on either parse path.
use crate::args;
use crate::args::{has_switch, owned_or, stop_at, tokenize, value_of, Program, Stop, Token};
use crate::bench::options;
use crate::bench::options::{read_options, shared_stop, Options};
use crate::codec::{CodecError, Signal, VenueCodec};
use crate::conn;
use crate::conn::envelope;
use crate::conn::parse_rest_envelope;
use crate::event::{Event, Venue};
use crate::rawlog::rkind;
use crate::text;
use vstd::prelude::*;
use vstd::string::*;

verus! {

/// WS frames loaded per venue in `--quick` mode.
pub const QUICK_FRAME_CAP: usize = 100_000;

/// WS frames loaded per venue in full mode.
pub const FULL_FRAME_CAP: usize = 1_000_000;

/// Warmup runs before measurement (both modes).
pub const WARMUP_RUNS: usize = 1;

/// WS-frame cap per venue for the throughput bench.
pub fn frame_cap(quick: bool) -> (r: usize)
    ensures
        r == if quick {
            QUICK_FRAME_CAP
        } else {
            FULL_FRAME_CAP
        },
{
    if quick {
        QUICK_FRAME_CAP
    } else {
        FULL_FRAME_CAP
    }
}

/// Measured runs per (venue, path) for the throughput bench.
pub fn measured_runs(quick: bool) -> (r: usize)
    ensures
        r == if quick {
            2int
        } else {
            5
        },
{
    if quick {
        2
    } else {
        5
    }
}

/// How the program is used.
pub open spec fn usage_spec() -> Seq<char> {
    "usage: bench-feed [--data <raw dir>] [--quick] [--alloc-check] [--results-dir DIR] [--overwrite]"@
}

/// How the program is used.
pub fn usage() -> (r: &'static str)
    ensures
        r@ == usage_spec(),
{
    "usage: bench-feed [--data <raw dir>] [--quick] [--alloc-check] [--results-dir DIR] [--overwrite]"
}

/// Parsed command line.
#[derive(Debug, Clone, PartialEq, Eq)]
pub struct Args {
    /// Raw capture root (`<root>/<venue>/<segment>` layout). Defaults to the
    /// soak capture.
    pub data: String,
    /// Run the allocation measurement instead of the throughput bench.
    pub alloc_check: bool,
    /// What every benchmark is told.
    pub options: Options,
}

/// A parsed command line, as values.
#[verifier::ext_equal]
pub struct Choice {
    pub data: Seq<char>,
    pub alloc_check: bool,
    pub options: options::Told,
}

impl View for Args {
    type V = Choice;

    open spec fn view(&self) -> Choice {
        Choice { data: self.data@, alloc_check: self.alloc_check, options: self.options@ }
    }
}

/// Parse outcome: run with these args, or just print usage (exit 0).
#[derive(Debug, Clone, PartialEq, Eq)]
pub enum Cli {
    /// Run the benchmark.
    Run(Args),
    /// `--help`/`-h`: print usage, exit success.
    Help,
}

/// The place of `--data` among the flags.
pub const DATA: usize = 5;

/// The place of `--alloc-check`.
pub const ALLOC_CHECK: usize = 6;

/// The flags of the program.
pub open spec fn flags() -> Seq<(Seq<char>, bool)> {
    options::shared_flags() + seq![("--data"@, true), ("--alloc-check"@, false)]
}

/// The normalization benchmark.
#[derive(Debug, Clone, Copy)]
pub struct FeedBench;

impl Program for FeedBench {
    open spec fn halts(&self, t: args::Tok) -> Option<args::Halt> {
        match t {
            args::Tok::Missing(f) if f == DATA => Some(
                args::Halt::Error("--data needs a directory"@),
            ),
            _ => options::shared_halt(t, usage_spec(), "--results-dir needs a directory"@, true),
        }
    }

    fn check(&self, t: &Token<'_>) -> (r: Option<Stop>) {
        if let Token::Missing(f) = *t {
            if f == DATA {
                return Some(Stop::Error("--data needs a directory".to_owned()));
            }
        }
        shared_stop(t, usage(), "--results-dir needs a directory", true)
    }
}

/// What a command line asks for (`None` is a call for help), or the message
/// that refuses it.
pub open spec fn config_of(argv: Seq<Seq<char>>) -> Result<Option<Choice>, Seq<char>> {
    let t = args::tokens(argv, flags(), 0);
    match args::first_halt(FeedBench, t, 0) {
        Some(args::Halt::Error(e)) => Err(e),
        Some(args::Halt::Help) => Ok(None),
        None => Ok(
            Some(
                Choice {
                    data: args::text_or(args::last_value(t, DATA as int), "data/raw"@),
                    alloc_check: args::switched(t, ALLOC_CHECK as int),
                    options: options::told(t),
                },
            ),
        ),
    }
}

/// Parse CLI arguments (everything after the program's name).
pub fn parse_args(argv: &[String]) -> (r: Result<Cli, String>)
    ensures
        match r {
            Ok(Cli::Run(a)) => config_of(args::words(argv@)) == Ok::<Option<Choice>, Seq<char>>(
                Some(a@),
            ),
            Ok(Cli::Help) => config_of(args::words(argv@)) == Ok::<Option<Choice>, Seq<char>>(None),
            Err(e) => config_of(args::words(argv@)) == Err::<Option<Choice>, Seq<char>>(e@),
        },
{
    let names: [(&str, bool); 7] = [
        ("--quick", false),
        ("--results-dir", true),
        ("--overwrite", false),
        ("--help", false),
        ("-h", false),
        ("--data", true),
        ("--alloc-check", false),
    ];
    assert(args::table(names@) =~= flags());
    let toks: Vec<Token<'_>> = tokenize(argv, names.as_slice());
    let t: &[Token<'_>] = toks.as_slice();
    match stop_at(&FeedBench, t) {
        Some(Stop::Error(e)) => Err(e),
        Some(Stop::Help) => Ok(Cli::Help),
        None => Ok(
            Cli::Run(
                Args {
                    data: owned_or(value_of(t, DATA), "data/raw"),
                    alloc_check: has_switch(t, ALLOC_CHECK),
                    options: read_options(t),
                },
            ),
        ),
    }
}

/// One raw record kept for replay through the codecs.
#[derive(Debug, Clone)]
pub struct Rec {
    /// Record kind: WS_TEXT / WS_BINARY / REST_SNAPSHOT.
    pub rkind: u8,
    /// Monotonic receive timestamp from capture.
    pub mono: u64,
    /// Wall receive timestamp from capture.
    pub wall: u64,
    /// Verbatim payload bytes.
    pub payload: Vec<u8>,
}

/// What becomes of a captured record.
#[derive(Debug, Clone, Copy, PartialEq, Eq, Structural)]
pub enum Fate {
    /// It is kept.
    Keep,
    /// It is passed over.
    Skip,
    /// Every venue has all the frames it may have: stop reading.
    Stop,
}

/// How many WS frames each venue has, of at most `cap`.
#[derive(Debug, Clone, Copy, PartialEq, Eq, Structural)]
pub struct Loader {
    /// Frames of Coinbase.
    pub coinbase: usize,
    /// Frames of Binance.
    pub binance: usize,
    /// Frames of Kraken.
    pub kraken: usize,
    /// Frames that a venue may have.
    pub cap: usize,
}

/// The record is a WS frame.
pub open spec fn is_frame(rk: u8) -> bool {
    rk == rkind::WS_TEXT || rk == rkind::WS_BINARY
}

impl Loader {
    /// Nothing is loaded yet.
    pub fn new(cap: usize) -> (r: Self)
        ensures
            r == (Loader { coinbase: 0, binance: 0, kraken: 0, cap }),
    {
        Loader { coinbase: 0, binance: 0, kraken: 0, cap }
    }

    /// The frames of a venue.
    pub open spec fn frames(self, venue: Venue) -> usize {
        match venue {
            Venue::Coinbase => self.coinbase,
            Venue::Binance => self.binance,
            Venue::Kraken => self.kraken,
        }
    }

    /// What becomes of a record: frames are kept up to the cap of their
    /// venue, REST snapshots stay in-position (the Binance codec needs the
    /// anchor to reach its synced emission path), other records are dropped.
    pub open spec fn verdict(self, venue: Venue, rk: u8) -> Fate {
        if self.frames(venue) >= self.cap {
            if self.coinbase >= self.cap && self.binance >= self.cap && self.kraken >= self.cap {
                Fate::Stop
            } else {
                Fate::Skip
            }
        } else if is_frame(rk) || rk == rkind::REST_SNAPSHOT {
            Fate::Keep
        } else {
            Fate::Skip
        }
    }

    /// Decide on a record, and count it if it is a frame that is kept.
    pub fn sift(&mut self, venue: Venue, rk: u8) -> (r: Fate)
        ensures
            r == old(self).verdict(venue, rk),
            final(self).cap == old(self).cap,
            forall|v: Venue| #[trigger]
                final(self).frames(v) == old(self).frames(v) + if v == venue && r == Fate::Keep
                    && is_frame(rk) {
                    1int
                } else {
                    0
                },
    {
        let n: usize = match venue {
            Venue::Coinbase => self.coinbase,
            Venue::Binance => self.binance,
            Venue::Kraken => self.kraken,
        };
        if n >= self.cap {
            return if self.coinbase >= self.cap && self.binance >= self.cap && self.kraken
                >= self.cap {
                Fate::Stop
            } else {
                Fate::Skip
            };
        }
        if rk == rkind::WS_TEXT || rk == rkind::WS_BINARY {
            match venue {
                Venue::Coinbase => {
                    self.coinbase = n + 1;
                },
                Venue::Binance => {
                    self.binance = n + 1;
                },
                Venue::Kraken => {
                    self.kraken = n + 1;
                },
            }
            Fate::Keep
        } else if rk == rkind::REST_SNAPSHOT {
            Fate::Keep
        } else {
            Fate::Skip
        }
    }
}

/// Which parse path a pass exercises.
#[derive(Debug, Clone, Copy, PartialEq, Eq, Structural)]
pub enum PathKind {
    /// Production fast path: `parse`, with the real `parse_slow` fallback
    /// on `Structure` errors (counted).
    Fast,
    /// Reference path: `parse_slow` for every frame.
    Slow,
}

impl PathKind {
    /// Stable key for reports.
    pub open spec fn name_spec(self) -> Seq<char> {
        match self {
            PathKind::Fast => "fast"@,
            PathKind::Slow => "slow"@,
        }
    }

    /// Stable key for reports.
    pub fn name(self) -> (r: &'static str)
        ensures
            r@ == self.name_spec(),
    {
        match self {
            PathKind::Fast => "fast",
            PathKind::Slow => "slow",
        }
    }
}

/// Counters from one pass over one venue's records. They wrap.
#[derive(Debug, Clone, Copy, PartialEq, Eq, Structural)]
pub struct PassResult {
    /// WS frames fed to the codec (the msgs/s denominator).
    pub ws_frames: u64,
    /// REST snapshot records applied (in run time, not in msgs/s).
    pub rest_snapshots: u64,
    /// Sum of WS payload bytes (the bytes/s numerator).
    pub ws_payload_bytes: u64,
    /// Events emitted (the fast==slow differential check).
    pub events: u64,
    /// Fast-path frames that fell back to `parse_slow` (Fast only).
    pub fallbacks: u64,
    /// Frames/snapshots no path could parse.
    pub parse_errors: u64,
}

impl PassResult {
    /// Nothing counted.
    pub open spec fn zero() -> PassResult {
        PassResult {
            ws_frames: 0,
            rest_snapshots: 0,
            ws_payload_bytes: 0,
            events: 0,
            fallbacks: 0,
            parse_errors: 0,
        }
    }

    /// A frame of `len` bytes: `n` events, after a fallback or not.
    pub open spec fn frame(self, len: int, n: int, fell_back: bool, failed: bool) -> PassResult {
        PassResult {
            ws_frames: conn::wrap(self.ws_frames, 1),
            ws_payload_bytes: conn::wrap(self.ws_payload_bytes, len),
            events: conn::wrap(self.events, n),
            fallbacks: if fell_back {
                conn::wrap(self.fallbacks, 1)
            } else {
                self.fallbacks
            },
            parse_errors: if failed {
                conn::wrap(self.parse_errors, 1)
            } else {
                self.parse_errors
            },
            ..self
        }
    }

    /// A REST snapshot of `n` events.
    pub open spec fn snapshot(self, n: int, failed: bool) -> PassResult {
        PassResult {
            rest_snapshots: conn::wrap(self.rest_snapshots, 1),
            events: conn::wrap(self.events, n),
            parse_errors: if failed {
                conn::wrap(self.parse_errors, 1)
            } else {
                self.parse_errors
            },
            ..self
        }
    }
}

impl Default for PassResult {
    fn default() -> (r: Self)
        ensures
            r == PassResult::zero(),
    {
        PassResult {
            ws_frames: 0,
            rest_snapshots: 0,
            ws_payload_bytes: 0,
            events: 0,
            fallbacks: 0,
            parse_errors: 0,
        }
    }
}

/// The events that a parse leaves: none where it fails.
pub open spec fn kept(out: Seq<Event>, r: Result<Signal, CodecError>) -> Seq<Event> {
    match r {
        Ok(_) => out,
        Err(_) => Seq::empty(),
    }
}

/// The reference path takes a frame: the codec `c0` becomes `c1`, and `p0`
/// becomes `p1`.
pub open spec fn slow_frame<C: VenueCodec>(
    c0: C,
    rec: Rec,
    fell_back: bool,
    p0: PassResult,
    c1: C,
    p1: PassResult,
    out: Seq<Event>,
) -> bool {
    exists|o: Seq<Event>, r: Result<Signal, CodecError>| #[trigger]
        c0.may_parse_slow(rec.payload@, rec.mono, rec.wall, Seq::empty(), c1, o, r) && out == kept(
            o,
            r,
        ) && p1 == p0.frame(rec.payload@.len() as int, out.len() as int, fell_back, r is Err)
}

/// One record of a pass: the codec `c0` becomes `c1`, the counters `p0`
/// become `p1`, and `out` are the events.
pub open spec fn record_step<C: VenueCodec>(
    c0: C,
    rec: Rec,
    path: PathKind,
    p0: PassResult,
    c1: C,
    p1: PassResult,
    out: Seq<Event>,
) -> bool {
    if is_frame(rec.rkind) {
        match path {
            PathKind::Slow => slow_frame(c0, rec, false, p0, c1, p1, out),
            PathKind::Fast => exists|m: C, o: Seq<Event>, r: Result<Signal, CodecError>| #[trigger]
                c0.may_parse(rec.payload@, rec.mono, rec.wall, Seq::empty(), m, o, r) && match r {
                    Err(CodecError::Structure(_)) => slow_frame(m, rec, true, p0, c1, p1, out),
                    _ => c1 == m && out == kept(o, r) && p1 == p0.frame(
                        rec.payload@.len() as int,
                        out.len() as int,
                        false,
                        r is Err,
                    ),
                },
        }
    } else if rec.rkind == rkind::REST_SNAPSHOT {
        match envelope::envelope_parts(rec.payload@) {
            Err(_) => c1 == c0 && out == Seq::<Event>::empty() && p1 == p0.snapshot(0, true),
            Ok(e) => exists|o: Seq<Event>, r: Result<Signal, CodecError>| #[trigger]
                c0.may_parse_rest(e.0, e.1, rec.mono, rec.wall, Seq::empty(), c1, o, r) && out
                    == kept(o, r) && p1 == p0.snapshot(out.len() as int, r is Err),
        }
    } else {
        c1 == c0 && p1 == p0 && out == Seq::<Event>::empty()
    }
}

/// A pass over the first `n` records takes the codec `c0` to `c1` and counts
/// `p`.
pub open spec fn passed<C: VenueCodec>(
    c0: C,
    recs: Seq<Rec>,
    path: PathKind,
    n: int,
    c1: C,
    p: PassResult,
) -> bool
    decreases n,
{
    if n <= 0 {
        c1 == c0 && p == PassResult::zero()
    } else {
        exists|m: C, q: PassResult, out: Seq<Event>|
            #![trigger record_step(m, recs[n - 1], path, q, c1, p, out)]
            passed(c0, recs, path, n - 1, m, q) && record_step(
                m,
                recs[n - 1],
                path,
                q,
                c1,
                p,
                out,
            )
    }
}

/// Run one frame through `codec` on `path`.
fn run_frame<C: VenueCodec>(
    codec: &mut C,
    rec: &Rec,
    path: PathKind,
    pr: &mut PassResult,
    out: &mut Vec<Event>,
)
    requires
        old(codec).wf(),
        is_frame(rec.rkind),
        old(out)@.len() == 0,
    ensures
        final(codec).wf(),
        record_step(*old(codec), *rec, path, *old(pr), *final(codec), *final(pr), final(out)@),
{
    let ghost c0 = *codec;
    let ghost p0 = *pr;
    let payload: &[u8] = rec.payload.as_slice();
    assert(out@ =~= Seq::<Event>::empty());
    let mut slow: bool = true;
    let mut fell_back: bool = false;
    let mut failed: bool = false;
    let ghost mut mid = c0;
    if let PathKind::Fast = path {
        let r: Result<Signal, CodecError> = codec.parse(payload, rec.mono, rec.wall, out);
        proof {
            mid = *codec;
        }
        assert(c0.may_parse(payload@, rec.mono, rec.wall, Seq::empty(), mid, out@, r));
        match r {
            Err(CodecError::Structure(_)) => {
                out.clear();
                fell_back = true;
            },
            Err(_) => {
                out.clear();
                slow = false;
                failed = true;
            },
            Ok(_) => {
                slow = false;
            },
        }
    }
    if slow {
        assert(out@ =~= Seq::<Event>::empty());
        let r: Result<Signal, CodecError> = codec.parse_slow(payload, rec.mono, rec.wall, out);
        assert(mid.may_parse_slow(payload@, rec.mono, rec.wall, Seq::empty(), *codec, out@, r));
        if r.is_err() {
            out.clear();
            failed = true;
        }
    }
    pr.ws_frames = pr.ws_frames.wrapping_add(1);
    pr.ws_payload_bytes = pr.ws_payload_bytes.wrapping_add(payload.len() as u64);
    pr.events = pr.events.wrapping_add(out.len() as u64);
    if fell_back {
        pr.fallbacks = pr.fallbacks.wrapping_add(1);
    }
    if failed {
        pr.parse_errors = pr.parse_errors.wrapping_add(1);
    }
    assert(*pr == p0.frame(payload@.len() as int, out@.len() as int, fell_back, failed));
}

/// Apply one REST snapshot record.
fn run_snapshot<C: VenueCodec>(
    codec: &mut C,
    rec: &Rec,
    path: PathKind,
    pr: &mut PassResult,
    out: &mut Vec<Event>,
)
    requires
        old(codec).wf(),
        rec.rkind == rkind::REST_SNAPSHOT,
        old(out)@.len() == 0,
    ensures
        final(codec).wf(),
        record_step(*old(codec), *rec, path, *old(pr), *final(codec), *final(pr), final(out)@),
{
    let ghost c0 = *codec;
    let ghost p0 = *pr;
    assert(out@ =~= Seq::<Event>::empty());
    let mut failed: bool = false;
    let ghost mut o: Seq<Event> = Seq::empty();
    let ghost mut res: Result<Signal, CodecError> = Ok(Signal::Nothing);
    match parse_rest_envelope(rec.payload.as_slice()) {
        Ok((instrument, body)) => {
            let r: Result<Signal, CodecError> = codec.parse_rest_snapshot(
                instrument,
                body,
                rec.mono,
                rec.wall,
                out,
            );
            assert(c0.may_parse_rest(
                instrument,
                body@,
                rec.mono,
                rec.wall,
                Seq::empty(),
                *codec,
                out@,
                r,
            ));
            proof {
                o = out@;
                res = r;
            }
            if r.is_err() {
                out.clear();
                failed = true;
            }
            assert(out@ =~= kept(o, res));
        },
        Err(_) => {
            failed = true;
        },
    }
    pr.rest_snapshots = pr.rest_snapshots.wrapping_add(1);
    pr.events = pr.events.wrapping_add(out.len() as u64);
    if failed {
        pr.parse_errors = pr.parse_errors.wrapping_add(1);
    }
    assert(*pr == p0.snapshot(out@.len() as int, failed));
    proof {
        if let Ok(e) = envelope::envelope_parts(rec.payload@) {
            assert(c0.may_parse_rest(e.0, e.1, rec.mono, rec.wall, Seq::empty(), *codec, o, res));
        }
    }
}

/// Run `records` through `codec` on `path`, reusing `out` between frames.
pub fn run_pass<C: VenueCodec>(
    codec: &mut C,
    records: &[Rec],
    path: PathKind,
    out: &mut Vec<Event>,
) -> (r: PassResult)
    requires
        old(codec).wf(),
    ensures
        final(codec).wf(),
        passed(*old(codec), records@, path, records@.len() as int, *final(codec), r),
{
    let mut pr: PassResult = PassResult::default();
    let ghost c0 = *codec;
    let mut i: usize = 0;
    while i < records.len()
        invariant
            i <= records@.len(),
            codec.wf(),
            passed(c0, records@, path, i as int, *codec, pr),
        decreases records@.len() - i,
    {
        out.clear();
        let ghost m = *codec;
        let ghost q = pr;
        let rec: &Rec = &records[i];
        if rec.rkind == rkind::WS_TEXT || rec.rkind == rkind::WS_BINARY {
            run_frame(codec, rec, path, &mut pr, out);
        } else if rec.rkind == rkind::REST_SNAPSHOT {
            run_snapshot(codec, rec, path, &mut pr, out);
        } else {
            assert(out@ =~= Seq::<Event>::empty());
        }
        assert(record_step(m, records@[(i + 1) - 1], path, q, *codec, pr, out@));
        i += 1;
    }
    pr
}

/// What is said of a run that emits another number of events than the last.
pub open spec fn diverged_text(
    venue: Venue,
    path: PathKind,
    prev: u64,
    now: u64,
) -> Seq<char> {
    venue.name_spec() + " "@ + path.name_spec() + " path: run event counts diverged ("@
        + text::chars_of(text::dec_bytes(prev as nat)) + " vs "@ + text::chars_of(
        text::dec_bytes(now as nat),
    ) + ") — nondeterministic parse"@
}

/// Every run emits the identical event count (fresh codec + fixed records
/// means each run is fully deterministic).
pub fn check_run(venue: Venue, path: PathKind, prev: u64, now: u64) -> (r: Result<(), String>)
    ensures
        match r {
            Ok(_) => prev == now,
            Err(e) => prev != now && e@ == diverged_text(venue, path, prev, now),
        },
{
    if prev == now {
        return Ok(());
    }
    let mut out: String = venue.name().to_owned();
    out.append(" ");
    out.append(path.name());
    out.append(" path: run event counts diverged (");
    text::push_dec(&mut out, prev as u128);
    out.append(" vs ");
    text::push_dec(&mut out, now as u128);
    out.append(") — nondeterministic parse");
    Err(out)
}

/// What is said of a venue whose paths emit different numbers of events.
pub open spec fn differential_text(venue: Venue, fast: u64, slow: u64) -> Seq<char> {
    venue.name_spec() + ": fast/slow event counts differ ("@ + text::chars_of(
        text::dec_bytes(fast as nat),
    ) + " vs "@ + text::chars_of(text::dec_bytes(slow as nat)) + ") — differential FAILURE"@
}

/// The differential guarantee: identical event streams implies (at minimum)
/// identical event counts over the full corpus.
pub fn check_paths(venue: Venue, fast: u64, slow: u64) -> (r: Result<(), String>)
    ensures
        match r {
            Ok(_) => fast == slow,
            Err(e) => fast != slow && e@ == differential_text(venue, fast, slow),
        },
{
    if fast == slow {
        return Ok(());
    }
    let mut out: String = venue.name().to_owned();
    out.append(": fast/slow event counts differ (");
    text::push_dec(&mut out, fast as u128);
    out.append(" vs ");
    text::push_dec(&mut out, slow as u128);
    out.append(") — differential FAILURE");
    Err(out)
}

} // verus!
