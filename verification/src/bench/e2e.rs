//! The end-to-end latency benchmark: its command line, the pace of the
//! loopback publisher, and what the live pipeline counts and samples.
use crate::args;
use crate::args::{joined, stop_at, tokenize, value_of, Program, Stop, Token};
use crate::bench::options;
use crate::bench::options::{read_options, shared_stop, Options};
use crate::bench::pacing;
use crate::bench::pacing::sample_stride;
use crate::json::same_str;
use crate::strings;
use crate::text;
use vstd::bytes::*;
use vstd::prelude::*;
use vstd::string::*;
use vstd::utf8::*;

verus! {

/// Bus ring capacity for the live pipeline (same as the fan-out bench).
pub const RING_CAPACITY: usize = 65_536;

/// Latency-sample cap per net-mode subscriber (stride-sampled).
pub const NET_SAMPLE_CAP: u64 = 2_000_000;

/// Net-mode events skipped from sampling at the start (connection warmup).
pub const NET_WARMUP_EVENTS: u64 = 1_000;

/// Generator seed for net mode (same stream every run).
pub const NET_SEED: u64 = 0xE2E0_57A6;

/// How the program is used.
pub open spec fn usage_spec() -> Seq<char> {
    "usage: bench-e2e <net|live> [options]\n  net  [--rate N] [--subs N] [--secs N] [--quick] [--results-dir DIR] [--overwrite]\n       quick defaults: rate 50000, secs 10 (full: rate 200000, secs 30); subs default 4\n  live [--secs N] [--symbols BTC] [--quick] [--results-dir DIR] [--overwrite]\n       quick default: secs 60 (full: 300)"@
}

/// How the program is used.
pub fn usage() -> (r: &'static str)
    ensures
        r@ == usage_spec(),
{
    "usage: bench-e2e <net|live> [options]\n  net  [--rate N] [--subs N] [--secs N] [--quick] [--results-dir DIR] [--overwrite]\n       quick defaults: rate 50000, secs 10 (full: rate 200000, secs 30); subs default 4\n  live [--secs N] [--symbols BTC] [--quick] [--results-dir DIR] [--overwrite]\n       quick default: secs 60 (full: 300)"
}

/// Loopback fan-out configuration.
#[derive(Debug, Clone, PartialEq, Eq)]
pub struct NetCfg {
    /// Target sustained publish rate, events/s.
    pub rate: u64,
    /// Subscriber (TCP consumer) count.
    pub subs: usize,
    /// Paced duration, seconds.
    pub secs: u64,
    /// What every benchmark is told.
    pub options: Options,
}

/// Live venue decomposition configuration.
#[derive(Debug, Clone, PartialEq, Eq)]
pub struct LiveCfg {
    /// Measurement window, seconds.
    pub secs: u64,
    /// Canonical base symbol (default `BTC`).
    pub symbols: String,
    /// What every benchmark is told.
    pub options: Options,
}

/// Parse outcome: run a subcommand, or print usage and exit 0.
#[derive(Debug, Clone, PartialEq, Eq)]
pub enum Cli {
    /// `bench-e2e net ...`
    Net(NetCfg),
    /// `bench-e2e live ...`
    Live(LiveCfg),
    /// `--help`/`-h`.
    Help,
}

/// What a command line asks for.
pub enum Choice {
    Net { rate: u64, subs: usize, secs: u64, options: options::Told },
    Live { secs: u64, symbols: Seq<char>, options: options::Told },
    Help,
}

impl View for Cli {
    type V = Choice;

    open spec fn view(&self) -> Choice {
        match self {
            Cli::Net(c) => Choice::Net {
                rate: c.rate,
                subs: c.subs,
                secs: c.secs,
                options: c.options@,
            },
            Cli::Live(c) => Choice::Live {
                secs: c.secs,
                symbols: c.symbols@,
                options: c.options@,
            },
            Cli::Help => Choice::Help,
        }
    }
}

/// The place of `--secs` among the flags of either subcommand.
pub const SECS: usize = 5;

/// The place of `--rate` among the flags of `net`.
pub const RATE: usize = 6;

/// The place of `--subs` among the flags of `net`.
pub const SUBS: usize = 7;

/// The place of `--symbols` among the flags of `live`.
pub const SYMBOLS: usize = 6;

/// The flags of `net`.
pub open spec fn net_flags() -> Seq<(Seq<char>, bool)> {
    options::shared_flags() + seq![("--secs"@, true), ("--rate"@, true), ("--subs"@, true)]
}

/// The flags of `live`.
pub open spec fn live_flags() -> Seq<(Seq<char>, bool)> {
    options::shared_flags() + seq![("--secs"@, true), ("--symbols"@, true)]
}

/// Why a numeric flag stops the program: it has no value, or none that is an
/// unsigned integer.
pub open spec fn number_halt(flag: Seq<char>, v: Option<Seq<char>>) -> Option<args::Halt> {
    match v {
        None => Some(args::Halt::Error(flag + " needs a value"@)),
        Some(s) => match strings::number_of(encode_utf8(s)) {
            None => Some(args::Halt::Error(flag + " needs an unsigned integer"@)),
            Some(_) => None,
        },
    }
}

/// Why a numeric flag stops the program.
fn number_stop(flag: &str, v: Option<&str>) -> (r: Option<Stop>)
    ensures
        args::halt_view(r) == number_halt(
            flag@,
            match v {
                Some(s) => Some(s@),
                None => None,
            },
        ),
{
    match v {
        None => Some(Stop::Error(joined(flag, " needs a value"))),
        Some(s) => match strings::parse_u64(s) {
            None => Some(Stop::Error(joined(flag, " needs an unsigned integer"))),
            Some(_) => None,
        },
    }
}

/// The flag and value of a token that has a flag with a value or lacks it.
pub open spec fn flag_value(t: args::Tok) -> Option<(int, Option<Seq<char>>)> {
    match t {
        args::Tok::Value(f, v) => Some((f, Some(v))),
        args::Tok::Missing(f) => Some((f, None)),
        _ => None,
    }
}

/// The loopback benchmark.
#[derive(Debug, Clone, Copy)]
pub struct NetBench;

impl Program for NetBench {
    open spec fn halts(&self, t: args::Tok) -> Option<args::Halt> {
        match flag_value(t) {
            Some((f, v)) if f == SECS => number_halt("--secs"@, v),
            Some((f, v)) if f == RATE => number_halt("--rate"@, v),
            Some((f, v)) if f == SUBS => number_halt("--subs"@, v),
            _ => options::shared_halt(t, usage_spec(), "--results-dir needs a path"@, true),
        }
    }

    fn check(&self, t: &Token<'_>) -> (r: Option<Stop>) {
        let given: Option<(usize, Option<&str>)> = match *t {
            Token::Value(f, v) => Some((f, Some(v))),
            Token::Missing(f) => Some((f, None)),
            _ => None,
        };
        if let Some((f, v)) = given {
            if f == SECS {
                return number_stop("--secs", v);
            }
            if f == RATE {
                return number_stop("--rate", v);
            }
            if f == SUBS {
                return number_stop("--subs", v);
            }
        }
        shared_stop(t, usage(), "--results-dir needs a path", true)
    }
}

/// The live benchmark.
#[derive(Debug, Clone, Copy)]
pub struct LiveBench;

impl Program for LiveBench {
    open spec fn halts(&self, t: args::Tok) -> Option<args::Halt> {
        match flag_value(t) {
            Some((f, v)) if f == SECS => number_halt("--secs"@, v),
            Some((f, None)) if f == SYMBOLS => Some(
                args::Halt::Error("--symbols needs a value"@),
            ),
            _ => options::shared_halt(t, usage_spec(), "--results-dir needs a path"@, true),
        }
    }

    fn check(&self, t: &Token<'_>) -> (r: Option<Stop>) {
        let given: Option<(usize, Option<&str>)> = match *t {
            Token::Value(f, v) => Some((f, Some(v))),
            Token::Missing(f) => Some((f, None)),
            _ => None,
        };
        if let Some((f, v)) = given {
            if f == SECS {
                return number_stop("--secs", v);
            }
            if f == SYMBOLS && v.is_none() {
                return Some(Stop::Error("--symbols needs a value".to_owned()));
            }
        }
        shared_stop(t, usage(), "--results-dir needs a path", true)
    }
}

/// The uppercase form of a text.
pub uninterp spec fn uppercase_of(s: Seq<char>) -> Seq<char>;

/// `str::to_uppercase`: the uppercase form, by the Unicode rules; of an ASCII
/// text, every small letter made a capital.
#[verifier::external_body]
fn to_uppercase(s: &str) -> (r: String)
    ensures
        r@ == uppercase_of(s@),
        is_ascii_chars(s@) ==> r@ == strings::uppered(s@),
{
    s.to_uppercase()
}

/// The number that a flag was given last, or its default.
pub open spec fn number_or(v: Option<Seq<char>>, default: u64) -> u64 {
    match v {
        Some(s) => match strings::number_of(encode_utf8(s)) {
            Some(n) => n,
            None => default,
        },
        None => default,
    }
}

/// The number that a flag was given last, or its default.
fn given_number(v: Option<&str>, default: u64) -> (r: u64)
    ensures
        r == number_or(
            match v {
                Some(s) => Some(s@),
                None => None,
            },
            default,
        ),
{
    match v {
        Some(s) => match strings::parse_u64(s) {
            Some(n) => n,
            None => default,
        },
        None => default,
    }
}

/// What the arguments of `net` ask for.
pub open spec fn net_of(argv: Seq<Seq<char>>) -> Result<Choice, Seq<char>> {
    let t = args::tokens(argv, net_flags(), 0);
    let quick = options::told(t).quick;
    match args::first_halt(NetBench, t, 0) {
        Some(args::Halt::Error(e)) => Err(e),
        Some(args::Halt::Help) => Ok(Choice::Help),
        None => {
            let subs = number_or(args::last_value(t, SUBS as int), 4);
            if subs > usize::MAX {
                Err("--subs too large"@)
            } else {
                Ok(
                    Choice::Net {
                        rate: number_or(
                            args::last_value(t, RATE as int),
                            if quick {
                                50_000
                            } else {
                                200_000
                            },
                        ),
                        subs: subs as usize,
                        secs: number_or(
                            args::last_value(t, SECS as int),
                            if quick {
                                10
                            } else {
                                30
                            },
                        ),
                        options: options::told(t),
                    },
                )
            }
        },
    }
}

/// What the arguments of `live` ask for. The symbols are those of
/// `--symbols`, in capitals.
pub open spec fn live_of(argv: Seq<Seq<char>>) -> Result<Choice, Seq<char>> {
    let t = args::tokens(argv, live_flags(), 0);
    let quick = options::told(t).quick;
    match args::first_halt(LiveBench, t, 0) {
        Some(args::Halt::Error(e)) => Err(e),
        Some(args::Halt::Help) => Ok(Choice::Help),
        None => Ok(
            Choice::Live {
                secs: number_or(
                    args::last_value(t, SECS as int),
                    if quick {
                        60
                    } else {
                        300
                    },
                ),
                symbols: match args::last_value(t, SYMBOLS as int) {
                    Some(s) => uppercase_of(s),
                    None => "BTC"@,
                },
                options: options::told(t),
            },
        ),
    }
}

/// What a command line asks for, or the message that refuses it.
pub open spec fn choice_of(argv: Seq<Seq<char>>) -> Result<Choice, Seq<char>> {
    if argv.len() == 0 {
        Err(usage_spec())
    } else if argv[0] == "--help"@ || argv[0] == "-h"@ {
        Ok(Choice::Help)
    } else if argv[0] == "net"@ {
        net_of(argv.skip(1))
    } else if argv[0] == "live"@ {
        live_of(argv.skip(1))
    } else {
        Err("unknown subcommand: "@ + argv[0] + "\n"@ + usage_spec())
    }
}

/// What `r` says.
pub open spec fn cli_view(r: Result<Cli, String>) -> Result<Choice, Seq<char>> {
    match r {
        Ok(c) => Ok(c@),
        Err(e) => Err(e@),
    }
}

/// Parse the arguments of `net`.
fn parse_net(argv: &[String]) -> (r: Result<Cli, String>)
    ensures
        cli_view(r) == net_of(args::words(argv@)),
{
    let names: [(&str, bool); 8] = [
        ("--quick", false),
        ("--results-dir", true),
        ("--overwrite", false),
        ("--help", false),
        ("-h", false),
        ("--secs", true),
        ("--rate", true),
        ("--subs", true),
    ];
    assert(args::table(names@) =~= net_flags());
    let toks: Vec<Token<'_>> = tokenize(argv, names.as_slice());
    let t: &[Token<'_>] = toks.as_slice();
    match stop_at(&NetBench, t) {
        Some(Stop::Error(e)) => Err(e),
        Some(Stop::Help) => Ok(Cli::Help),
        None => {
            let options: Options = read_options(t);
            let subs: u64 = given_number(value_of(t, SUBS), 4);
            if subs > usize::MAX as u64 {
                return Err("--subs too large".to_owned());
            }
            let rate: u64 = given_number(
                value_of(t, RATE),
                if options.quick {
                    50_000
                } else {
                    200_000
                },
            );
            let secs: u64 = given_number(
                value_of(t, SECS),
                if options.quick {
                    10
                } else {
                    30
                },
            );
            Ok(Cli::Net(NetCfg { rate, subs: subs as usize, secs, options }))
        },
    }
}

/// Parse the arguments of `live`.
fn parse_live(argv: &[String]) -> (r: Result<Cli, String>)
    ensures
        cli_view(r) == live_of(args::words(argv@)),
{
    let names: [(&str, bool); 7] = [
        ("--quick", false),
        ("--results-dir", true),
        ("--overwrite", false),
        ("--help", false),
        ("-h", false),
        ("--secs", true),
        ("--symbols", true),
    ];
    assert(args::table(names@) =~= live_flags());
    let toks: Vec<Token<'_>> = tokenize(argv, names.as_slice());
    let t: &[Token<'_>] = toks.as_slice();
    match stop_at(&LiveBench, t) {
        Some(Stop::Error(e)) => Err(e),
        Some(Stop::Help) => Ok(Cli::Help),
        None => {
            let options: Options = read_options(t);
            let secs: u64 = given_number(
                value_of(t, SECS),
                if options.quick {
                    60
                } else {
                    300
                },
            );
            let symbols: String = match value_of(t, SYMBOLS) {
                Some(s) => to_uppercase(s),
                None => "BTC".to_owned(),
            };
            Ok(Cli::Live(LiveCfg { secs, symbols, options }))
        },
    }
}

/// Parse CLI arguments (everything after the program's name).
pub fn parse_args(argv: &[String]) -> (r: Result<Cli, String>)
    ensures
        cli_view(r) == choice_of(args::words(argv@)),
{
    if argv.len() == 0 {
        return Err(usage().to_owned());
    }
    let sub: &str = argv[0].as_str();
    let rest: &[String] = vstd::slice::slice_subrange(argv, 1, argv.len());
    assert(args::words(rest@) =~= args::words(argv@).skip(1));
    assert(args::words(argv@)[0] == sub@);
    if same_str(sub, "--help") || same_str(sub, "-h") {
        Ok(Cli::Help)
    } else if same_str(sub, "net") {
        parse_net(rest)
    } else if same_str(sub, "live") {
        parse_live(rest)
    } else {
        let mut out: String = joined("unknown subcommand: ", sub);
        out.append("\n");
        out.append(usage());
        Err(out)
    }
}

/// The number of events of a run and the stride of its samples. A run of
/// nothing, and one of more events than can be counted, is refused.
pub fn net_plan(cfg: &NetCfg) -> (r: Option<(u64, u64)>)
    ensures
        match r {
            None => cfg.rate == 0 || cfg.secs == 0 || cfg.subs == 0 || cfg.rate * cfg.secs
                > u64::MAX,
            Some(x) => {
                &&& cfg.rate > 0 && cfg.secs > 0 && cfg.subs > 0
                &&& x.0 == cfg.rate * cfg.secs
                &&& x.1 == pacing::stride_of(
                    if x.0 > NET_WARMUP_EVENTS {
                        (x.0 - NET_WARMUP_EVENTS) as u64
                    } else {
                        0
                    },
                    NET_SAMPLE_CAP,
                )
            },
        },
{
    if cfg.rate == 0 || cfg.secs == 0 || cfg.subs == 0 {
        return None;
    }
    match cfg.rate.checked_mul(cfg.secs) {
        None => None,
        Some(total) => {
            let counted: u64 = if total > NET_WARMUP_EVENTS {
                total - NET_WARMUP_EVENTS
            } else {
                0
            };
            Some((total, sample_stride(counted, NET_SAMPLE_CAP)))
        },
    }
}

/// How a publisher waits for a deadline.
#[derive(Debug, Clone, Copy, PartialEq, Eq, Structural)]
pub enum Wait {
    /// The deadline is reached.
    Go,
    /// Poll the clock.
    Spin,
    /// Sleep for so many nanoseconds first.
    Sleep(u64),
}

/// How a publisher waits for a deadline: it sleeps while the deadline is more
/// than 300 µs away, until 200 µs before it, and polls the clock then.
pub fn wait_for(now: u64, deadline: u64) -> (r: Wait)
    ensures
        r == if now >= deadline {
            Wait::Go
        } else if deadline - now > 300_000 {
            Wait::Sleep((deadline - now - 200_000) as u64)
        } else {
            Wait::Spin
        },
{
    if now >= deadline {
        return Wait::Go;
    }
    let ahead: u64 = deadline - now;
    if ahead > 300_000 {
        Wait::Sleep(ahead - 200_000)
    } else {
        Wait::Spin
    }
}

/// What is said of a session that ended before its deadline.
pub open spec fn early_close_text(
    name: Seq<char>,
    now: u64,
    start: u64,
    why: Seq<char>,
) -> Seq<char> {
    name + " closed early ("@ + text::chars_of(
        text::dec_bytes(
            if now >= start {
                ((now - start) / 1_000_000_000) as nat
            } else {
                0
            },
        ),
    ) + "s in): "@ + why
}

/// Degradation note for a session that ended at `now` (mono ns), or `None`
/// when the run deadline had already been reached (a clean end).
pub fn early_close_note(name: &str, now: u64, start: u64, deadline: u64, why: &str) -> (r: Option<
    String,
>)
    ensures
        match r {
            None => now >= deadline,
            Some(s) => now < deadline && s@ == early_close_text(name@, now, start, why@),
        },
{
    if now >= deadline {
        return None;
    }
    let secs: u64 = if now >= start {
        (now - start) / 1_000_000_000
    } else {
        0
    };
    let mut out: String = joined(name, " closed early (");
    text::push_dec(&mut out, secs as u128);
    out.append("s in): ");
    out.append(why);
    Some(out)
}

/// RTT ping payload: the current monotonic time, little-endian.
pub fn ping_payload(mono_ns: u64) -> (r: Vec<u8>)
    ensures
        r@ == spec_u64_to_le_bytes(mono_ns),
        r@.len() == 8,
{
    u64_to_le_bytes(mono_ns)
}

/// The round-trip time that a pong shows.
pub open spec fn rtt_of(payload: Seq<u8>, now: u64) -> Option<u64> {
    if payload.len() == 8 {
        let sent = spec_u64_from_le_bytes(payload);
        Some(
            if now >= sent {
                (now - sent) as u64
            } else {
                0
            },
        )
    } else {
        None
    }
}

/// RTT from a pong echo received at `now`: `Some(now - sent)` when
/// `payload` is one of our 8-byte little-endian mono-ns stamps (saturating
/// at 0), `None` otherwise (venue-originated pongs are ignored).
pub fn rtt_from_pong(payload: &[u8], now: u64) -> (r: Option<u64>)
    ensures
        r == rtt_of(payload@, now),
{
    if payload.len() != 8 {
        return None;
    }
    let sent: u64 = u64_from_le_bytes(payload);
    Some(
        if now >= sent {
            now - sent
        } else {
            0
        },
    )
}

/// The echo of a ping shows the time since it was sent.
pub proof fn lemma_ping_roundtrip(sent: u64, now: u64)
    ensures
        rtt_of(spec_u64_to_le_bytes(sent), now) == Some(
            if now >= sent {
                (now - sent) as u64
            } else {
                0u64
            },
        ),
{
    lemma_auto_spec_u64_to_from_le_bytes();
}

/// Venue-path sample from receive wall time vs venue timestamp:
/// `(sample_ns, clamped)`, clamped to 0 when the venue clock reads ahead of
/// the local wall clock.
pub fn venue_path_sample(recv_wall: u64, venue_ts: u64) -> (r: (u64, bool))
    ensures
        r == if recv_wall >= venue_ts {
            ((recv_wall - venue_ts) as u64, false)
        } else {
            (0u64, true)
        },
{
    if recv_wall >= venue_ts {
        (recv_wall - venue_ts, false)
    } else {
        (0, true)
    }
}

} // verus!
