//! The tick-store benchmark: its command line, the knobs that a store's
//! metadata records, and the point-in-time queries it asks.
use crate::args;
use crate::args::{joined, stop_at, tokenize, value_of, Program, Stop, Token};
use crate::bench::options;
use crate::bench::options::{read_options, shared_stop, Options};
use crate::json;
use crate::json::{parse_json, Json};
use rand::rngs::StdRng;
use vstd::prelude::*;
use vstd::string::*;

verus! {

/// Fixed RNG seed: PIT query sets are reproducible across runs/backends.
pub const PIT_SEED: u64 = 0xF1A5_B00C;

/// PIT queries, full run.
pub const PIT_N_FULL: usize = 1000;

/// PIT queries with `--quick`.
pub const PIT_N_QUICK: usize = 100;

/// PIT queries per SQL backend in the compare phase (full run).
pub const PIT_COMPARE_FULL: usize = 200;

/// Compare-phase PIT queries with `--quick`.
pub const PIT_COMPARE_QUICK: usize = 20;

/// How the program is used.
pub open spec fn usage_spec() -> Seq<char> {
    "usage: bench-store --store <path> [--quick] [--results-dir DIR] [--overwrite]"@
}

/// How the program is used.
pub fn usage() -> (r: &'static str)
    ensures
        r@ == usage_spec(),
{
    "usage: bench-store --store <path> [--quick] [--results-dir DIR] [--overwrite]"
}

/// Parsed command line.
#[derive(Debug, Clone, PartialEq, Eq)]
pub struct Config {
    /// Ingested segment file.
    pub store: String,
    /// What every benchmark is told.
    pub options: Options,
}

/// A parsed command line, as values.
#[verifier::ext_equal]
pub struct Choice {
    pub store: Seq<char>,
    pub options: options::Told,
}

impl View for Config {
    type V = Choice;

    open spec fn view(&self) -> Choice {
        Choice { store: self.store@, options: self.options@ }
    }
}

/// The place of `--store` among the flags.
pub const STORE: usize = 5;

/// The flags of the program.
pub open spec fn flags() -> Seq<(Seq<char>, bool)> {
    options::shared_flags() + seq![("--store"@, true)]
}

/// The tick-store benchmark.
#[derive(Debug, Clone, Copy)]
pub struct StoreBench;

impl Program for StoreBench {
    open spec fn halts(&self, t: args::Tok) -> Option<args::Halt> {
        options::shared_halt(t, usage_spec(), "--results-dir needs a path"@, false)
    }

    fn check(&self, t: &Token<'_>) -> (r: Option<Stop>) {
        shared_stop(t, usage(), "--results-dir needs a path", false)
    }
}

/// What a command line asks for, or the message that refuses it.
pub open spec fn config_of(argv: Seq<Seq<char>>) -> Result<Choice, Seq<char>> {
    let t = args::tokens(argv, flags(), 0);
    match args::first_halt(StoreBench, t, 0) {
        Some(args::Halt::Error(e)) => Err(e),
        _ => match args::last_value(t, STORE as int) {
            None => Err("--store <path> required\n"@ + usage_spec()),
            Some(store) => Ok(Choice { store, options: options::told(t) }),
        },
    }
}

/// Parse CLI args (everything after the program's name).
pub fn parse_args(argv: &[String]) -> (r: Result<Config, String>)
    ensures
        match r {
            Ok(c) => config_of(args::words(argv@)) == Ok::<Choice, Seq<char>>(c@),
            Err(e) => config_of(args::words(argv@)) == Err::<Choice, Seq<char>>(e@),
        },
{
    let names: [(&str, bool); 6] = [
        ("--quick", false),
        ("--results-dir", true),
        ("--overwrite", false),
        ("--help", false),
        ("-h", false),
        ("--store", true),
    ];
    assert(args::table(names@) =~= flags());
    let toks: Vec<Token<'_>> = tokenize(argv, names.as_slice());
    let t: &[Token<'_>] = toks.as_slice();
    if let Some(Stop::Error(e)) = stop_at(&StoreBench, t) {
        return Err(e);
    }
    match value_of(t, STORE) {
        None => Err(joined("--store <path> required\n", usage())),
        Some(store) => Ok(Config { store: store.to_owned(), options: read_options(t) }),
    }
}

/// The knobs that a metadata document records, where it does.
pub open spec fn knobs_of(v: json::JsonValue) -> (usize, i32) {
    let block_events = match json::u64_member(v, "block_events"@) {
        Some(n) => if 0 < n <= usize::MAX {
            n as usize
        } else {
            8192
        },
        None => 8192,
    };
    let level = match json::member(v, "zstd_level"@) {
        Some(m) => match json::i64_of(m) {
            Some(n) => if n != 0 && i32::MIN <= n <= i32::MAX {
                n as i32
            } else {
                3
            },
            None => 3,
        },
        None => 3,
    };
    (block_events, level)
}

/// The knobs that a metadata document records.
pub fn document_knobs(doc: &Json) -> (r: (usize, i32))
    ensures
        r == knobs_of(doc.view()),
{
    let block_events: usize = match doc.get_u64("block_events") {
        Some(n) => if n > 0 && n <= usize::MAX as u64 {
            n as usize
        } else {
            8192
        },
        None => 8192,
    };
    let level: i32 = match doc.get("zstd_level") {
        Some(m) => match m.as_i64() {
            Some(n) => if n != 0 && n >= i32::MIN as i64 && n <= i32::MAX as i64 {
                n as i32
            } else {
                3
            },
            None => 3,
        },
        None => 3,
    };
    (block_events, level)
}

/// Store knobs recorded by ingest's meta JSON; defaults when the store was
/// written by something else: (block_events 8192, zstd level 3).
pub fn meta_knobs(meta: &[u8]) -> (r: (usize, i32))
    ensures
        r == match json::json_of(meta@) {
            Ok(v) => knobs_of(v),
            Err(_) => (8192usize, 3i32),
        },
{
    match parse_json(meta) {
        Ok(doc) => document_knobs(&doc),
        Err(_) => (8192, 3),
    }
}

/// `raw_payload_bytes` from the text of ingest's sidecar, if it has any.
pub fn raw_payload_bytes(sidecar: &[u8]) -> (r: Option<u64>)
    ensures
        r == match json::json_of(sidecar@) {
            Ok(v) => json::u64_member(v, "raw_payload_bytes"@),
            Err(_) => None,
        },
{
    match parse_json(sidecar) {
        Ok(doc) => doc.get_u64("raw_payload_bytes"),
        Err(_) => None,
    }
}

/// PIT queries of a run.
pub fn pit_queries(quick: bool) -> (r: usize)
    ensures
        r == if quick {
            PIT_N_QUICK
        } else {
            PIT_N_FULL
        },
{
    if quick {
        PIT_N_QUICK
    } else {
        PIT_N_FULL
    }
}

/// PIT queries per SQL backend in the compare phase.
pub fn compare_queries(quick: bool) -> (r: usize)
    ensures
        r == if quick {
            PIT_COMPARE_QUICK
        } else {
            PIT_COMPARE_FULL
        },
{
    if quick {
        PIT_COMPARE_QUICK
    } else {
        PIT_COMPARE_FULL
    }
}

/// The deterministic generator of `rand`.
#[verifier::external_type_specification]
#[verifier::external_body]
pub struct ExStdRng(rand::rngs::StdRng);

/// The generator that a seed starts.
pub uninterp spec fn rng_of(seed: u64) -> StdRng;

/// The place below `n` that a generator draws next, and the generator after.
pub uninterp spec fn place_drawn(rng: StdRng, n: usize) -> (usize, StdRng);

/// The number from `lo` to `hi` that a generator draws next, and the
/// generator after.
pub uninterp spec fn number_drawn(rng: StdRng, lo: u64, hi: u64) -> (u64, StdRng);

/// `rand::SeedableRng::seed_from_u64` of `StdRng`: the generator depends on
/// the seed alone.
#[verifier::external_body]
fn seed_rng(seed: u64) -> (r: StdRng)
    ensures
        r == rng_of(seed),
{
    rand::SeedableRng::seed_from_u64(seed)
}

/// `rand::Rng::random_range` over the places below `n`: one of them, which
/// depends on the generator alone.
#[verifier::external_body]
fn draw_place(rng: &mut StdRng, n: usize) -> (r: usize)
    requires
        n > 0,
    ensures
        r < n,
        r == place_drawn(*old(rng), n).0,
        *final(rng) == place_drawn(*old(rng), n).1,
{
    rand::Rng::random_range(rng, 0..n)
}

/// `rand::Rng::random_range` over the numbers from `lo` to `hi`: one of them,
/// which depends on the generator alone.
#[verifier::external_body]
fn draw_number(rng: &mut StdRng, lo: u64, hi: u64) -> (r: u64)
    requires
        lo <= hi,
    ensures
        lo <= r <= hi,
        r == number_drawn(*old(rng), lo, hi).0,
        *final(rng) == number_drawn(*old(rng), lo, hi).1,
{
    rand::Rng::random_range(rng, lo..=hi)
}

/// The generator after `n` queries have been drawn from `rng`.
pub open spec fn rng_after(rng: StdRng, places: usize, lo: u64, hi: u64, n: nat) -> StdRng
    decreases n,
{
    if n == 0 {
        rng
    } else {
        let before = rng_after(rng, places, lo, hi, (n - 1) as nat);
        number_drawn(place_drawn(before, places).1, lo, hi).1
    }
}

/// Query `i`: an instrument, then a time.
pub open spec fn query(rng: StdRng, instruments: Seq<u32>, lo: u64, hi: u64, i: int) -> (u32, u64) {
    let places = instruments.len() as usize;
    let before = rng_after(rng, places, lo, hi, i as nat);
    let p = place_drawn(before, places);
    (instruments[p.0 as int], number_drawn(p.1, lo, hi).0)
}

/// Deterministic PIT query set: `n` random `(instrument, t_mono)` pairs
/// with `t` uniform in `[t_lo, t_hi]`, instruments uniform over the given
/// set. Same seed => same queries, on every backend and every run.
pub fn gen_queries(instruments: &[u32], t_lo: u64, t_hi: u64, n: usize, seed: u64) -> (r: Vec<
    (u32, u64),
>)
    requires
        instruments@.len() > 0,
        t_lo <= t_hi,
    ensures
        r@ == Seq::new(n as nat, |i: int| query(rng_of(seed), instruments@, t_lo, t_hi, i)),
        forall|i: int|
            0 <= i < n ==> instruments@.contains((#[trigger] r@[i]).0) && t_lo <= r@[i].1 <= t_hi,
{
    let mut rng: StdRng = seed_rng(seed);
    let places: usize = instruments.len();
    let ghost start = rng_of(seed);
    let mut out: Vec<(u32, u64)> = Vec::new();
    let mut i: usize = 0;
    while i < n
        invariant
            i <= n,
            places == instruments@.len(),
            places > 0,
            t_lo <= t_hi,
            start == rng_of(seed),
            rng == rng_after(start, places, t_lo, t_hi, i as nat),
            out@ == Seq::new(i as nat, |i: int| query(start, instruments@, t_lo, t_hi, i)),
            forall|k: int|
                0 <= k < i ==> instruments@.contains((#[trigger] out@[k]).0) && t_lo <= out@[k].1
                    <= t_hi,
        decreases n - i,
    {
        let place: usize = draw_place(&mut rng, places);
        let t: u64 = draw_number(&mut rng, t_lo, t_hi);
        let ghost before = out@;
        out.push((instruments[place], t));
        proof {
            assert(instruments@.contains(instruments@[place as int]));
            assert(out@[i as int] == query(start, instruments@, t_lo, t_hi, i as int));
            assert(out@ =~= Seq::new(
                (i + 1) as nat,
                |i: int| query(start, instruments@, t_lo, t_hi, i),
            ));
        }
        i += 1;
    }
    out
}

} // verus!
