//! The broadcast fan-out benchmark: its command line, its workloads and what
//! each subscriber counts and samples.
use crate::args;
use crate::args::{stop_at, tokenize, Program, Stop, Token};
use crate::bench::options;
use crate::bench::options::{read_options, shared_stop, Options};
use vstd::prelude::*;
use vstd::string::*;

verus! {

/// Ring / channel capacity for all contenders.
pub const CAPACITY: usize = 65_536;

/// Subscriber counts measured for every contender.
pub const SUB_COUNTS: [usize; 4] = [1, 2, 4, 8];

/// Throughput-phase message count (full run).
pub const THROUGHPUT_MSGS_FULL: u64 = 5_000_000;

/// Throughput-phase message count under `--quick`.
pub const THROUGHPUT_MSGS_QUICK: u64 = 500_000;

/// Latency-phase sustained publish rate, msg/s (full run).
pub const PACED_RATE_FULL: u64 = 500_000;

/// Latency-phase sustained publish rate, msg/s, under `--quick`.
pub const PACED_RATE_QUICK: u64 = 100_000;

/// Latency-phase message count (full run): 5 s at the full paced rate.
pub const PACED_MSGS_FULL: u64 = 2_500_000;

/// Latency-phase message count under `--quick`: 2 s at the quick rate.
pub const PACED_MSGS_QUICK: u64 = 200_000;

/// Hard cap on latency samples kept per subscriber (stride-sampled).
pub const SAMPLE_CAP_PER_SUB: u64 = 2_000_000;

/// Generator seed: the same synthetic stream for every contender.
pub const SEED: u64 = 0x0B05_FA17;

/// How the program is used.
pub open spec fn usage_spec() -> Seq<char> {
    "usage: bench-bus [--quick] [--results-dir DIR] [--overwrite]"@
}

/// How the program is used.
pub fn usage() -> (r: &'static str)
    ensures
        r@ == usage_spec(),
{
    "usage: bench-bus [--quick] [--results-dir DIR] [--overwrite]"
}

/// The fan-out benchmark.
#[derive(Debug, Clone, Copy)]
pub struct BusBench;

impl Program for BusBench {
    open spec fn halts(&self, t: args::Tok) -> Option<args::Halt> {
        options::shared_halt(t, usage_spec(), "--results-dir needs a path"@, false)
    }

    fn check(&self, t: &Token<'_>) -> (r: Option<Stop>) {
        shared_stop(t, usage(), "--results-dir needs a path", false)
    }
}

/// What a command line asks for, or the message that refuses it.
pub open spec fn config_of(argv: Seq<Seq<char>>) -> Result<options::Told, Seq<char>> {
    let t = args::tokens(argv, options::shared_flags(), 0);
    match args::first_halt(BusBench, t, 0) {
        Some(args::Halt::Error(e)) => Err(e),
        _ => Ok(options::told(t)),
    }
}

/// Parse CLI args (everything after the program's name). Returns a usage
/// error string on bad input.
pub fn parse_args(argv: &[String]) -> (r: Result<Options, String>)
    ensures
        match r {
            Ok(c) => config_of(args::words(argv@)) == Ok::<options::Told, Seq<char>>(c@),
            Err(e) => config_of(args::words(argv@)) == Err::<options::Told, Seq<char>>(e@),
        },
{
    let names: [(&str, bool); 5] = [
        ("--quick", false),
        ("--results-dir", true),
        ("--overwrite", false),
        ("--help", false),
        ("-h", false),
    ];
    assert(args::table(names@) =~= options::shared_flags());
    let toks: Vec<Token<'_>> = tokenize(argv, names.as_slice());
    if let Some(Stop::Error(e)) = stop_at(&BusBench, toks.as_slice()) {
        return Err(e);
    }
    Ok(read_options(toks.as_slice()))
}

/// Workload sizes for a run: `(throughput_msgs, paced_rate, paced_msgs)`.
pub fn workload(quick: bool) -> (r: (u64, u64, u64))
    ensures
        r == if quick {
            (THROUGHPUT_MSGS_QUICK, PACED_RATE_QUICK, PACED_MSGS_QUICK)
        } else {
            (THROUGHPUT_MSGS_FULL, PACED_RATE_FULL, PACED_MSGS_FULL)
        },
{
    if quick {
        (THROUGHPUT_MSGS_QUICK, PACED_RATE_QUICK, PACED_MSGS_QUICK)
    } else {
        (THROUGHPUT_MSGS_FULL, PACED_RATE_FULL, PACED_MSGS_FULL)
    }
}

/// What one subscriber has received: messages delivered and lost, and the
/// latency of every `stride`-th message after the first `warmup` ones, as
/// long as there are fewer than `cap` samples.
#[derive(Debug, Clone)]
pub struct Meter {
    /// Messages actually received.
    pub delivered: u64,
    /// Messages irrecoverably lost.
    pub lost: u64,
    /// The sampled latencies.
    pub samples: Vec<u64>,
    /// Messages to receive before sampling starts.
    pub warmup: u64,
    /// The sampling stride.
    pub stride: u64,
    /// Samples to keep at most.
    pub cap: u64,
}

impl Meter {
    /// A stride can be taken, and the samples are within their cap.
    pub open spec fn wf(self) -> bool {
        self.stride > 0 && self.samples@.len() <= self.cap
    }

    /// The next message is sampled.
    pub open spec fn samples_next(self) -> bool {
        &&& self.delivered >= self.warmup
        &&& (self.delivered - self.warmup) % (self.stride as int) == 0
        &&& self.samples@.len() < self.cap
    }

    /// A subscriber that has received nothing.
    pub fn new(warmup: u64, stride: u64, cap: u64) -> (r: Self)
        requires
            stride > 0,
        ensures
            r.wf(),
            r.delivered == 0,
            r.lost == 0,
            r.samples@ == Seq::<u64>::empty(),
            r.warmup == warmup,
            r.stride == stride,
            r.cap == cap,
    {
        Meter { delivered: 0, lost: 0, samples: Vec::new(), warmup, stride, cap }
    }

    /// A message that was stamped at `sent` is received at `now`.
    pub fn receive(&mut self, now: u64, sent: u64)
        requires
            old(self).wf(),
            old(self).delivered < u64::MAX,
        ensures
            final(self).wf(),
            final(self).delivered == old(self).delivered + 1,
            final(self).lost == old(self).lost,
            final(self).samples@ == if old(self).samples_next() {
                old(self).samples@.push(
                    if now >= sent {
                        (now - sent) as u64
                    } else {
                        0
                    },
                )
            } else {
                old(self).samples@
            },
            final(self).warmup == old(self).warmup,
            final(self).stride == old(self).stride,
            final(self).cap == old(self).cap,
    {
        if self.delivered >= self.warmup && (self.delivered - self.warmup) % self.stride == 0
            && (self.samples.len() as u64) < self.cap {
            self.samples.push(
                if now >= sent {
                    now - sent
                } else {
                    0
                },
            );
        }
        self.delivered = self.delivered + 1;
    }

    /// `n` messages are lost.
    pub fn lose(&mut self, n: u64)
        requires
            old(self).lost + n <= u64::MAX,
        ensures
            *final(self) == (Meter { lost: (old(self).lost + n) as u64, ..*old(self) }),
    {
        self.lost = self.lost + n;
    }

    /// True once every one of `total` messages is accounted for.
    pub fn done(&self, total: u64) -> (r: bool)
        ensures
            r == (self.delivered + self.lost >= total),
    {
        self.delivered as u128 + self.lost as u128 >= total as u128
    }
}

} // verus!
