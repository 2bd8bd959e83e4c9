//! Connection layer: what one long-lived task per venue decides. Reconnect
//! with jittered exponential backoff, idle watchdog, REST snapshot schedule
//! and the fast/slow parse-fallback policy.
//!
//! # Raw capture is ground truth
//!
//! Every received text frame is appended to the raw log **before** parsing:
//! a codec bug can never lose data, and every parse decision is replayable
//! from the segments after the fact.
//!
//! Instants are readings of a monotonic clock in nanoseconds.
use crate::codec::{CodecError, Signal, VenueCodec};
use crate::event::{Event, EventKind};
use crate::json;
use crate::span;
use crate::span::Span;
use crate::stats::VenueStats;
use crate::strings;
use vstd::arithmetic::power2;
use vstd::prelude::*;
use vstd::utf8::*;

pub mod envelope;
pub mod sched;
pub mod session;

pub use envelope::{parse_rest_envelope, rest_envelope, EnvelopeError};
pub use sched::RestSched;
pub use session::SessionEnd;

verus! {

/// One REST snapshot target (a single instrument's book endpoint).
#[derive(Debug, Clone)]
pub struct RestTarget {
    /// Instrument id passed to `parse_rest_snapshot` (REST bodies don't
    /// self-identify).
    pub instrument: u32,
    /// Venue-native symbol, recorded in the envelope for humans/replay.
    pub venue_symbol: String,
    /// Full URL to GET.
    pub url: String,
}

impl RestTarget {
    /// What the raw log keeps of a body that this target delivered.
    pub open spec fn enveloped(self, body: Seq<u8>) -> Seq<u8> {
        envelope::envelope_bytes(
            self.instrument,
            encode_utf8(json::json_quoted(self.venue_symbol@)),
            encode_utf8(json::json_quoted(self.url@)),
            body,
        )
    }
}

/// A venue's REST snapshot plan (empty for venues that resync in-band).
#[derive(Debug, Clone)]
pub struct RestPlan {
    /// Snapshot endpoints, one per subscribed instrument.
    pub targets: Vec<RestTarget>,
    /// Fetch every target after each (re)connect (Binance depth-sync).
    pub on_connect: bool,
    /// Periodic per-target refresh interval (staggered), if any.
    pub refresh_every: Option<Span>,
    /// Minimum spacing between consecutive REST requests (rate-limit
    /// budget; e.g. 1.5 s for Binance `depth?limit=1000` at weight 50).
    pub min_spacing: Span,
}

impl RestPlan {
    /// The plan asks for nothing.
    pub open spec fn is_none(self) -> bool {
        &&& self.targets@.len() == 0
        &&& !self.on_connect
        &&& self.refresh_every is None
        &&& self.min_spacing.nanos == 0
    }

    /// A plan with no REST activity at all (Kraken).
    pub fn none() -> (r: Self)
        ensures
            r.is_none(),
    {
        RestPlan {
            targets: Vec::new(),
            on_connect: false,
            refresh_every: None,
            min_spacing: Span::zero(),
        }
    }

    /// True if this plan never issues a request.
    pub fn is_empty(&self) -> (r: bool)
        ensures
            r == (self.targets@.len() == 0),
    {
        self.targets.len() == 0
    }

    /// The first target of `instrument` at or after `k`, if there is one.
    pub open spec fn target_from(self, instrument: u32, k: int) -> Option<int>
        decreases self.targets@.len() - k,
    {
        if !(0 <= k < self.targets@.len()) {
            None
        } else if self.targets@[k].instrument == instrument {
            Some(k)
        } else {
            self.target_from(instrument, k + 1)
        }
    }

    /// The first target of `instrument`.
    pub fn target_of(&self, instrument: u32) -> (r: Option<usize>)
        ensures
            match r {
                Some(i) => i < self.targets@.len() && self.target_from(instrument, 0) == Some(
                    i as int,
                ),
                None => self.target_from(instrument, 0) is None,
            },
    {
        let mut i: usize = 0;
        while i < self.targets.len()
            invariant
                i <= self.targets@.len(),
                self.target_from(instrument, 0) == self.target_from(instrument, i as int),
            decreases self.targets@.len() - i,
        {
            if self.targets[i].instrument == instrument {
                return Some(i);
            }
            i += 1;
        }
        None
    }
}

impl Default for RestPlan {
    fn default() -> (r: Self)
        ensures
            r.is_none(),
    {
        RestPlan::none()
    }
}

/// Per-venue connection policy.
#[derive(Debug, Clone)]
pub struct VenueConfig {
    /// Force a reconnect if no frame arrives within this window (all
    /// subscribed venues heartbeat every ~1 s, so 60 s means "dead").
    pub idle_timeout: Span,
    /// Reconnect backoff floor.
    pub backoff_floor: Span,
    /// Reconnect backoff cap.
    pub backoff_cap: Span,
    /// REST snapshot plan.
    pub rest: RestPlan,
}

impl Default for VenueConfig {
    fn default() -> (r: Self)
        ensures
            r.idle_timeout.nanos == 60_000_000_000,
            r.backoff_floor.nanos == 1_000_000_000,
            r.backoff_cap.nanos == 60_000_000_000,
            r.rest.is_none(),
    {
        VenueConfig {
            idle_timeout: Span::from_secs(60),
            backoff_floor: Span::from_secs(1),
            backoff_cap: Span::from_secs(60),
            rest: RestPlan::none(),
        }
    }
}

/// WebSocket handshake budget, in seconds: a TCP/TLS/upgrade handshake that
/// hasn't completed within this window is declared failed (backoff + retry)
/// so a stalled connect can never wedge a venue task while the process looks
/// alive.
pub const CONNECT_TIMEOUT: u64 = 20;

/// Minimum established-session duration, in seconds, for the reconnect
/// backoff counter to reset (see [`session_healthy`]).
pub const HEALTHY_SESSION_MIN: u64 = 30;

/// A session of this length and so many frames earned a backoff reset.
pub open spec fn healthy(duration: Span, frames_parsed: u64) -> bool {
    duration.nanos >= 30_000_000_000 && frames_parsed >= 1
}

/// True if a finished session earned a backoff reset: it lasted at least
/// [`HEALTHY_SESSION_MIN`] AND parsed at least one frame. An accept-then-
/// drop venue (handshake succeeds, session dies instantly) therefore keeps
/// escalating backoff instead of being hammered at the floor rate forever.
pub fn session_healthy(duration: Span, frames_parsed: u64) -> (r: bool)
    ensures
        r == healthy(duration, frames_parsed),
{
    duration.nanos >= Span::from_secs(HEALTHY_SESSION_MIN).nanos && frames_parsed >= 1
}

/// The lesser of two numbers.
pub open spec fn lesser(a: int, b: int) -> int {
    if a <= b {
        a
    } else {
        b
    }
}

/// The greater of two numbers.
pub open spec fn greater(a: int, b: int) -> int {
    if a >= b {
        a
    } else {
        b
    }
}

/// The backoff ceiling for `attempt`, in nanoseconds.
pub open spec fn ceiling(attempt: u32, floor: Span, cap: Span) -> int {
    lesser(floor.nanos * power2::pow2(attempt as nat), cap.nanos as int)
}

/// Deterministic backoff ceiling for `attempt` (0-based):
/// `min(cap, floor * 2^attempt)`.
pub fn backoff_ceiling(attempt: u32, floor: Span, cap: Span) -> (r: Span)
    ensures
        r.nanos == ceiling(attempt, floor, cap),
{
    if floor.nanos == 0 {
        assert(0 * power2::pow2(attempt as nat) == 0) by (nonlinear_arith);
        return floor;
    }
    let mut top: u128 = floor.nanos;
    let mut i: u32 = 0;
    proof {
        power2::lemma2_to64();
        assert(floor.nanos * 1 == floor.nanos);
    }
    while i < attempt
        invariant
            i <= attempt,
            top == floor.nanos * power2::pow2(i as nat),
            floor.nanos > 0,
        decreases attempt - i,
    {
        proof {
            let p: int = power2::pow2(i as nat) as int;
            power2::lemma_pow2_unfold((i + 1) as nat);
            assert(floor.nanos * (2 * p) == 2 * (floor.nanos * p)) by (nonlinear_arith);
        }
        if top > cap.nanos / 2 {
            proof {
                lemma_ceiling_rises(floor.nanos as nat, (i + 1) as nat, attempt as nat);
            }
            return cap;
        }
        top = top * 2;
        i += 1;
    }
    if top <= cap.nanos {
        Span { nanos: top }
    } else {
        cap
    }
}

proof fn lemma_ceiling_rises(floor: nat, a: nat, b: nat)
    requires
        a <= b,
    ensures
        floor * power2::pow2(a) <= floor * power2::pow2(b),
{
    if a < b {
        power2::lemma_pow2_strictly_increases(a, b);
    }
    let (x, y) = (power2::pow2(a), power2::pow2(b));
    assert(floor * x <= floor * y) by (nonlinear_arith)
        requires
            x <= y,
    ;
}

/// The most that the wait before `attempt` may be, in nanoseconds: the
/// ceiling, or twice the floor where that is more, and the cap at most.
pub open spec fn backoff_top(attempt: u32, floor: Span, cap: Span) -> int {
    lesser(greater(ceiling(attempt, floor, cap), floor.nanos * 2), cap.nanos as int)
}

/// How far the jitter reaches above the floor.
pub open spec fn jitter_range(attempt: u32, floor: Span, cap: Span) -> int {
    greater(backoff_top(attempt, floor, cap) - floor.nanos, 0)
}

/// `r` is a wait that the backoff policy allows before `attempt`.
pub open spec fn is_backoff(attempt: u32, floor: Span, cap: Span, r: Span) -> bool {
    floor.nanos <= r.nanos <= floor.nanos + jitter_range(attempt, floor, cap)
}

/// The wait is at least the floor and, from a floor that is no higher than
/// the cap, at most the cap.
pub proof fn lemma_backoff_bounds(attempt: u32, floor: Span, cap: Span, r: Span)
    requires
        floor.nanos <= cap.nanos,
        is_backoff(attempt, floor, cap, r),
    ensures
        floor.nanos <= r.nanos <= cap.nanos,
        r.nanos <= greater(ceiling(attempt, floor, cap), floor.nanos * 2),
{
}

/// Every further attempt doubles the ceiling until the cap is reached.
pub proof fn lemma_ceiling_doubles(attempt: u32, floor: Span, cap: Span)
    requires
        attempt < u32::MAX,
    ensures
        ceiling((attempt + 1) as u32, floor, cap) == lesser(
            2 * ceiling(attempt, floor, cap),
            cap.nanos as int,
        ),
        ceiling(attempt, floor, cap) <= ceiling((attempt + 1) as u32, floor, cap),
{
    power2::lemma_pow2_unfold((attempt + 1) as nat);
    let p = power2::pow2(attempt as nat);
    assert(floor.nanos * (2 * p) == 2 * (floor.nanos * p)) by (nonlinear_arith);
    assert(floor.nanos * p >= 0) by (nonlinear_arith);
}

/// How far the jitter reaches above the floor.
fn backoff_range(attempt: u32, floor: Span, cap: Span) -> (r: u128)
    ensures
        r == jitter_range(attempt, floor, cap),
{
    let mut top: u128 = backoff_ceiling(attempt, floor, cap).nanos;
    let double: u128 = match floor.nanos.checked_mul(2) {
        Some(n) => n,
        None => u128::MAX,
    };
    if double > top {
        top = double;
    }
    if cap.nanos < top {
        top = cap.nanos;
    }
    if top <= floor.nanos {
        0
    } else {
        top - floor.nanos
    }
}

/// The wait before `attempt` that lies `jitter` above the floor, or as far
/// above it as the policy allows.
pub fn backoff_with(attempt: u32, floor: Span, cap: Span, jitter: u128) -> (r: Span)
    ensures
        r.nanos == floor.nanos + lesser(jitter as int, jitter_range(attempt, floor, cap)),
        is_backoff(attempt, floor, cap, r),
{
    let range: u128 = backoff_range(attempt, floor, cap);
    let add: u128 = if jitter <= range {
        jitter
    } else {
        range
    };
    Span { nanos: floor.nanos + add }
}

/// `rand::Rng::random_range` on the thread's generator, over the numbers from
/// zero to `most`: one of them, by chance.
#[verifier::external_body]
fn random_up_to(most: u128) -> (r: u128)
    ensures
        r <= most,
{
    rand::Rng::random_range(&mut rand::rng(), 0..=most)
}

/// Exponential backoff with full jitter: uniform in
/// `[floor, max(backoff_ceiling(attempt), 2*floor)]`, capped at `cap`.
/// Always at least `floor`, never more than `cap`. Even attempt 0 jitters
/// (uniform in `[floor, 2*floor]`) so instances never retry in lockstep at
/// exactly the floor rate.
///
/// Which wait it is of those that the policy allows is left to chance.
pub fn next_backoff(attempt: u32, floor: Span, cap: Span) -> (r: Span)
    ensures
        is_backoff(attempt, floor, cap, r),
{
    let range: u128 = backoff_range(attempt, floor, cap);
    if range == 0 {
        return floor;
    }
    backoff_with(attempt, floor, cap, random_up_to(range))
}

/// The seconds that a `Retry-After` value asks for, clamped.
pub open spec fn retry_after_secs(header: Option<Seq<char>>) -> u64 {
    let asked = match header {
        Some(s) => match strings::number_of(encode_utf8(strings::trimmed(s))) {
            Some(n) => n,
            None => 120,
        },
        None => 120,
    };
    if asked < 1 {
        1
    } else if asked > 3600 {
        3600
    } else {
        asked
    }
}

/// Parse an HTTP `Retry-After` header value (delta-seconds form) into a
/// venue-wide REST pause. Absent or unparseable (e.g. HTTP-date form)
/// values default to 120 s; the result is always clamped to
/// `[1 s, 3600 s]`. Used on Binance 429/418 responses, where honoring the
/// header is the documented way to avoid extending an IP ban.
pub fn retry_after_delay(header: Option<&str>) -> (r: Span)
    ensures
        r.nanos == retry_after_secs(
            match header {
                Some(s) => Some(s@),
                None => None,
            },
        ) * 1_000_000_000,
{
    let asked: u64 = match header {
        Some(s) => match strings::parse_u64(strings::trim(s)) {
            Some(n) => n,
            None => 120,
        },
        None => 120,
    };
    Span::from_secs(
        if asked < 1 {
            1
        } else if asked > 3600 {
            3600
        } else {
            asked
        },
    )
}

/// The parse error number `nth` of a session is logged in full.
pub open spec fn is_logged(nth: u64) -> bool {
    nth <= 5 || nth % 1000 == 0
}

/// Rate-limit predicate for unparseable-frame warns, keyed by the 1-based
/// count of parse errors this session: full detail for the first 5 after
/// each connect, then only every 1000th (a venue-wide format change would
/// otherwise emit gigabytes of identical warns per day).
pub fn should_log_parse_error(nth: u64) -> (r: bool)
    ensures
        r == is_logged(nth),
{
    nth <= 5 || nth % 1000 == 0
}

/// Idle-watchdog arithmetic: the instant at which a connection that last
/// produced a frame at `last_frame` must be declared dead.
pub fn idle_deadline(last_frame: u64, idle_timeout: Span) -> (r: u64)
    ensures
        r == span::later_spec(last_frame, idle_timeout.nanos),
{
    idle_timeout.after(last_frame)
}

/// `x / n` to the nearest whole number, and to the even one of two that are
/// equally near.
pub open spec fn nearest(x: int, n: int) -> int {
    let q = x / n;
    let rest = x % n;
    if 2 * rest > n || (2 * rest == n && q % 2 == 1) {
        q + 1
    } else {
        q
    }
}

/// Multiplying the quotient and the rest of a division apart.
proof fn lemma_stagger(p: int, n: int, k: int)
    requires
        0 <= p,
        0 <= k,
        n > 0,
    ensures
        (p / n) * k + ((p % n) * k) / n == (p * k) / n,
        ((p % n) * k) % n == (p * k) % n,
        0 <= (p / n) * k,
        0 <= (p % n) * k <= n * k,
        0 <= ((p % n) * k) / n,
        0 <= (p * k) % n < n,
{
    let (q, m) = (p / n, p % n);
    vstd::arithmetic::div_mod::lemma_fundamental_div_mod(p, n);
    assert(0 <= q && 0 <= m < n && p == n * q + m) by (nonlinear_arith)
        requires
            0 <= p,
            n > 0,
            q == p / n,
            m == p % n,
            p == n * (p / n) + (p % n),
    ;
    assert(0 <= q * k && 0 <= m * k <= n * k) by (nonlinear_arith)
        requires
            0 <= q,
            0 <= m < n,
            0 <= k,
    ;
    let (u, v) = ((m * k) / n, (m * k) % n);
    vstd::arithmetic::div_mod::lemma_fundamental_div_mod(m * k, n);
    vstd::arithmetic::div_mod::lemma_div_pos_is_pos(m * k, n);
    vstd::arithmetic::div_mod::lemma_mod_bound(m * k, n);
    assert(p * k == (q * k + u) * n + v) by (nonlinear_arith)
        requires
            p == n * q + m,
            m * k == n * u + v,
    ;
    vstd::arithmetic::div_mod::lemma_fundamental_div_mod_converse(p * k, n, q * k + u, v);
}

/// A part of a period of at most the whole is no longer than the period.
proof fn lemma_part(p: int, n: int, k: int)
    requires
        0 <= p,
        0 <= k <= n,
        n > 0,
    ensures
        0 <= nearest(p * k, n) <= p,
{
    let x = p * k;
    vstd::arithmetic::div_mod::lemma_fundamental_div_mod(x, n);
    vstd::arithmetic::div_mod::lemma_mod_bound(x, n);
    let (q, t) = (x / n, x % n);
    assert(0 <= q <= p && (t > 0 ==> q < p)) by (nonlinear_arith)
        requires
            0 <= p,
            0 <= k <= n,
            n > 0,
            p * k == n * q + t,
            0 <= t < n,
    ;
}

/// Staggered initial deadline for periodic REST target `i` of `n`: spreads
/// the n refreshes evenly across one `period` so they never bunch up. To the
/// nearest nanosecond.
pub fn stagger_offset(i: usize, n: usize, period: Span) -> (r: Span)
    requires
        n > 0,
        i >= n ==> nearest(period.nanos * (i + 1), n as int) <= u128::MAX,
    ensures
        r.nanos == nearest(period.nanos * (i + 1), n as int),
        i < n ==> r.nanos <= period.nanos,
{
    let d: u128 = n as u128;
    let k: u128 = i as u128 + 1;
    proof {
        lemma_stagger(period.nanos as int, d as int, k as int);
        if i < n {
            lemma_part(period.nanos as int, d as int, k as int);
        }
        assert(d * k <= u128::MAX) by (nonlinear_arith)
            requires
                0 <= d <= u64::MAX,
                0 <= k <= u64::MAX + 1,
        ;
    }
    let part: u128 = (period.nanos % d) * k;
    let q: u128 = (period.nanos / d) * k + part / d;
    let rest: u128 = part % d;
    if 2 * rest > d || (2 * rest == d && q % 2 == 1) {
        Span { nanos: q + 1 }
    } else {
        Span { nanos: q }
    }
}

/// The counters after one more fallback.
pub open spec fn with_fallback(s: VenueStats) -> VenueStats {
    VenueStats { fallbacks: wrap(s.fallbacks, 1), ..s }
}

/// The counters after one more frame that neither path could parse.
pub open spec fn with_parse_error(s: VenueStats) -> VenueStats {
    VenueStats { parse_errors: wrap(s.parse_errors, 1), ..s }
}

/// A wrapping counter, `n` further.
pub open spec fn wrap(c: u64, n: int) -> u64 {
    ((c + n) % 0x1_0000_0000_0000_0000) as u64
}

/// What a connection has counted when it handles a frame.
pub struct Tally {
    /// The venue's counters.
    pub stats: VenueStats,
    /// Parse errors since the connection was made.
    pub session_parse_errors: u64,
}

/// The parse-fallback policy, of one payload. The codec `c0` has become `c1`,
/// the buffer `before` has become `after`, the counts `t0` have become `t1`
/// and the result is `r`: the fast path parsed the payload; or it met an
/// unexpected shape and the slow path parsed it, which is a fallback; or
/// neither did, which is a parse error and leaves the buffer as it was.
pub open spec fn processed<C: VenueCodec>(
    c0: C,
    payload: Seq<u8>,
    mono: u64,
    wall: u64,
    before: Seq<Event>,
    t0: Tally,
    c1: C,
    after: Seq<Event>,
    t1: Tally,
    r: Option<Signal>,
) -> bool {
    exists|mid: C, fast_out: Seq<Event>, fast: Result<Signal, CodecError>| #[trigger]
        c0.may_parse(payload, mono, wall, before, mid, fast_out, fast) && match fast {
            Ok(sig) => c1 == mid && after == fast_out && t1 == t0 && r == Some(sig),
            Err(CodecError::Structure(_)) => slow_processed(
                mid,
                payload,
                mono,
                wall,
                before,
                t0,
                c1,
                after,
                t1,
                r,
            ),
            Err(_) => c1 == mid && unparsed(before, t0, after, t1, r),
        }
}

/// What the policy comes to once the fast path has met an unexpected shape.
pub open spec fn slow_processed<C: VenueCodec>(
    mid: C,
    payload: Seq<u8>,
    mono: u64,
    wall: u64,
    before: Seq<Event>,
    t0: Tally,
    c1: C,
    after: Seq<Event>,
    t1: Tally,
    r: Option<Signal>,
) -> bool {
    exists|slow_out: Seq<Event>, slow: Result<Signal, CodecError>| #[trigger]
        mid.may_parse_slow(payload, mono, wall, before, c1, slow_out, slow) && match slow {
            Ok(sig) => after == slow_out && r == Some(sig) && t1 == (Tally {
                stats: with_fallback(t0.stats),
                ..t0
            }),
            Err(_) => unparsed(before, t0, after, t1, r),
        }
}

/// What the policy comes to where no path parses the payload.
pub open spec fn unparsed(
    before: Seq<Event>,
    t0: Tally,
    after: Seq<Event>,
    t1: Tally,
    r: Option<Signal>,
) -> bool {
    &&& after == before
    &&& r is None
    &&& t1.stats == with_parse_error(t0.stats)
    &&& t1.session_parse_errors == t0.session_parse_errors + 1
}

/// Apply the parse-fallback policy for one frame payload: try the fast
/// path; on a `Structure` error retry the identical payload via
/// `parse_slow` (counting a fallback); if that also fails (or the fast path
/// failed with a non-structural error) count a parse error. Guarantees `out`
/// gains no events from a failed message (buffer length is restored on every
/// error path).
///
/// `session_parse_errors` is a per-connection counter (reset on connect);
/// warn logging is rate-limited through it via [`should_log_parse_error`]
/// so a venue format change cannot flood the log.
///
/// Returns the effective [`Signal`], or `None` if the message could not be
/// parsed at all.
pub fn process_payload<C: VenueCodec>(
    codec: &mut C,
    payload: &[u8],
    recv_mono_ns: u64,
    recv_wall_ns: u64,
    stats: &mut VenueStats,
    session_parse_errors: &mut u64,
    out: &mut Vec<Event>,
) -> (r: Option<Signal>)
    requires
        old(codec).wf(),
        *old(session_parse_errors) < u64::MAX,
    ensures
        final(codec).wf(),
        old(out)@.is_prefix_of(final(out)@),
        r is None ==> final(out)@ == old(out)@,
        processed(
            *old(codec),
            payload@,
            recv_mono_ns,
            recv_wall_ns,
            old(out)@,
            (Tally { stats: *old(stats), session_parse_errors: *old(session_parse_errors) }),
            *final(codec),
            final(out)@,
            (Tally { stats: *final(stats), session_parse_errors: *final(session_parse_errors) }),
            r,
        ),
{
    let base: usize = out.len();
    let ghost c0 = *codec;
    let ghost before = out@;
    let fast: Result<Signal, CodecError> = codec.parse(payload, recv_mono_ns, recv_wall_ns, out);
    let ghost mid = *codec;
    let ghost fast_out = out@;
    assert(c0.may_parse(payload@, recv_mono_ns, recv_wall_ns, before, mid, fast_out, fast));
    let retry: bool = match fast {
        Ok(sig) => {
            return Some(sig);
        },
        Err(CodecError::Structure(_)) => true,
        Err(_) => false,
    };
    out.truncate(base);
    assert(out@ =~= before);
    if retry {
        let slow: Result<Signal, CodecError> = codec.parse_slow(
            payload,
            recv_mono_ns,
            recv_wall_ns,
            out,
        );
        let ghost slow_out = out@;
        assert(mid.may_parse_slow(
            payload@,
            recv_mono_ns,
            recv_wall_ns,
            before,
            *codec,
            slow_out,
            slow,
        ));
        if let Ok(sig) = slow {
            stats.fallbacks = stats.fallbacks.wrapping_add(1);
            return Some(sig);
        }
    }
    out.truncate(base);
    assert(out@ =~= before);
    stats.parse_errors = stats.parse_errors.wrapping_add(1);
    *session_parse_errors = *session_parse_errors + 1;
    None
}

/// The number of Gap markers among events.
pub open spec fn gap_count(s: Seq<Event>) -> nat
    decreases s.len(),
{
    if s.len() == 0 {
        0
    } else {
        gap_count(s.drop_last()) + if s.last().kind == EventKind::Gap.code_spec() {
            1nat
        } else {
            0
        }
    }
}

/// The counters after a freshly parsed batch.
pub open spec fn accounted(s: VenueStats, out: Seq<Event>) -> VenueStats {
    VenueStats {
        events: wrap(s.events, out.len() as int),
        gaps: wrap(s.gaps, gap_count(out) as int),
        ..s
    }
}

/// Count a freshly-parsed batch into `stats`: `events` by batch size,
/// `gaps` by emitted [`EventKind::Gap`] markers (called by the read loop
/// after every successful parse).
pub fn account_events(stats: &mut VenueStats, out: &[Event])
    ensures
        *final(stats) == accounted(*old(stats), out@),
{
    let mut gaps: u64 = 0;
    let mut i: usize = 0;
    let n: usize = out.len();
    let gap: u8 = EventKind::Gap.code();
    assert(out@.take(0) =~= Seq::<Event>::empty());
    while i < n
        invariant
            i <= n,
            n == out@.len(),
            gap == EventKind::Gap.code_spec(),
            gaps <= i,
            gaps == gap_count(out@.take(i as int)),
        decreases n - i,
    {
        assert(out@.take(i + 1).drop_last() =~= out@.take(i as int));
        if out[i].kind == gap {
            gaps += 1;
        }
        i += 1;
    }
    assert(out@.take(i as int) =~= out@);
    stats.events = stats.events.wrapping_add(n as u64);
    stats.gaps = stats.gaps.wrapping_add(gaps);
}

} // verus!
