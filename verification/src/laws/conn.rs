//! Laws of connections: backoff, pauses, the REST schedule, a session's
//! decisions and its counters.
use crate::codec;
use crate::codec::{CodecError, Signal, VenueCodec};
use crate::conn;
use crate::conn::envelope;
use crate::conn::envelope::EnvelopeError;
use crate::conn::sched;
use crate::conn::sched::Schedule;
use crate::conn::session;
use crate::conn::session::{Arrival, Reason, Session, Step};
use crate::conn::{RestPlan, Tally};
use crate::event::Event;
use crate::scan;
use crate::span;
use crate::span::Span;
use crate::stats::VenueStats;
use crate::strings;
use crate::text;
use vstd::arithmetic::power2;
use vstd::prelude::*;
use vstd::utf8::*;

verus! {

/// An instant and a length of time later: their sum, or the last instant
/// where there is no such one.
pub proof fn lemma_later(at: u64, nanos: u128)
    ensures
        at + nanos <= u64::MAX ==> span::later_spec(at, nanos) == at + nanos,
        at + nanos > u64::MAX ==> span::later_spec(at, nanos) == u64::MAX,
{
}

/// A session is healthy from half a minute and one parsed frame on.
pub proof fn lemma_healthy(d: Span, frames: u64)
    ensures
        conn::healthy(d, frames) <==> d.nanos >= 30_000_000_000 && frames > 0,
{
}

/// The ceiling of the first attempt is the floor, and with every attempt more
/// it doubles, but it never passes the cap.
pub proof fn lemma_ceiling_from_floor(attempt: u32, floor: Span, cap: Span)
    ensures
        conn::ceiling(0, floor, cap) == (if floor.nanos <= cap.nanos {
            floor.nanos
        } else {
            cap.nanos
        }),
        attempt < u32::MAX ==> ({
            let c = conn::ceiling(attempt, floor, cap);
            conn::ceiling((attempt + 1) as u32, floor, cap) == (if 2 * c <= cap.nanos {
                2 * c
            } else {
                cap.nanos as int
            })
        }),
        0 <= conn::ceiling(attempt, floor, cap) <= cap.nanos,
{
    power2::lemma2_to64();
    if attempt < u32::MAX {
        conn::lemma_ceiling_doubles(attempt, floor, cap);
    }
    assert(floor.nanos * power2::pow2(attempt as nat) >= 0) by (nonlinear_arith);
}

/// A delay is a backoff exactly where it lies between the floor and the
/// ceiling (or twice the floor, where that is higher), and within the cap.
pub proof fn lemma_backoff_exactly(attempt: u32, floor: Span, cap: Span, r: Span)
    requires
        floor.nanos <= cap.nanos,
    ensures
        conn::is_backoff(attempt, floor, cap, r) <==> {
            &&& floor.nanos <= r.nanos <= cap.nanos
            &&& r.nanos <= 2 * floor.nanos || r.nanos <= floor.nanos * power2::pow2(attempt as nat)
        },
{
}

/// Where the floor is above the cap there is nothing to choose: the floor it
/// is. Otherwise the shortest wait is the floor, and it is always allowed.
pub proof fn lemma_backoff_floor(attempt: u32, floor: Span, cap: Span, r: Span)
    ensures
        floor.nanos > cap.nanos ==> (conn::is_backoff(attempt, floor, cap, r) <==> r == floor),
        conn::is_backoff(attempt, floor, cap, floor),
        attempt < u32::MAX && conn::is_backoff(attempt, floor, cap, r) ==> conn::is_backoff(
            (attempt + 1) as u32,
            floor,
            cap,
            r,
        ),
{
    if attempt < u32::MAX {
        lemma_ceiling_from_floor(attempt, floor, cap);
        conn::lemma_ceiling_doubles(attempt, floor, cap);
    }
}

/// A failed fetch is tried again after one second at least, and at most after
/// two seconds, four, eight and so on by the failures before, up to a minute.
pub proof fn lemma_failure_delay(attempts: u32, delay: Span)
    ensures
        sched::failure_delay(attempts, delay) <==> {
            &&& 1_000_000_000 <= delay.nanos <= 60_000_000_000
            &&& delay.nanos <= 2_000_000_000 || delay.nanos <= 1_000_000_000 * power2::pow2(
                attempts as nat,
            )
        },
{
    lemma_backoff_exactly(
        attempts,
        Span { nanos: 1_000_000_000 },
        Span { nanos: 60_000_000_000 },
        delay,
    );
}

/// A pause that a venue asks for lasts as many seconds as it says, from one
/// second to an hour; where it says nothing that can be read, two minutes.
pub proof fn lemma_retry_after(header: Option<Seq<char>>)
    ensures
        ({
            let secs = conn::retry_after_secs(header);
            &&& 1 <= secs <= 3600
            &&& header is None ==> secs == 120
            &&& header matches Some(s) ==> (match strings::number_of(
                encode_utf8(strings::trimmed(s)),
            ) {
                None => secs == 120,
                Some(n) => (1 <= n <= 3600 ==> secs == n) && (n == 0 ==> secs == 1) && (n > 3600
                    ==> secs == 3600),
            })
        }),
{
}

/// Too many requests (429) and a banned address (418) are what a venue
/// answers with to one who asks too often, and no other status is.
pub proof fn lemma_rate_limits(status: u16)
    ensures
        sched::is_rate_limited(status) <==> seq![418u16, 429u16].contains(status),
{
    let s = seq![418u16, 429u16];
    assert(s[0] == 418 && s[1] == 429);
}

/// The first five parse errors of a session are logged, and then one in a
/// thousand.
pub proof fn lemma_logged_errors(nth: u64, k: int)
    ensures
        1 <= nth <= 5 ==> conn::is_logged(nth),
        nth == 1000 * k ==> conn::is_logged(nth),
        nth > 5 && 1000 * k < nth < 1000 * k + 1000 ==> !conn::is_logged(nth),
{
}

/// The nearest whole number to a quotient is off by a half at most, and by a
/// half exactly only where it is even.
pub proof fn lemma_nearest(x: int, n: int)
    requires
        n > 0,
    ensures
        2 * conn::nearest(x, n) * n - n <= 2 * x <= 2 * conn::nearest(x, n) * n + n,
        2 * conn::nearest(x, n) * n - 2 * x == n || 2 * x - 2 * conn::nearest(x, n) * n == n
            ==> conn::nearest(x, n) % 2 == 0,
{
    vstd::arithmetic::div_mod::lemma_fundamental_div_mod(x, n);
    vstd::arithmetic::div_mod::lemma_mod_bound(x, n);
    let q = x / n;
    let r = x % n;
    assert(x == n * q + r);
    assert(2 * q * n == 2 * (n * q)) by (nonlinear_arith);
    assert(2 * (q + 1) * n == 2 * (n * q) + 2 * n) by (nonlinear_arith);
}

/// A fresh schedule has one entry for each target, none of them tried and
/// nothing fetched. Fetching on connect makes each due at once; otherwise
/// the `i`-th of `n` targets comes due `(i + 1) / n` of the refresh period
/// later, the last of them a whole period later.
pub proof fn lemma_fresh_schedule(plan: RestPlan, now: u64, i: int)
    requires
        0 <= i < plan.targets@.len(),
    ensures
        ({
            let s = Schedule::fresh(plan, now);
            let n = plan.targets@.len() as int;
            &&& s.due.len() == n && s.attempts.len() == n
            &&& s.last_fetch is None
            &&& s.attempts[i] == 0
            &&& plan.on_connect ==> s.due[i] == Some(now)
            &&& !plan.on_connect && plan.refresh_every is None ==> s.due[i] is None
            &&& !plan.on_connect ==> (plan.refresh_every matches Some(p) ==> {
                &&& s.due[i] is Some
                &&& p.nanos <= u64::MAX - now && i == n - 1 ==> s.due[i]->0 == now + p.nanos
                &&& p.nanos <= u64::MAX - now ==> {
                    let d = s.due[i]->0 - now;
                    2 * (d * n) - n <= 2 * (p.nanos * (i + 1)) <= 2 * (d * n) + n
                }
            })
        }),
{
    let n = plan.targets@.len() as int;
    if !plan.on_connect && plan.refresh_every is Some {
        let p = plan.refresh_every->0.nanos as int;
        let x = p * (i + 1);
        let d = conn::nearest(x, n);
        lemma_nearest(x, n);
        assert(2 * d * n == 2 * (d * n)) by (nonlinear_arith);
        assert(0 <= x <= p * n) by (nonlinear_arith)
            requires
                0 <= p,
                0 <= i < n,
                x == p * (i + 1),
        ;
        assert(0 <= d <= p) by (nonlinear_arith)
            requires
                2 * (d * n) - n <= 2 * x <= 2 * (d * n) + n,
                0 <= x <= p * n,
                n > 0,
                2 * (d * n) - 2 * x == n || 2 * x - 2 * (d * n) == n ==> d % 2 == 0,
        ;
        if i == n - 1 {
            vstd::arithmetic::div_mod::lemma_div_multiples_vanish(p, n);
            vstd::arithmetic::div_mod::lemma_mod_multiples_basic(p, n);
            assert(x == n * p) by (nonlinear_arith)
                requires
                    x == p * (i + 1),
                    i == n - 1,
            ;
            assert(x == p * n) by (nonlinear_arith)
                requires
                    x == n * p,
            ;
        }
    }
}

/// The target to fetch next is one that is due, no other is due before it,
/// and of those due at the same time it is the first.
pub proof fn lemma_next_is_earliest(s: Schedule, i: int, j: int)
    requires
        s.first_due(i),
        0 <= j < s.due.len(),
        s.due[j] is Some,
    ensures
        0 <= i < s.due.len(),
        s.due[i] is Some,
        s.due[i]->0 <= s.due[j]->0,
        s.due[i]->0 == s.due[j]->0 ==> i <= j,
        s.first_due(j) ==> i == j,
{
}

/// A fetch is made when it is due, but never closer behind the last one than
/// the spacing.
pub proof fn lemma_spacing_kept(s: Schedule, at: u64, spacing: Span)
    ensures
        ({
            let f = s.fire_at(at, spacing);
            &&& f >= at
            &&& s.last_fetch is None ==> f == at
            &&& s.last_fetch matches Some(last) ==> {
                &&& last + spacing.nanos <= u64::MAX ==> f >= last + spacing.nanos
                &&& f == at || f == last + spacing.nanos || f == u64::MAX
            }
        }),
{
}

/// What a failure, a pause, a fetch and a request do to the schedule: they
/// move the target's deadline and its count of failures, and of the other
/// targets only a pause moves any, never to an earlier time.
pub proof fn lemma_schedule_moves(
    s: Schedule,
    plan: RestPlan,
    idx: int,
    now: u64,
    delay: Span,
    i: int,
)
    requires
        s.wf(),
        0 <= idx < s.due.len(),
        0 <= i < s.due.len(),
        now + delay.nanos <= u64::MAX,
        plan.refresh_every matches Some(p) ==> now + p.nanos <= u64::MAX,
    ensures
        ({
            let f = s.failed(idx, now, delay);
            let p = s.paused(idx, now, delay);
            let g = s.fetched(plan, idx, now);
            let a = s.asked(idx, now);
            let more = if s.attempts[idx] < u32::MAX {
                s.attempts[idx] + 1
            } else {
                u32::MAX as int
            };
            &&& f.due[idx] == Some((now + delay.nanos) as u64) && f.attempts[idx] == more
            &&& p.due[idx] == Some((now + delay.nanos) as u64) && p.attempts[idx] == more
            &&& plan.refresh_every is None ==> g.due[idx] is None
            &&& plan.refresh_every matches Some(r) ==> g.due[idx] == Some((now + r.nanos) as u64)
            &&& g.attempts[idx] == 0
            &&& a.due[idx] == Some(now) && a.attempts == s.attempts
            &&& i != idx ==> {
                &&& f.due[i] == s.due[i] && g.due[i] == s.due[i] && a.due[i] == s.due[i]
                &&& f.attempts[i] == s.attempts[i] && p.attempts[i] == s.attempts[i]
                    && g.attempts[i] == s.attempts[i]
                &&& s.due[i] is None ==> p.due[i] is None
                &&& s.due[i] matches Some(at) ==> p.due[i] == Some(
                    if at >= now + delay.nanos {
                        at
                    } else {
                        (now + delay.nanos) as u64
                    },
                )
            }
            &&& f.last_fetch == s.last_fetch && p.last_fetch == s.last_fetch && g.last_fetch
                == s.last_fetch && a.last_fetch == s.last_fetch
            &&& f.due.len() == s.due.len() && p.due.len() == s.due.len() && g.due.len()
                == s.due.len() && a.due.len() == s.due.len()
        }),
{
}

/// What an envelope gives stands in it: the instrument's digits right behind
/// the prefix, and the body between the first marker of it and the closing
/// brace.
pub proof fn lemma_only_envelopes(env: Seq<u8>)
    ensures
        envelope::envelope_parts(env) matches Ok((id, body)) ==> {
            let prefix = codec::lit("{\"instrument\":");
            let marker = codec::lit(",\"body\":");
            &&& env.len() > prefix.len()
            &&& env.take(prefix.len() as int) == prefix
            &&& 0x30 <= env[prefix.len() as int] <= 0x39
            &&& env.last() == 0x7d
            &&& env.len() >= prefix.len() + marker.len() + body.len() + 1
            &&& env.subrange(env.len() - 1 - body.len(), env.len() - 1) == body
            &&& env.subrange(
                env.len() - 1 - body.len() - marker.len(),
                env.len() - 1 - body.len(),
            ) == marker
        },
{
    let prefix = codec::lit("{\"instrument\":");
    let marker = codec::lit(",\"body\":");
    let p = prefix.len() as int;
    let m = marker.len() as int;
    let rest = env.skip(p);
    if let Ok((id, body)) = envelope::envelope_parts(env) {
        scan::lemma_find(rest, marker);
        text::lemma_digit_end_bounds(rest, 0);
        let at = scan::find(rest, marker)->0;
        assert(rest.len() == env.len() - p);
        assert(text::is_digit(rest[0]));
        assert(rest[0] == env[p]);
        assert(env.take(p) =~= env.subrange(0, p));
        assert(rest.last() == env.last());
        assert(body.len() == rest.len() - 1 - (at + m));
        assert(env.subrange(env.len() - 1 - body.len(), env.len() - 1) =~= body);
        assert(env.subrange(env.len() - 1 - body.len() - m, env.len() - 1 - body.len())
            =~= rest.subrange(at, at + m));
    }
}

/// An envelope is refused for its prefix, for an instrument that is no number
/// of 32 bits, or for its body, in this order.
pub proof fn lemma_envelope_errors(env: Seq<u8>, d: Seq<u8>, after: Seq<u8>)
    requires
        d.len() > 0,
        forall|i: int| 0 <= i < d.len() ==> 0x30 <= #[trigger] d[i] <= 0x39,
        after.len() > 0 ==> !(0x30 <= after[0] <= 0x39),
        env == codec::lit("{\"instrument\":") + (d + after),
    ensures
        text::digits_value(d) > u32::MAX ==> envelope::envelope_parts(env) == Err::<
            (u32, Seq<u8>),
            EnvelopeError,
        >(EnvelopeError::BadInstrument),
        envelope::envelope_parts(env) matches Ok(x) ==> x.0 == text::digits_value(d),
        envelope::envelope_parts(env) != Err::<(u32, Seq<u8>), EnvelopeError>(
            EnvelopeError::BadPrefix,
        ),
{
    let prefix = codec::lit("{\"instrument\":");
    let rest = d + after;
    assert(env.skip(prefix.len() as int) =~= rest);
    assert(env.subrange(0, prefix.len() as int) =~= prefix);
    assert forall|k: int| 0 <= k < d.len() implies text::is_digit(#[trigger] rest[k]) by {
        assert(rest[k] == d[k]);
    }
    if after.len() > 0 {
        assert(rest[d.len() as int] == after[0]);
    }
    text::lemma_digit_end_is(rest, 0, d.len() as int);
    assert(rest.take(d.len() as int) =~= d);
}

/// The target of an instrument is the first one that names it, and there is
/// none exactly where no target does.
pub proof fn lemma_target_is_first(plan: RestPlan, instrument: u32, k: int)
    requires
        0 <= k <= plan.targets@.len(),
    ensures
        match plan.target_from(instrument, k) {
            Some(i) => {
                &&& k <= i < plan.targets@.len()
                &&& plan.targets@[i].instrument == instrument
                &&& forall|j: int|
                    k <= j < i ==> (#[trigger] plan.targets@[j]).instrument != instrument
            },
            None => forall|j: int|
                k <= j < plan.targets@.len() ==> (#[trigger] plan.targets@[j]).instrument
                    != instrument,
        },
    decreases plan.targets@.len() - k,
{
    if k < plan.targets@.len() && plan.targets@[k].instrument != instrument {
        lemma_target_is_first(plan, instrument, k + 1);
    }
}

/// A resync is counted once. Where a target serves the instrument it makes
/// that target due at once and the session goes on; where none does the
/// session ends, which is counted too. A venue's advice to reconnect ends it
/// as well, and nothing else does.
pub proof fn lemma_signals(
    plan: RestPlan,
    now: u64,
    rest: Schedule,
    stats: VenueStats,
    sig: Option<Signal>,
)
    requires
        stats.resyncs < u64::MAX,
        stats.reconnects < u64::MAX,
        rest.due.len() == plan.targets@.len(),
    ensures
        ({
            let (step, next, st) = session::signalled(plan, now, rest, stats, sig);
            let resync = sig matches Some(s) && s is NeedResync;
            let served = resync && exists|j: int|
                0 <= j < plan.targets@.len() && (#[trigger] plan.targets@[j]).instrument
                    == sig->0->instrument;
            let advised = sig == Some(Signal::Reconnect);
            &&& (step is Reconnect <==> (resync && !served) || advised)
            &&& resync && !served ==> step == Step::Reconnect(Reason::Resync)
            &&& advised ==> step == Step::Reconnect(Reason::VenueAdvisory)
            &&& st.resyncs == stats.resyncs + (if resync {
                1int
            } else {
                0
            })
            &&& st.reconnects == stats.reconnects + (if step is Reconnect {
                1int
            } else {
                0
            })
            &&& st.msgs == stats.msgs && st.bytes == stats.bytes && st.events == stats.events
                && st.gaps == stats.gaps && st.fallbacks == stats.fallbacks && st.parse_errors
                == stats.parse_errors && st.rest_snaps == stats.rest_snaps
            &&& !served ==> next == rest
            &&& served ==> next.attempts == rest.attempts && next.last_fetch == rest.last_fetch
                && exists|i: int|
                0 <= i < rest.due.len() && (#[trigger] plan.targets@[i]).instrument
                    == sig->0->instrument && next.due[i] == Some(now) && forall|j: int|
                    0 <= j < rest.due.len() && j != i ==> #[trigger] next.due[j] == rest.due[j]
        }),
{
    if let Some(Signal::NeedResync { instrument }) = sig {
        lemma_target_is_first(plan, instrument, 0);
        let (step, next, st) = session::signalled(plan, now, rest, stats, sig);
        if let Some(i) = plan.target_from(instrument, 0) {
            assert(plan.targets@[i].instrument == instrument);
            assert(next.due[i] == Some(now));
            assert(forall|j: int|
                0 <= j < rest.due.len() && j != i ==> #[trigger] next.due[j] == rest.due[j]);
        }
    }
}

/// Everything that arrives shows that the connection lives, but a close, an
/// error and the end of the stream, which end the session, as an unanswered
/// ping does.
pub proof fn lemma_arrivals(a: Arrival)
    ensures
        session::arrived(a).0 <==> a is Binary || a is Ping || a is Pong,
        session::arrived(a).1 is None <==> a is Binary || a is Pong || a == Arrival::Ping(true),
        a == Arrival::Ping(false) ==> session::arrived(a).1 == Some(Reason::PongFailed),
        a is Close ==> session::arrived(a).1 == Some(Reason::ServerClose),
        a is Error ==> session::arrived(a).1 == Some(Reason::WebsocketError),
        a is End ==> session::arrived(a).1 == Some(Reason::StreamEnd),
{
}

/// A counter that passes the last number of 64 bits starts again at 0.
pub proof fn lemma_wrap(c: u64, n: int)
    requires
        0 <= n,
    ensures
        c + n <= u64::MAX ==> conn::wrap(c, n) == c + n,
        u64::MAX < c + n <= 2 * u64::MAX + 1 ==> conn::wrap(c, n) == c + n - u64::MAX - 1,
{
}

/// A counter grows by what is counted until it wraps around.
pub proof fn lemma_counters(s: VenueStats, n: int)
    requires
        0 <= n,
        s.msgs + 1 <= u64::MAX,
        s.bytes + n <= u64::MAX,
        s.reconnects + 1 <= u64::MAX,
        s.resyncs + 1 <= u64::MAX,
        s.rest_snaps + 1 <= u64::MAX,
        s.fallbacks + 1 <= u64::MAX,
        s.parse_errors + 1 <= u64::MAX,
    ensures
        session::with_frame(s, n) == (VenueStats {
            msgs: (s.msgs + 1) as u64,
            bytes: (s.bytes + n) as u64,
            ..s
        }),
        session::with_reconnect(s) == (VenueStats { reconnects: (s.reconnects + 1) as u64, ..s }),
        session::with_resync(s) == (VenueStats { resyncs: (s.resyncs + 1) as u64, ..s }),
        session::with_rest_snap(s) == (VenueStats { rest_snaps: (s.rest_snaps + 1) as u64, ..s }),
        conn::with_fallback(s) == (VenueStats { fallbacks: (s.fallbacks + 1) as u64, ..s }),
        conn::with_parse_error(s) == (VenueStats { parse_errors: (s.parse_errors + 1) as u64, ..s }),
{
}

/// What a payload comes to: one that neither path reads leaves no events and
/// counts one parse error; one that is read counts none, and at most one
/// fallback. No other counter moves.
pub proof fn lemma_payload_counts<C: VenueCodec>(
    c0: C,
    payload: Seq<u8>,
    mono: u64,
    wall: u64,
    before: Seq<Event>,
    t0: Tally,
    c1: C,
    after: Seq<Event>,
    t1: Tally,
    r: Option<Signal>,
)
    requires
        conn::processed(c0, payload, mono, wall, before, t0, c1, after, t1, r),
        t0.stats.parse_errors < u64::MAX,
        t0.stats.fallbacks < u64::MAX,
    ensures
        r is None ==> {
            &&& after == before
            &&& t1.stats == (VenueStats {
                parse_errors: (t0.stats.parse_errors + 1) as u64,
                ..t0.stats
            })
            &&& t1.session_parse_errors == t0.session_parse_errors + 1
        },
        r is Some ==> {
            &&& t1.session_parse_errors == t0.session_parse_errors
            &&& t1.stats == t0.stats || t1.stats == (VenueStats {
                fallbacks: (t0.stats.fallbacks + 1) as u64,
                ..t0.stats
            })
        },
{
}

/// A payload that the fast path reads is never given to the slow one: its
/// signal and its events are the fast path's, and nothing is counted.
pub proof fn lemma_fast_path_first<C: VenueCodec>(
    c0: C,
    payload: Seq<u8>,
    mono: u64,
    wall: u64,
    before: Seq<Event>,
    t0: Tally,
    c1: C,
    after: Seq<Event>,
    t1: Tally,
    r: Option<Signal>,
)
    requires
        conn::processed(c0, payload, mono, wall, before, t0, c1, after, t1, r),
        forall|mid: C, out: Seq<Event>, x: Result<Signal, CodecError>| #[trigger]
            c0.may_parse(payload, mono, wall, before, mid, out, x) ==> x is Ok,
    ensures
        t1 == t0,
        r matches Some(sig) && c0.may_parse(
            payload,
            mono,
            wall,
            before,
            c1,
            after,
            Ok::<Signal, CodecError>(sig),
        ),
{
}

/// A text frame shows that the connection lives, and counts as parsed exactly
/// where it gave a signal.
pub proof fn lemma_text_frame(
    s: Session,
    plan: RestPlan,
    now: u64,
    sig: Option<Signal>,
    t: Tally,
    out: Seq<Event>,
    post: Session,
    stats: VenueStats,
    r: Step,
)
    requires
        s.text_step(plan, now, sig, t, out, post, stats, r),
    ensures
        post.last_frame == now,
        post.frames_parsed == s.frames_parsed + (if sig is Some {
            1int
        } else {
            0
        }),
        post.parse_errors == t.session_parse_errors,
        sig is None ==> r == Step::Continue && post.rest@ == s.rest@,
{
}

/// A REST snapshot is counted once. One that the codec takes ends the
/// target's failures and is fetched again after the refresh period; one that
/// it does not take, or that asks for another, is tried again with backoff.
pub proof fn lemma_rest_snapshot(
    s: Session,
    plan: RestPlan,
    idx: int,
    now: u64,
    stats: VenueStats,
    res: Result<Signal, CodecError>,
    out: Seq<Event>,
    post: Session,
    after: VenueStats,
)
    requires
        s.snapshot_step(plan, idx, now, stats, res, out, post, after),
        s.rest@.wf(),
        0 <= idx < s.rest@.due.len(),
        stats.rest_snaps < u64::MAX,
        stats.resyncs < u64::MAX,
        stats.parse_errors < u64::MAX,
        stats.events + out.len() <= u64::MAX,
        stats.gaps + conn::gap_count(out) <= u64::MAX,
    ensures
        after.rest_snaps == stats.rest_snaps + 1,
        res is Err ==> after.parse_errors == stats.parse_errors + 1 && after.events == stats.events
            && after.gaps == stats.gaps,
        res is Ok ==> after.parse_errors == stats.parse_errors && after.events == stats.events
            + out.len() && after.gaps == stats.gaps + conn::gap_count(out),
        after.resyncs == stats.resyncs + (if res matches Ok(x) && x is NeedResync {
            1int
        } else {
            0
        }),
        ({
            let taken = res matches Ok(x) && !(x is NeedResync);
            &&& taken ==> post.rest@.attempts[idx] == 0
            &&& !taken ==> post.rest@.attempts[idx] == (if s.rest@.attempts[idx] < u32::MAX {
                s.rest@.attempts[idx] + 1
            } else {
                u32::MAX as int
            })
            &&& !taken ==> post.rest@.due[idx] is Some
        }),
        after.msgs == stats.msgs && after.bytes == stats.bytes && after.reconnects
            == stats.reconnects && after.fallbacks == stats.fallbacks,
{
}

/// The gaps of a run of events are its events of that kind: none in no
/// events, and each further event counts one if it is a gap.
pub proof fn lemma_gap_count(a: Seq<Event>, b: Seq<Event>, e: Event)
    ensures
        conn::gap_count(Seq::empty()) == 0,
        conn::gap_count(seq![e]) == (if e.kind == 10 {
            1nat
        } else {
            0nat
        }),
        conn::gap_count(a + b) == conn::gap_count(a) + conn::gap_count(b),
        conn::gap_count(a) <= a.len(),
    decreases b.len() + a.len(),
{
    assert(seq![e].drop_last() =~= Seq::<Event>::empty());
    assert(conn::gap_count(Seq::<Event>::empty()) == 0);
    if b.len() > 0 {
        assert((a + b).drop_last() =~= a + b.drop_last());
        lemma_gap_count(a, b.drop_last(), e);
    } else {
        assert(a + b =~= a);
        if a.len() > 0 {
            lemma_gap_count(a.drop_last(), b, e);
        }
    }
}

/// A batch adds its events and its gaps to the counters, and touches no other
/// counter; batches that are accounted one behind the other add up.
pub proof fn lemma_accounted(s: VenueStats, a: Seq<Event>, b: Seq<Event>)
    requires
        s.events + a.len() + b.len() <= u64::MAX,
        s.gaps + a.len() + b.len() <= u64::MAX,
    ensures
        conn::accounted(s, a) == (VenueStats {
            events: (s.events + a.len()) as u64,
            gaps: (s.gaps + conn::gap_count(a)) as u64,
            ..s
        }),
        conn::accounted(conn::accounted(s, a), b) == conn::accounted(s, a + b),
{
    if a.len() > 0 {
        lemma_gap_count(a, b, a[0]);
        lemma_gap_count(b, a, a[0]);
    } else if b.len() > 0 {
        lemma_gap_count(a, b, b[0]);
        lemma_gap_count(b, a, b[0]);
    } else {
        assert(a + b =~= a);
    }
}

} // verus!
