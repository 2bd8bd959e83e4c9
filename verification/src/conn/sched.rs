//! The REST schedule of one connection: one optional deadline and one
//! failure-backoff attempt counter per target, serialized globally by
//! `min_spacing`.
use crate::conn;
use crate::conn::{next_backoff, retry_after_delay, stagger_offset, RestPlan};
use crate::span;
use crate::span::Span;
use vstd::prelude::*;

verus! {

/// Per-connection REST scheduler state.
#[derive(Debug)]
pub struct RestSched {
    /// When each target is due, if it is.
    pub due: Vec<Option<u64>>,
    /// When the last request was made.
    pub last_fetch: Option<u64>,
    /// How often each target has failed since it last succeeded.
    pub attempts: Vec<u32>,
}

/// What a schedule holds.
#[verifier::ext_equal]
pub struct Schedule {
    /// When each target is due, if it is.
    pub due: Seq<Option<u64>>,
    /// When the last request was made.
    pub last_fetch: Option<u64>,
    /// How often each target has failed since it last succeeded.
    pub attempts: Seq<u32>,
}

impl View for RestSched {
    type V = Schedule;

    open spec fn view(&self) -> Schedule {
        Schedule { due: self.due@, last_fetch: self.last_fetch, attempts: self.attempts@ }
    }
}

/// An attempt counter, one further.
pub open spec fn one_more(attempts: u32) -> u32 {
    if attempts == u32::MAX {
        u32::MAX
    } else {
        (attempts + 1) as u32
    }
}

/// The later of two instants.
pub open spec fn latest(a: u64, b: u64) -> u64 {
    if a >= b {
        a
    } else {
        b
    }
}

/// A failed fetch waits at least one second and at most sixty.
pub open spec fn failure_delay(attempts: u32, delay: Span) -> bool {
    conn::is_backoff(
        attempts,
        Span { nanos: 1_000_000_000 },
        Span { nanos: 60_000_000_000 },
        delay,
    )
}

impl Schedule {
    /// There is one counter for each target.
    pub open spec fn wf(self) -> bool {
        self.due.len() == self.attempts.len()
    }

    /// The schedule of a fresh connection.
    pub open spec fn fresh(plan: RestPlan, now: u64) -> Schedule {
        let n = plan.targets@.len();
        Schedule {
            due: Seq::new(
                n,
                |i: int|
                    if plan.on_connect {
                        Some(now)
                    } else {
                        match plan.refresh_every {
                            Some(p) => Some(
                                span::later_spec(
                                    now,
                                    conn::nearest(p.nanos * (i + 1), n as int) as u128,
                                ),
                            ),
                            None => None,
                        }
                    },
            ),
            last_fetch: None,
            attempts: Seq::new(n, |i: int| 0u32),
        }
    }

    /// Target `i` is due, no target is due earlier, and none before it in the
    /// list is due at the same instant.
    pub open spec fn first_due(self, i: int) -> bool {
        &&& 0 <= i < self.due.len()
        &&& self.due[i] is Some
        &&& forall|j: int|
            0 <= j < self.due.len() && (#[trigger] self.due[j]) is Some ==> if j < i {
                self.due[i]->0 < self.due[j]->0
            } else {
                self.due[i]->0 <= self.due[j]->0
            }
    }

    /// When a target that is due at `at` may be fetched.
    pub open spec fn fire_at(self, at: u64, min_spacing: Span) -> u64 {
        match self.last_fetch {
            Some(last) => latest(at, span::later_spec(last, min_spacing.nanos)),
            None => at,
        }
    }

    /// Target `idx` has failed at `now` and waits for `delay`.
    pub open spec fn failed(self, idx: int, now: u64, delay: Span) -> Schedule {
        Schedule {
            due: self.due.update(idx, Some(span::later_spec(now, delay.nanos))),
            attempts: self.attempts.update(idx, one_more(self.attempts[idx])),
            ..self
        }
    }

    /// The venue has asked at `now`, of target `idx`, for a pause of `delay`.
    pub open spec fn paused(self, idx: int, now: u64, delay: Span) -> Schedule {
        let until = span::later_spec(now, delay.nanos);
        Schedule {
            due: Seq::new(
                self.due.len(),
                |i: int|
                    if i == idx {
                        Some(until)
                    } else {
                        match self.due[i] {
                            Some(at) => Some(latest(at, until)),
                            None => None,
                        }
                    },
            ),
            attempts: self.attempts.update(idx, one_more(self.attempts[idx])),
            ..self
        }
    }

    /// Target `idx` has been fetched at `now`.
    pub open spec fn fetched(self, plan: RestPlan, idx: int, now: u64) -> Schedule {
        Schedule {
            due: self.due.update(
                idx,
                match plan.refresh_every {
                    Some(p) => Some(span::later_spec(now, p.nanos)),
                    None => None,
                },
            ),
            attempts: self.attempts.update(idx, 0),
            ..self
        }
    }

    /// Target `idx` is due at `now`.
    pub open spec fn asked(self, idx: int, now: u64) -> Schedule {
        Schedule { due: self.due.update(idx, Some(now)), ..self }
    }
}

/// After a venue-wide pause nothing is scheduled before its end, and the
/// target that was refused is scheduled for exactly then.
pub proof fn lemma_pause_holds_all(s: Schedule, idx: int, now: u64, delay: Span)
    requires
        s.wf(),
        0 <= idx < s.due.len(),
    ensures
        s.paused(idx, now, delay).wf(),
        s.paused(idx, now, delay).due[idx] == Some(span::later_spec(now, delay.nanos)),
        forall|i: int|
            0 <= i < s.due.len() && (#[trigger] s.paused(idx, now, delay).due[i]) is Some
                ==> s.paused(idx, now, delay).due[i]->0 >= span::later_spec(now, delay.nanos),
        forall|i: int|
            0 <= i < s.due.len() && i != idx ==> ((#[trigger] s.paused(
                idx,
                now,
                delay,
            ).due[i]) is Some <==> s.due[i] is Some),
{
}

/// The status says that the venue is asked too often: a documented rate limit
/// or an IP ban.
pub open spec fn is_rate_limited(status: u16) -> bool {
    status == 429 || status == 418
}

/// A failed target retries a second later at the earliest and a minute later
/// at the latest, and no other target's deadline moves.
pub proof fn lemma_failure_backs_off(s: Schedule, idx: int, now: u64, delay: Span)
    requires
        s.wf(),
        0 <= idx < s.due.len(),
        failure_delay(s.attempts[idx], delay),
        now <= u64::MAX - 60_000_000_000,
    ensures
        s.failed(idx, now, delay).wf(),
        ({
            let at = s.failed(idx, now, delay).due[idx];
            at is Some && now + 1_000_000_000 <= at->0 <= now + 60_000_000_000
        }),
        forall|i: int|
            0 <= i < s.due.len() && i != idx ==> #[trigger] s.failed(idx, now, delay).due[i]
                == s.due[i],
{
    conn::lemma_backoff_bounds(
        s.attempts[idx],
        Span { nanos: 1_000_000_000 },
        Span { nanos: 60_000_000_000 },
        delay,
    );
}

impl RestSched {
    /// The schedule of a connection made at `now`: every target at once, or
    /// the periodic refreshes spread over one period.
    pub fn new(plan: &RestPlan, now: u64) -> (r: Self)
        ensures
            r@ == Schedule::fresh(*plan, now),
            r@.wf(),
    {
        let n: usize = plan.targets.len();
        let mut due: Vec<Option<u64>> = Vec::new();
        let mut attempts: Vec<u32> = Vec::new();
        let mut i: usize = 0;
        while i < n
            invariant
                i <= n,
                n == plan.targets@.len(),
                due@ == Schedule::fresh(*plan, now).due.take(i as int),
                attempts@ == Schedule::fresh(*plan, now).attempts.take(i as int),
            decreases n - i,
        {
            let at: Option<u64> = if plan.on_connect {
                Some(now)
            } else {
                match plan.refresh_every {
                    Some(p) => Some(stagger_offset(i, n, p).after(now)),
                    None => None,
                }
            };
            due.push(at);
            attempts.push(0);
            assert(due@ =~= Schedule::fresh(*plan, now).due.take(i + 1));
            assert(attempts@ =~= Schedule::fresh(*plan, now).attempts.take(i + 1));
            i += 1;
        }
        assert(due@ =~= Schedule::fresh(*plan, now).due);
        assert(attempts@ =~= Schedule::fresh(*plan, now).attempts);
        RestSched { due, last_fetch: None, attempts }
    }

    /// Next (target index, fire-at instant): the earliest due target,
    /// pushed out to honor `min_spacing` after the previous fetch.
    pub fn next(&self, min_spacing: Span) -> (r: Option<(usize, u64)>)
        ensures
            match r {
                Some(x) => self@.first_due(x.0 as int) && x.1 == self@.fire_at(
                    self@.due[x.0 as int]->0,
                    min_spacing,
                ),
                None => forall|i: int|
                    0 <= i < self@.due.len() ==> (#[trigger] self@.due[i]) is None,
            },
    {
        let mut best: Option<(usize, u64)> = None;
        let mut i: usize = 0;
        while i < self.due.len()
            invariant
                i <= self.due@.len(),
                match best {
                    Some(x) => x.0 < i && self.due@[x.0 as int] == Some(x.1) && forall|j: int|
                        0 <= j < i && (#[trigger] self.due@[j]) is Some ==> if j < x.0 {
                            x.1 < self.due@[j]->0
                        } else {
                            x.1 <= self.due@[j]->0
                        },
                    None => forall|j: int| 0 <= j < i ==> (#[trigger] self.due@[j]) is None,
                },
            decreases self.due@.len() - i,
        {
            if let Some(at) = self.due[i] {
                match best {
                    Some((_, t)) => if at < t {
                        best = Some((i, at));
                    },
                    None => {
                        best = Some((i, at));
                    },
                }
            }
            i += 1;
        }
        match best {
            None => None,
            Some((k, at)) => {
                let fire: u64 = match self.last_fetch {
                    Some(last) => {
                        let ready: u64 = min_spacing.after(last);
                        if at >= ready {
                            at
                        } else {
                            ready
                        }
                    },
                    None => at,
                };
                Some((k, fire))
            },
        }
    }

    /// A request is made at `now`.
    pub fn begin(&mut self, now: u64)
        ensures
            final(self)@ == (Schedule { last_fetch: Some(now), ..old(self)@ }),
    {
        self.last_fetch = Some(now);
    }

    /// Target `idx` is due at once.
    pub fn ask(&mut self, idx: usize, now: u64)
        requires
            idx < old(self)@.due.len(),
        ensures
            final(self)@ == old(self)@.asked(idx as int, now),
    {
        self.due.set(idx, Some(now));
    }

    /// Count a failure against target `idx`.
    fn count_failure(&mut self, idx: usize)
        requires
            old(self)@.wf(),
            idx < old(self)@.due.len(),
        ensures
            final(self)@ == (Schedule {
                attempts: old(self)@.attempts.update(
                    idx as int,
                    one_more(old(self)@.attempts[idx as int]),
                ),
                ..old(self)@
            }),
    {
        let a: u32 = self.attempts[idx];
        self.attempts.set(
            idx,
            if a == u32::MAX {
                a
            } else {
                a + 1
            },
        );
    }

    /// Reschedule a failed REST fetch of target `idx` for `delay` after `now`.
    pub fn fail_after(&mut self, idx: usize, now: u64, delay: Span)
        requires
            old(self)@.wf(),
            idx < old(self)@.due.len(),
        ensures
            final(self)@ == old(self)@.failed(idx as int, now, delay),
            final(self)@.wf(),
    {
        self.count_failure(idx);
        self.due.set(idx, Some(delay.after(now)));
        assert(self@ =~= old(self)@.failed(idx as int, now, delay));
    }

    /// Reschedule a failed REST fetch with per-target exponential backoff
    /// (1 s floor, 60 s cap), leaving the WS session untouched.
    pub fn fail(&mut self, idx: usize, now: u64)
        requires
            old(self)@.wf(),
            idx < old(self)@.due.len(),
        ensures
            final(self)@.wf(),
            exists|delay: Span| #[trigger]
                failure_delay(old(self)@.attempts[idx as int], delay) && final(self)@ == old(
                    self,
                )@.failed(idx as int, now, delay),
    {
        let delay: Span = next_backoff(
            self.attempts[idx],
            Span::from_secs(1),
            Span::from_secs(60),
        );
        assert(failure_delay(old(self)@.attempts[idx as int], delay));
        self.fail_after(idx, now, delay);
    }

    /// Venue-wide REST pushback after an HTTP 429/418: every scheduled
    /// target's due time is pushed out to at least `now + delay` (the limit is
    /// per-IP, not per-endpoint), the offending target retries exactly then,
    /// and a failure attempt is counted against it.
    pub fn pause(&mut self, idx: usize, now: u64, delay: Span)
        requires
            old(self)@.wf(),
            idx < old(self)@.due.len(),
        ensures
            final(self)@ == old(self)@.paused(idx as int, now, delay),
            final(self)@.wf(),
    {
        let until: u64 = delay.after(now);
        self.count_failure(idx);
        let ghost goal = old(self)@.paused(idx as int, now, delay);
        self.due.set(idx, Some(until));
        let n: usize = self.due.len();
        let mut i: usize = 0;
        while i < n
            invariant
                i <= n,
                n == self.due@.len(),
                n == goal.due.len(),
                idx < n,
                n == old(self)@.due.len(),
                until == span::later_spec(now, delay.nanos),
                goal == old(self)@.paused(idx as int, now, delay),
                self.attempts@ == goal.attempts,
                self.last_fetch == goal.last_fetch,
                forall|j: int| 0 <= j < i ==> #[trigger] self.due@[j] == goal.due[j],
                forall|j: int|
                    i <= j < n && j != idx ==> #[trigger] self.due@[j] == old(self)@.due[j],
                i <= idx ==> self.due@[idx as int] == Some(until),
            decreases n - i,
        {
            if let Some(at) = self.due[i] {
                if at < until {
                    self.due.set(i, Some(until));
                }
            }
            i += 1;
        }
        assert(self@ =~= goal);
    }

    /// A request for target `idx` was answered with `status` in place of a
    /// snapshot. Documented rate-limit / IP-ban responses (429 and 418) pause
    /// the WHOLE venue for as long as `Retry-After` asks, otherwise every
    /// retry extends the ban; any other status is a failure of the target.
    pub fn reject(&mut self, idx: usize, now: u64, status: u16, retry_after: Option<&str>)
        requires
            old(self)@.wf(),
            idx < old(self)@.due.len(),
        ensures
            final(self)@.wf(),
            if is_rate_limited(status) {
                final(self)@ == old(self)@.paused(
                    idx as int,
                    now,
                    Span {
                        nanos: (conn::retry_after_secs(
                            match retry_after {
                                Some(s) => Some(s@),
                                None => None,
                            },
                        ) * 1_000_000_000) as u128,
                    },
                )
            } else {
                exists|delay: Span| #[trigger]
                    failure_delay(old(self)@.attempts[idx as int], delay) && final(self)@ == old(
                        self,
                    )@.failed(idx as int, now, delay)
            },
    {
        if status == 429 || status == 418 {
            let delay: Span = retry_after_delay(retry_after);
            self.pause(idx, now, delay);
        } else {
            self.fail(idx, now);
        }
    }

    /// Target `idx` was fetched and parsed: its failures are forgotten, and
    /// the next refresh is one period away, if there is a period.
    pub fn succeed(&mut self, plan: &RestPlan, idx: usize, now: u64)
        requires
            old(self)@.wf(),
            idx < old(self)@.due.len(),
        ensures
            final(self)@ == old(self)@.fetched(*plan, idx as int, now),
            final(self)@.wf(),
    {
        let at: Option<u64> = match plan.refresh_every {
            Some(p) => Some(p.after(now)),
            None => None,
        };
        self.attempts.set(idx, 0);
        self.due.set(idx, at);
        assert(self@ =~= old(self)@.fetched(*plan, idx as int, now));
    }
}

} // verus!
