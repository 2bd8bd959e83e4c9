//! One connection: what happens on each frame, when it is over, and what is
//! noted about it in the raw log.
use crate::codec::{CodecError, Signal, VenueCodec};
use crate::conn;
use crate::conn::sched;
use crate::conn::{
    account_events, next_backoff, process_payload, rest_envelope, session_healthy, RestPlan,
    RestSched, RestTarget, VenueConfig,
};
use crate::event::Event;
use crate::rawlog;
use crate::rawlog::{rkind, RawLogError};
use crate::sink::RotatingRawLog;
use crate::span;
use crate::span::Span;
use crate::stats::VenueStats;
use vstd::prelude::*;
use vstd::string::*;

verus! {

/// Outcome of one established-connection session.
#[derive(Debug, Clone, Copy, PartialEq, Eq, Structural)]
pub enum SessionEnd {
    /// Shutdown was requested; the venue task exits cleanly.
    Shutdown,
    /// Connection died (close/error/idle/resync-by-reconnect); reconnect.
    Reconnect,
}

/// Why a connection is given up.
#[derive(Debug, Clone, Copy, PartialEq, Eq, Structural)]
pub enum Reason {
    /// A subscription could not be sent.
    SubscribeFailed,
    /// No frame arrived within the idle window.
    IdleTimeout,
    /// An instrument lost sync and no REST target can restore it: the venue
    /// re-delivers a full snapshot on subscribe.
    Resync,
    /// The venue announced that it will close the connection.
    VenueAdvisory,
    /// A ping could not be answered.
    PongFailed,
    /// The venue closed the connection.
    ServerClose,
    /// The transport failed.
    WebsocketError,
    /// The stream of messages ended.
    StreamEnd,
}

impl Reason {
    /// What this reason is called in the raw log.
    pub open spec fn name_spec(self) -> Seq<char> {
        match self {
            Reason::SubscribeFailed => "subscribe send failed"@,
            Reason::IdleTimeout => "idle timeout"@,
            Reason::Resync => "resync"@,
            Reason::VenueAdvisory => "venue-advisory"@,
            Reason::PongFailed => "pong send failed"@,
            Reason::ServerClose => "server close"@,
            Reason::WebsocketError => "websocket error"@,
            Reason::StreamEnd => "stream end"@,
        }
    }

    /// What this reason is called in the raw log.
    pub fn name(self) -> (r: &'static str)
        ensures
            r@ == self.name_spec(),
    {
        match self {
            Reason::SubscribeFailed => "subscribe send failed",
            Reason::IdleTimeout => "idle timeout",
            Reason::Resync => "resync",
            Reason::VenueAdvisory => "venue-advisory",
            Reason::PongFailed => "pong send failed",
            Reason::ServerClose => "server close",
            Reason::WebsocketError => "websocket error",
            Reason::StreamEnd => "stream end",
        }
    }

    /// The note that the raw log keeps of a connection given up.
    pub open spec fn note_spec(self) -> Seq<char> {
        if self == Reason::VenueAdvisory {
            "{\"event\":\"reconnect\",\"reason\":\""@ + self.name_spec() + "\"}"@
        } else {
            "{\"event\":\"disconnect\",\"reason\":\""@ + self.name_spec() + "\"}"@
        }
    }

    /// The note that the raw log keeps of a connection given up.
    pub fn note(self) -> (r: String)
        ensures
            r@ == self.note_spec(),
    {
        let mut out: String = if self == Reason::VenueAdvisory {
            "{\"event\":\"reconnect\",\"reason\":\"".to_owned()
        } else {
            "{\"event\":\"disconnect\",\"reason\":\"".to_owned()
        };
        out.append(self.name());
        out.append("\"}");
        out
    }
}

/// The note of a connection that was made.
pub open spec fn connect_note_spec(url: Seq<char>) -> Seq<char> {
    "{\"event\":\"connect\",\"url\":"@ + debug_quoted(url) + "}"@
}

/// The text `s` as `std` shows it for debugging: quoted and escaped.
pub uninterp spec fn debug_quoted(s: Seq<char>) -> Seq<char>;

/// `std::fmt::Debug` of a `str`: the text in quotes, with its escapes.
#[verifier::external_body]
fn debug_str(s: &str) -> (r: String)
    ensures
        r@ == debug_quoted(s@),
{
    format!("{s:?}")
}

/// The note of a connection that was made.
pub fn connect_note(url: &str) -> (r: String)
    ensures
        r@ == connect_note_spec(url@),
{
    let mut out: String = "{\"event\":\"connect\",\"url\":".to_owned();
    out.append(debug_str(url).as_str());
    out.append("}");
    out
}

/// The note of a connection that a requested shutdown ends.
pub fn shutdown_note() -> (r: &'static str)
    ensures
        r@ == "{\"event\":\"disconnect\",\"reason\":\"shutdown\"}"@,
{
    "{\"event\":\"disconnect\",\"reason\":\"shutdown\"}"
}

/// What to do after a frame.
#[derive(Debug, Clone, Copy, PartialEq, Eq, Structural)]
pub enum Step {
    /// Read on.
    Continue,
    /// Give the connection up.
    Reconnect(Reason),
}

/// What arrives that is no text frame.
#[derive(Debug, Clone, Copy, PartialEq, Eq, Structural)]
pub enum Arrival {
    /// A binary frame of so many bytes.
    Binary(u64),
    /// A ping, and whether it could be answered.
    Ping(bool),
    /// A pong or a raw frame.
    Pong,
    /// A close frame.
    Close,
    /// A transport error.
    Error,
    /// The end of the stream.
    End,
}

/// The counters after a frame of `len` bytes has arrived.
pub open spec fn with_frame(s: VenueStats, len: int) -> VenueStats {
    VenueStats { msgs: conn::wrap(s.msgs, 1), bytes: conn::wrap(s.bytes, len), ..s }
}

/// The counters after a connection has been given up.
pub open spec fn with_reconnect(s: VenueStats) -> VenueStats {
    VenueStats { reconnects: conn::wrap(s.reconnects, 1), ..s }
}

/// The counters after a resync has been asked for.
pub open spec fn with_resync(s: VenueStats) -> VenueStats {
    VenueStats { resyncs: conn::wrap(s.resyncs, 1), ..s }
}

/// The counters after a REST snapshot has been recorded.
pub open spec fn with_rest_snap(s: VenueStats) -> VenueStats {
    VenueStats { rest_snaps: conn::wrap(s.rest_snaps, 1), ..s }
}

/// What a signal comes to: the next step, the schedule and the counters.
pub open spec fn signalled(
    plan: RestPlan,
    now: u64,
    rest: sched::Schedule,
    stats: VenueStats,
    sig: Option<Signal>,
) -> (Step, sched::Schedule, VenueStats) {
    match sig {
        Some(Signal::NeedResync { instrument }) => match plan.target_from(instrument, 0) {
            Some(idx) => (Step::Continue, rest.asked(idx, now), with_resync(stats)),
            None => (Step::Reconnect(Reason::Resync), rest, with_reconnect(with_resync(stats))),
        },
        Some(Signal::Reconnect) => (
            Step::Reconnect(Reason::VenueAdvisory),
            rest,
            with_reconnect(stats),
        ),
        _ => (Step::Continue, rest, stats),
    }
}

/// What an arrival that is no text frame comes to: whether it shows that the
/// connection lives, and the reason to give it up, if it is one.
pub open spec fn arrived(a: Arrival) -> (bool, Option<Reason>) {
    match a {
        Arrival::Binary(_) => (true, None),
        Arrival::Ping(answered) => (
            true,
            if answered {
                None
            } else {
                Some(Reason::PongFailed)
            },
        ),
        Arrival::Pong => (true, None),
        Arrival::Close => (false, Some(Reason::ServerClose)),
        Arrival::Error => (false, Some(Reason::WebsocketError)),
        Arrival::End => (false, Some(Reason::StreamEnd)),
    }
}

/// One established connection.
#[derive(Debug)]
pub struct Session {
    /// Parse errors since the connection was made.
    pub parse_errors: u64,
    /// Frames parsed since the connection was made.
    pub frames_parsed: u64,
    /// When the last frame arrived.
    pub last_frame: u64,
    /// The REST schedule.
    pub rest: RestSched,
}

impl Session {
    /// The schedule is that of the plan's targets.
    pub open spec fn wf(self, plan: RestPlan) -> bool {
        self.rest@.wf() && self.rest@.due.len() == plan.targets@.len()
    }

    /// A connection made and subscribed at `now`.
    pub fn start(cfg: &VenueConfig, now: u64) -> (r: Self)
        ensures
            r.wf(cfg.rest),
            r.parse_errors == 0,
            r.frames_parsed == 0,
            r.last_frame == now,
            r.rest@ == sched::Schedule::fresh(cfg.rest, now),
    {
        Session { parse_errors: 0, frames_parsed: 0, last_frame: now, rest: RestSched::new(&cfg.rest, now) }
    }

    /// When the idle watchdog gives the connection up, unless a frame arrives.
    pub fn deadline(&self, cfg: &VenueConfig) -> (r: u64)
        ensures
            r == span::later_spec(self.last_frame, cfg.idle_timeout.nanos),
    {
        conn::idle_deadline(self.last_frame, cfg.idle_timeout)
    }

    /// Give the connection up: the reconnect is counted, and the note says
    /// why.
    pub fn give_up(reason: Reason, stats: &mut VenueStats) -> (r: String)
        ensures
            r@ == reason.note_spec(),
            *final(stats) == with_reconnect(*old(stats)),
    {
        stats.reconnects = stats.reconnects.wrapping_add(1);
        reason.note()
    }

    /// Act on the signal of a text frame, or of one that no path parsed. A
    /// lost instrument is fetched again at once; where the plan has no target
    /// for it, and where the venue asks for it, the connection is given up,
    /// which is counted.
    pub fn on_signal(
        &mut self,
        plan: &RestPlan,
        now: u64,
        sig: Option<Signal>,
        stats: &mut VenueStats,
    ) -> (r: Step)
        requires
            old(self).wf(*plan),
        ensures
            final(self).wf(*plan),
            (r, final(self).rest@, *final(stats)) == signalled(
                *plan,
                now,
                old(self).rest@,
                *old(stats),
                sig,
            ),
            final(self).parse_errors == old(self).parse_errors,
            final(self).frames_parsed == old(self).frames_parsed,
            final(self).last_frame == old(self).last_frame,
    {
        match sig {
            Some(Signal::NeedResync { instrument }) => {
                stats.resyncs = stats.resyncs.wrapping_add(1);
                match plan.target_of(instrument) {
                    Some(idx) => {
                        self.rest.ask(idx, now);
                        Step::Continue
                    },
                    None => {
                        stats.reconnects = stats.reconnects.wrapping_add(1);
                        Step::Reconnect(Reason::Resync)
                    },
                }
            },
            Some(Signal::Reconnect) => {
                stats.reconnects = stats.reconnects.wrapping_add(1);
                Step::Reconnect(Reason::VenueAdvisory)
            },
            _ => Step::Continue,
        }
    }

    /// What a text frame comes to, given what the parse-fallback policy made
    /// of it: `sig`, and the counts `t`.
    pub open spec fn text_step(
        self,
        plan: RestPlan,
        now: u64,
        sig: Option<Signal>,
        t: conn::Tally,
        out: Seq<Event>,
        post: Session,
        stats: VenueStats,
        r: Step,
    ) -> bool {
        &&& (r, post.rest@, stats) == signalled(
            plan,
            now,
            self.rest@,
            conn::accounted(t.stats, out),
            sig,
        )
        &&& post.parse_errors == t.session_parse_errors
        &&& post.frames_parsed == self.frames_parsed + if sig is Some {
            1int
        } else {
            0
        }
        &&& post.last_frame == now
    }

    /// A text frame has been counted and parsed, its events have been counted
    /// and its signal has been acted on: the codec `c0` has become `c1`, the
    /// session has become `post`, the counters `stats` have become
    /// `stats_post`, `out` are the events and `r` is the next step.
    pub open spec fn text_taken<C: VenueCodec>(
        self,
        c0: C,
        plan: RestPlan,
        payload: Seq<u8>,
        mono: u64,
        wall: u64,
        now: u64,
        stats: VenueStats,
        c1: C,
        post: Session,
        stats_post: VenueStats,
        out: Seq<Event>,
        r: Step,
    ) -> bool {
        exists|sig: Option<Signal>, t: conn::Tally|
            #![trigger self.text_step(plan, now, sig, t, out, post, stats_post, r)]
            conn::processed(
                c0,
                payload,
                mono,
                wall,
                Seq::empty(),
                (conn::Tally {
                    stats: with_frame(stats, payload.len() as int),
                    session_parse_errors: self.parse_errors,
                }),
                c1,
                out,
                t,
                sig,
            ) && self.text_step(plan, now, sig, t, out, post, stats_post, r)
    }

    /// A text frame that arrived at `now`: raw capture first, so that the
    /// frame stands in the raw log whatever parsing makes of it, and then what
    /// [`Session::on_text`] does. A frame that the log does not take is not
    /// parsed: nothing changes, and the error ends the session.
    pub fn capture_text<C: VenueCodec>(
        &mut self,
        log: &mut RotatingRawLog,
        codec: &mut C,
        plan: &RestPlan,
        payload: &[u8],
        mono: u64,
        wall: u64,
        now: u64,
        stats: &mut VenueStats,
        out: &mut Vec<Event>,
    ) -> (r: Result<Step, RawLogError>)
        requires
            old(log).can_take(payload@.len(), now),
            old(codec).wf(),
            old(self).wf(*plan),
            old(self).parse_errors < u64::MAX,
            old(self).frames_parsed < u64::MAX,
        ensures
            final(log).wf(),
            final(codec).wf(),
            final(self).wf(*plan),
            match r {
                Ok(step) => {
                    &&& payload@.len() <= rawlog::MAX_PAYLOAD
                    &&& final(log).took(
                        *old(log),
                        (rawlog::Record {
                            rkind: rkind::WS_TEXT,
                            recv_mono_ns: mono,
                            recv_wall_ns: wall,
                            payload: payload@,
                        }),
                    )
                    &&& old(self).text_taken(
                        *old(codec),
                        *plan,
                        payload@,
                        mono,
                        wall,
                        now,
                        *old(stats),
                        *final(codec),
                        *final(self),
                        *final(stats),
                        final(out)@,
                        step,
                    )
                },
                Err(e) => {
                    &&& payload@.len() > rawlog::MAX_PAYLOAD
                    &&& e == RawLogError::TooLarge
                    &&& *final(log) == *old(log)
                    &&& *final(codec) == *old(codec)
                    &&& *final(self) == *old(self)
                    &&& *final(stats) == *old(stats)
                    &&& final(out)@ == old(out)@
                },
            },
    {
        match log.append(rkind::WS_TEXT, mono, wall, payload, now) {
            Err(e) => Err(e),
            Ok(_) => Ok(self.on_text(codec, plan, payload, mono, wall, now, stats, out)),
        }
    }

    /// A text frame that arrived at `now` and stands in the raw log: count
    /// it, parse it, count its events and act on its signal.
    pub fn on_text<C: VenueCodec>(
        &mut self,
        codec: &mut C,
        plan: &RestPlan,
        payload: &[u8],
        mono: u64,
        wall: u64,
        now: u64,
        stats: &mut VenueStats,
        out: &mut Vec<Event>,
    ) -> (r: Step)
        requires
            old(codec).wf(),
            old(self).wf(*plan),
            old(self).parse_errors < u64::MAX,
            old(self).frames_parsed < u64::MAX,
        ensures
            final(codec).wf(),
            final(self).wf(*plan),
            old(self).text_taken(
                *old(codec),
                *plan,
                payload@,
                mono,
                wall,
                now,
                *old(stats),
                *final(codec),
                *final(self),
                *final(stats),
                final(out)@,
                r,
            ),
    {
        self.last_frame = now;
        stats.msgs = stats.msgs.wrapping_add(1);
        stats.bytes = stats.bytes.wrapping_add(payload.len() as u64);
        out.clear();
        let sig: Option<Signal> = process_payload(
            codec,
            payload,
            mono,
            wall,
            stats,
            &mut self.parse_errors,
            out,
        );
        let ghost t = conn::Tally { stats: *stats, session_parse_errors: self.parse_errors };
        if sig.is_some() {
            self.frames_parsed = self.frames_parsed + 1;
        }
        account_events(stats, out.as_slice());
        let r: Step = self.on_signal(plan, now, sig, stats);
        assert(old(self).text_step(*plan, now, sig, t, out@, *self, *stats, r));
        r
    }

    /// Anything else that arrived at `now`.
    pub fn on_arrival(&mut self, a: Arrival, now: u64, stats: &mut VenueStats) -> (r: Step)
        ensures
            match arrived(a).1 {
                Some(reason) => r == Step::Reconnect(reason) && *final(stats) == with_reconnect(
                    *old(stats),
                ),
                None => r == Step::Continue && *final(stats) == (match a {
                    Arrival::Binary(len) => with_frame(*old(stats), len as int),
                    _ => *old(stats),
                }),
            },
            final(self).last_frame == if arrived(a).0 {
                now
            } else {
                old(self).last_frame
            },
            final(self).rest == old(self).rest,
            final(self).parse_errors == old(self).parse_errors,
            final(self).frames_parsed == old(self).frames_parsed,
    {
        let reason: Reason = match a {
            Arrival::Binary(len) => {
                self.last_frame = now;
                stats.msgs = stats.msgs.wrapping_add(1);
                stats.bytes = stats.bytes.wrapping_add(len);
                return Step::Continue;
            },
            Arrival::Ping(answered) => {
                self.last_frame = now;
                if answered {
                    return Step::Continue;
                }
                Reason::PongFailed
            },
            Arrival::Pong => {
                self.last_frame = now;
                return Step::Continue;
            },
            Arrival::Close => Reason::ServerClose,
            Arrival::Error => Reason::WebsocketError,
            Arrival::End => Reason::StreamEnd,
        };
        stats.reconnects = stats.reconnects.wrapping_add(1);
        Step::Reconnect(reason)
    }

    /// What a recorded REST snapshot comes to, given what the codec made of
    /// its body: `res` and the events `out`.
    pub open spec fn snapshot_step(
        self,
        plan: RestPlan,
        idx: int,
        now: u64,
        stats: VenueStats,
        res: Result<Signal, CodecError>,
        out: Seq<Event>,
        post: Session,
        stats_post: VenueStats,
    ) -> bool {
        let s = with_rest_snap(stats);
        match res {
            Ok(Signal::NeedResync { .. }) => {
                &&& stats_post == with_resync(conn::accounted(s, out))
                &&& self.retries(idx, now, post)
            },
            Ok(_) => {
                &&& stats_post == conn::accounted(s, out)
                &&& post.rest@ == self.rest@.fetched(plan, idx, now)
            },
            Err(_) => {
                &&& stats_post == conn::with_parse_error(s)
                &&& self.retries(idx, now, post)
            },
        }
    }

    /// Target `idx` has failed at `now` and is retried with backoff.
    pub open spec fn retries(self, idx: int, now: u64, post: Session) -> bool {
        exists|delay: Span| #[trigger]
            sched::failure_delay(self.rest@.attempts[idx], delay) && post.rest@
                == self.rest@.failed(idx, now, delay)
    }

    /// The body of a REST snapshot of target `idx` that arrived: raw capture
    /// first, of the body in its envelope, and then what
    /// [`Session::on_snapshot`] does, whose result is the inner one. What the
    /// log does not take is not parsed: nothing changes, and the error ends
    /// the session.
    pub fn capture_snapshot<C: VenueCodec>(
        &mut self,
        log: &mut RotatingRawLog,
        codec: &mut C,
        plan: &RestPlan,
        idx: usize,
        body: &[u8],
        mono: u64,
        wall: u64,
        now: u64,
        stats: &mut VenueStats,
        out: &mut Vec<Event>,
    ) -> (r: Result<Result<Signal, CodecError>, RawLogError>)
        requires
            idx < plan.targets@.len(),
            old(log).can_take(rawlog::MAX_PAYLOAD as nat, now),
            old(codec).wf(),
            old(self).wf(*plan),
        ensures
            final(log).wf(),
            final(codec).wf(),
            final(self).wf(*plan),
            match r {
                Ok(res) => {
                    let env = plan.targets@[idx as int].enveloped(body@);
                    &&& env.len() <= rawlog::MAX_PAYLOAD
                    &&& final(log).took(
                        *old(log),
                        (rawlog::Record {
                            rkind: rkind::REST_SNAPSHOT,
                            recv_mono_ns: mono,
                            recv_wall_ns: wall,
                            payload: env,
                        }),
                    )
                    &&& old(codec).may_parse_rest(
                        plan.targets@[idx as int].instrument,
                        body@,
                        mono,
                        wall,
                        Seq::empty(),
                        *final(codec),
                        final(out)@,
                        res,
                    )
                    &&& old(self).snapshot_step(
                        *plan,
                        idx as int,
                        now,
                        *old(stats),
                        res,
                        final(out)@,
                        *final(self),
                        *final(stats),
                    )
                },
                Err(e) => {
                    &&& plan.targets@[idx as int].enveloped(body@).len() > rawlog::MAX_PAYLOAD
                    &&& e == RawLogError::TooLarge
                    &&& *final(log) == *old(log)
                    &&& *final(codec) == *old(codec)
                    &&& *final(self) == *old(self)
                    &&& *final(stats) == *old(stats)
                    &&& final(out)@ == old(out)@
                },
            },
            final(self).parse_errors == old(self).parse_errors,
            final(self).frames_parsed == old(self).frames_parsed,
            final(self).last_frame == old(self).last_frame,
    {
        let target: &RestTarget = &plan.targets[idx];
        let env: Vec<u8> = rest_envelope(
            target.instrument,
            target.venue_symbol.as_str(),
            target.url.as_str(),
            body,
        );
        if env.len() > rawlog::MAX_PAYLOAD {
            return Err(RawLogError::TooLarge);
        }
        match log.append(rkind::REST_SNAPSHOT, mono, wall, env.as_slice(), now) {
            Err(e) => Err(e),
            Ok(_) => Ok(self.on_snapshot(codec, plan, idx, body, mono, wall, now, stats, out)),
        }
    }

    /// A REST snapshot of target `idx` that arrived and stands in the raw
    /// log: count it, parse it and schedule the next. A body that does not
    /// parse, or that is unusable for sync (e.g. stale vs. the buffered diff
    /// stream), is fetched again with backoff instead of after a whole
    /// refresh period while diffs are dropped.
    pub fn on_snapshot<C: VenueCodec>(
        &mut self,
        codec: &mut C,
        plan: &RestPlan,
        idx: usize,
        body: &[u8],
        mono: u64,
        wall: u64,
        now: u64,
        stats: &mut VenueStats,
        out: &mut Vec<Event>,
    ) -> (r: Result<Signal, CodecError>)
        requires
            old(codec).wf(),
            old(self).wf(*plan),
            idx < plan.targets@.len(),
        ensures
            final(codec).wf(),
            final(self).wf(*plan),
            old(codec).may_parse_rest(
                plan.targets@[idx as int].instrument,
                body@,
                mono,
                wall,
                Seq::empty(),
                *final(codec),
                final(out)@,
                r,
            ),
            old(self).snapshot_step(
                *plan,
                idx as int,
                now,
                *old(stats),
                r,
                final(out)@,
                *final(self),
                *final(stats),
            ),
            final(self).parse_errors == old(self).parse_errors,
            final(self).frames_parsed == old(self).frames_parsed,
            final(self).last_frame == old(self).last_frame,
    {
        let instrument: u32 = plan.targets[idx].instrument;
        stats.rest_snaps = stats.rest_snaps.wrapping_add(1);
        out.clear();
        let res: Result<Signal, CodecError> = codec.parse_rest_snapshot(
            instrument,
            body,
            mono,
            wall,
            out,
        );
        match res {
            Ok(Signal::NeedResync { .. }) => {
                account_events(stats, out.as_slice());
                stats.resyncs = stats.resyncs.wrapping_add(1);
                self.rest.fail(idx, now);
            },
            Ok(_) => {
                account_events(stats, out.as_slice());
                self.rest.succeed(plan, idx, now);
            },
            Err(_) => {
                stats.parse_errors = stats.parse_errors.wrapping_add(1);
                self.rest.fail(idx, now);
            },
        }
        res
    }
}

/// How often connecting has failed since a session last proved healthy.
#[derive(Debug, Clone, Copy, PartialEq, Eq, Structural)]
pub struct Retry {
    /// The number of the next attempt, from 0.
    pub attempt: u32,
}

impl Retry {
    /// Nothing has failed yet.
    pub fn new() -> (r: Self)
        ensures
            r.attempt == 0,
    {
        Retry { attempt: 0 }
    }

    /// A connection attempt failed (a timed-out handshake is a failed attempt
    /// like any other). Returns how long to wait.
    pub fn connect_failed(&mut self, cfg: &VenueConfig) -> (r: Span)
        ensures
            conn::is_backoff(old(self).attempt, cfg.backoff_floor, cfg.backoff_cap, r),
            final(self).attempt == sched::one_more(old(self).attempt),
    {
        let delay: Span = next_backoff(self.attempt, cfg.backoff_floor, cfg.backoff_cap);
        if self.attempt < u32::MAX {
            self.attempt = self.attempt + 1;
        }
        delay
    }

    /// A session of `frames_parsed` frames and this duration is over. The
    /// backoff counter is reset only once a session has proven healthy; an
    /// accept-then-drop venue keeps escalating. Returns how long to wait.
    pub fn session_over(
        &mut self,
        cfg: &VenueConfig,
        duration: Span,
        frames_parsed: u64,
    ) -> (r: Span)
        ensures
            if conn::healthy(duration, frames_parsed) {
                &&& conn::is_backoff(0, cfg.backoff_floor, cfg.backoff_cap, r)
                &&& final(self).attempt == 0
            } else {
                &&& conn::is_backoff(old(self).attempt, cfg.backoff_floor, cfg.backoff_cap, r)
                &&& final(self).attempt == sched::one_more(old(self).attempt)
            },
    {
        if session_healthy(duration, frames_parsed) {
            self.attempt = 0;
            next_backoff(0, cfg.backoff_floor, cfg.backoff_cap)
        } else {
            self.connect_failed(cfg)
        }
    }
}

} // verus!
