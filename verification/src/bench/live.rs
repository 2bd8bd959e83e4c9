//! The live half of the end-to-end benchmark: which instrument a venue is
//! measured on, how its frames are parsed and counted, and how a subscriber
//! matches events to the stamps of their frames.
use crate::bench::e2e;
use crate::codec::{CodecError, Signal, VenueCodec};
use crate::conn;
use crate::event::flags;
use crate::event::{Event, Venue};
use crate::instrument;
use crate::instrument::{InstrumentMeta, Registry};
use crate::json::same_str;
use crate::ring::trace;
use crate::ring::Producer;
use std::collections::HashMap;
use vstd::prelude::*;
use vstd::string::*;

verus! {

broadcast use vstd::std_specs::hash::group_hash_axioms;

/// The first instrument of `venue` called `<base>-USD`, from place `k` on.
pub open spec fn instrument_from(
    t: Seq<instrument::Meta>,
    venue: Venue,
    base: Seq<char>,
    k: int,
) -> Option<(Seq<char>, u32)>
    decreases t.len() - k,
{
    if !(0 <= k < t.len()) {
        None
    } else if t[k].venue == venue && t[k].canonical == base + "-USD"@ {
        Some((t[k].symbol, t[k].id))
    } else {
        instrument_from(t, venue, base, k + 1)
    }
}

/// The instrument for `venue` from a registry: `(venue_symbol,
/// instrument_id)` for canonical `<base>-USD`.
pub fn venue_instrument(reg: &Registry, venue: Venue, base: &str) -> (r: Option<(String, u32)>)
    ensures
        match r {
            Some(x) => instrument_from(reg@, venue, base@, 0) == Some((x.0@, x.1)),
            None => instrument_from(reg@, venue, base@, 0) is None,
        },
{
    let mut canonical: String = base.to_owned();
    canonical.append("-USD");
    let all: &[InstrumentMeta] = reg.all();
    let mut i: usize = 0;
    while i < all.len()
        invariant
            i <= all@.len(),
            reg@ == instrument::metas_view(all@),
            canonical@ == base@ + "-USD"@,
            instrument_from(reg@, venue, base@, 0) == instrument_from(
                reg@,
                venue,
                base@,
                i as int,
            ),
        decreases all@.len() - i,
    {
        let m: &InstrumentMeta = &all[i];
        assert(reg@[i as int] == m@);
        if m.venue == venue && same_str(m.canonical.as_str(), canonical.as_str()) {
            return Some((m.venue_symbol.as_str().to_owned(), m.id));
        }
        i += 1;
    }
    None
}

/// Counters for one venue in live mode. They wrap.
#[derive(Debug, Clone, Copy, PartialEq, Eq, Structural)]
pub struct LiveCounts {
    /// Frames that used the reference fallback.
    pub fallbacks: u64,
    /// Frames neither parse path accepted.
    pub parse_errors: u64,
    /// Resync/reconnect signals from the codec.
    pub resync_signals: u64,
}

impl LiveCounts {
    /// Nothing counted.
    pub open spec fn zero() -> LiveCounts {
        LiveCounts { fallbacks: 0, parse_errors: 0, resync_signals: 0 }
    }

    /// A frame that was parsed, after a fallback or not.
    pub open spec fn parsed(self, sig: Signal, fell_back: bool) -> LiveCounts {
        LiveCounts {
            fallbacks: if fell_back {
                conn::wrap(self.fallbacks, 1)
            } else {
                self.fallbacks
            },
            resync_signals: if sig is NeedResync || sig is Reconnect {
                conn::wrap(self.resync_signals, 1)
            } else {
                self.resync_signals
            },
            ..self
        }
    }

    /// A frame that was not parsed.
    pub open spec fn refused(self) -> LiveCounts {
        LiveCounts { parse_errors: conn::wrap(self.parse_errors, 1), ..self }
    }
}

impl Default for LiveCounts {
    fn default() -> (r: Self)
        ensures
            r == LiveCounts::zero(),
    {
        LiveCounts { fallbacks: 0, parse_errors: 0, resync_signals: 0 }
    }
}

/// A frame on the live path: the codec `c0` becomes `c1`, the buffer `before`
/// becomes `after`, the counters `o0` become `o1`, and `ok` says whether the
/// frame parsed.
pub open spec fn live_parsed<C: VenueCodec>(
    c0: C,
    payload: Seq<u8>,
    mono: u64,
    wall: u64,
    before: Seq<Event>,
    o0: LiveCounts,
    c1: C,
    after: Seq<Event>,
    o1: LiveCounts,
    ok: bool,
) -> bool {
    exists|m: C, fo: Seq<Event>, fast: Result<Signal, CodecError>| #[trigger]
        c0.may_parse(payload, mono, wall, before, m, fo, fast) && match fast {
            Ok(sig) => c1 == m && after == fo && ok && o1 == o0.parsed(sig, false),
            Err(CodecError::Structure(_)) => exists|
                so: Seq<Event>,
                slow: Result<Signal, CodecError>,
            | #[trigger]
                m.may_parse_slow(payload, mono, wall, before, c1, so, slow) && match slow {
                    Ok(sig) => after == so && ok && o1 == o0.parsed(sig, true),
                    Err(_) => after == before && !ok && o1 == o0.refused(),
                },
            Err(_) => c1 == m && after == before && !ok && o1 == o0.refused(),
        }
}

/// Fast-path parse with the production fallback policy (retry `Structure`
/// errors via `parse_slow`). Returns whether the frame parsed; failed
/// frames leave `out` unchanged.
pub fn parse_with_fallback<C: VenueCodec>(
    codec: &mut C,
    payload: &[u8],
    t0_mono: u64,
    t0_wall: u64,
    out: &mut Vec<Event>,
    o: &mut LiveCounts,
) -> (r: bool)
    requires
        old(codec).wf(),
    ensures
        final(codec).wf(),
        !r ==> final(out)@ == old(out)@,
        live_parsed(
            *old(codec),
            payload@,
            t0_mono,
            t0_wall,
            old(out)@,
            *old(o),
            *final(codec),
            final(out)@,
            *final(o),
            r,
        ),
{
    let base: usize = out.len();
    let ghost c0 = *codec;
    let ghost before = out@;
    let fast: Result<Signal, CodecError> = codec.parse(payload, t0_mono, t0_wall, out);
    let ghost m = *codec;
    assert(c0.may_parse(payload@, t0_mono, t0_wall, before, m, out@, fast));
    let sig: Option<Signal> = match fast {
        Ok(sig) => Some(sig),
        Err(CodecError::Structure(_)) => {
            out.truncate(base);
            assert(out@ =~= before);
            let slow: Result<Signal, CodecError> = codec.parse_slow(
                payload,
                t0_mono,
                t0_wall,
                out,
            );
            assert(m.may_parse_slow(payload@, t0_mono, t0_wall, before, *codec, out@, slow));
            match slow {
                Ok(sig) => {
                    o.fallbacks = o.fallbacks.wrapping_add(1);
                    Some(sig)
                },
                Err(_) => None,
            }
        },
        Err(_) => None,
    };
    match sig {
        Some(s) => {
            match s {
                Signal::NeedResync { .. } => {
                    o.resync_signals = o.resync_signals.wrapping_add(1);
                },
                Signal::Reconnect => {
                    o.resync_signals = o.resync_signals.wrapping_add(1);
                },
                _ => {},
            }
            true
        },
        None => {
            out.truncate(base);
            assert(out@ =~= before);
            o.parse_errors = o.parse_errors.wrapping_add(1);
            false
        },
    }
}

/// The first venue timestamp among a frame's events, from place `k` on.
pub open spec fn stamp_from(evs: Seq<Event>, k: int) -> Option<u64>
    decreases evs.len() - k,
{
    if !(0 <= k < evs.len()) {
        None
    } else if evs[k].venue_ts_ns > 0 {
        Some(evs[k].venue_ts_ns)
    } else {
        stamp_from(evs, k + 1)
    }
}

/// The first venue timestamp among a frame's events.
pub fn venue_stamp(evs: &[Event]) -> (r: Option<u64>)
    ensures
        r == stamp_from(evs@, 0),
{
    let mut i: usize = 0;
    while i < evs.len()
        invariant
            i <= evs@.len(),
            stamp_from(evs@, 0) == stamp_from(evs@, i as int),
        decreases evs@.len() - i,
    {
        if evs[i].venue_ts_ns > 0 {
            return Some(evs[i].venue_ts_ns);
        }
        i += 1;
    }
    None
}

/// What a ring subscriber measures. Events are matched to the stamps of their
/// frame by the time at which the frame was received.
pub struct SubStats {
    /// Dequeue minus publish, ns.
    pub deliver: Vec<u64>,
    /// Dequeue minus receipt, ns.
    pub total_added: Vec<u64>,
    /// `deliver` restricted to events without `FROM_SNAPSHOT`: the initial
    /// full-book snapshot is one huge frame whose sequential drain would
    /// otherwise dominate event-weighted percentiles on short windows.
    pub deliver_steady: Vec<u64>,
    /// `total_added` restricted to non-snapshot events.
    pub total_steady: Vec<u64>,
    /// Events lost to ring overwrite.
    pub lagged_lost: u64,
    /// Events with no matching frame stamp within the grace window.
    pub unmatched: u64,
    stamps: HashMap<u64, u64>,
}

/// What a subscriber has measured.
#[verifier::ext_equal]
pub struct Measured {
    pub deliver: Seq<u64>,
    pub total_added: Seq<u64>,
    pub deliver_steady: Seq<u64>,
    pub total_steady: Seq<u64>,
    pub lagged_lost: u64,
    pub unmatched: u64,
    pub stamps: Map<u64, u64>,
}

/// The time from `a` to `b`; none where `b` is earlier.
pub open spec fn since(b: u64, a: u64) -> u64 {
    if b >= a {
        (b - a) as u64
    } else {
        0
    }
}

/// The event is not part of a snapshot.
pub open spec fn is_steady(e: Event) -> bool {
    e.flags & flags::FROM_SNAPSHOT == 0
}

impl Measured {
    /// An event is dequeued at `t3`.
    pub open spec fn dequeued(self, e: Event, t3: u64) -> Measured {
        let total = since(t3, e.recv_mono_ns);
        Measured {
            total_added: self.total_added.push(total),
            total_steady: if is_steady(e) {
                self.total_steady.push(total)
            } else {
                self.total_steady
            },
            ..self
        }
    }

    /// The publish stamp of the event is known, or the wait for it is over.
    pub open spec fn settled(self, e: Event, t3: u64) -> Measured {
        if self.stamps.contains_key(e.recv_mono_ns) {
            let d = since(t3, self.stamps[e.recv_mono_ns]);
            Measured {
                deliver: self.deliver.push(d),
                deliver_steady: if is_steady(e) {
                    self.deliver_steady.push(d)
                } else {
                    self.deliver_steady
                },
                ..self
            }
        } else {
            Measured { unmatched: conn::wrap(self.unmatched, 1), ..self }
        }
    }
}

impl SubStats {
    /// What has been measured.
    pub closed spec fn measured(&self) -> Measured {
        Measured {
            deliver: self.deliver@,
            total_added: self.total_added@,
            deliver_steady: self.deliver_steady@,
            total_steady: self.total_steady@,
            lagged_lost: self.lagged_lost,
            unmatched: self.unmatched,
            stamps: self.stamps@,
        }
    }

    /// Nothing measured yet.
    pub fn new() -> (r: Self)
        ensures
            r.measured() == (Measured {
                deliver: Seq::empty(),
                total_added: Seq::empty(),
                deliver_steady: Seq::empty(),
                total_steady: Seq::empty(),
                lagged_lost: 0,
                unmatched: 0,
                stamps: Map::empty(),
            }),
    {
        SubStats {
            deliver: Vec::new(),
            total_added: Vec::new(),
            deliver_steady: Vec::new(),
            total_steady: Vec::new(),
            lagged_lost: 0,
            unmatched: 0,
            stamps: HashMap::new(),
        }
    }

    /// The events of the frame received at `t0` were published by `t2`.
    pub fn stamp(&mut self, t0: u64, t2: u64)
        ensures
            final(self).measured() == (Measured {
                stamps: old(self).measured().stamps.insert(t0, t2),
                ..old(self).measured()
            }),
    {
        self.stamps.insert(t0, t2);
    }

    /// True if the publish stamp of the event is known.
    pub fn knows(&self, e: &Event) -> (r: bool)
        ensures
            r == self.measured().stamps.contains_key(e.recv_mono_ns),
    {
        self.stamps.contains_key(&e.recv_mono_ns)
    }

    /// An event is dequeued at `t3`.
    pub fn dequeue(&mut self, e: &Event, t3: u64)
        ensures
            final(self).measured() == old(self).measured().dequeued(*e, t3),
    {
        let total: u64 = if t3 >= e.recv_mono_ns {
            t3 - e.recv_mono_ns
        } else {
            0
        };
        self.total_added.push(total);
        if e.flags & flags::FROM_SNAPSHOT == 0 {
            self.total_steady.push(total);
        }
        assert(self.measured() =~= old(self).measured().dequeued(*e, t3));
    }

    /// The publish stamp of the event is known, or the wait for it is over.
    pub fn settle(&mut self, e: &Event, t3: u64)
        ensures
            final(self).measured() == old(self).measured().settled(*e, t3),
    {
        let sent: Option<u64> = match self.stamps.get(&e.recv_mono_ns) {
            Some(t2) => Some(*t2),
            None => None,
        };
        match sent {
            Some(t2) => {
                let d: u64 = if t3 >= t2 {
                    t3 - t2
                } else {
                    0
                };
                self.deliver.push(d);
                if e.flags & flags::FROM_SNAPSHOT == 0 {
                    self.deliver_steady.push(d);
                }
            },
            None => {
                self.unmatched = self.unmatched.wrapping_add(1);
            },
        }
        assert(self.measured() =~= old(self).measured().settled(*e, t3));
    }

    /// The ring overwrote `lost` events before they were dequeued.
    pub fn lag(&mut self, lost: u64)
        ensures
            final(self).measured() == (Measured {
                lagged_lost: conn::wrap(old(self).measured().lagged_lost, lost as int),
                ..old(self).measured()
            }),
    {
        self.lagged_lost = self.lagged_lost.wrapping_add(lost);
    }
}

/// Publish the events of a frame, in order.
pub fn publish_all(p: &mut Producer, evs: &[Event])
    requires
        old(p).wf(),
        old(p).count() + evs@.len() < u64::MAX,
    ensures
        final(p).wf(),
        final(p).cap() == old(p).cap(),
        final(p).shift() == old(p).shift(),
        final(p).shared() == old(p).shared(),
        final(p).count() == old(p).count() + evs@.len(),
        final(p).events() == old(p).events() + evs@,
        final(p).stored() == trace::publications(old(p).events() + evs@, old(p).shift()),
{
    let n: usize = evs.len();
    let mut i: usize = 0;
    assert(old(p).events() + evs@.take(0) =~= old(p).events());
    while i < n
        invariant
            i <= n,
            n == evs@.len(),
            p.wf(),
            p.cap() == old(p).cap(),
            p.shift() == old(p).shift(),
            p.shared() == old(p).shared(),
            p.count() == old(p).count() + i,
            p.events() == old(p).events() + evs@.take(i as int),
            old(p).count() + n < u64::MAX,
        decreases n - i,
    {
        let _ = p.publish(&evs[i]);
        assert(p.events() =~= old(p).events() + evs@.take(i + 1));
        i += 1;
    }
    assert(evs@.take(n as int) =~= evs@);
    proof {
        p.lemma_stored();
    }
}

/// What the read loop of a venue measures.
#[derive(Debug)]
pub struct ReadStats {
    /// Frames successfully parsed.
    pub frames: u64,
    /// Events emitted (== events published to the ring).
    pub events: u64,
    /// Receipt to parsed, per parsed frame, ns.
    pub parse: Vec<u64>,
    /// Parsed to published, per event-emitting frame, ns.
    pub publish: Vec<u64>,
    /// Receive wall time minus venue time, per venue-stamped frame, ns.
    pub venue_path: Vec<u64>,
    /// Samples clamped to 0 (venue clock ahead of local wall).
    pub venue_path_clamped: u64,
    /// Ping RTTs, ns.
    pub rtt: Vec<u64>,
}

/// What a read loop has measured.
#[verifier::ext_equal]
pub struct Reading {
    pub frames: u64,
    pub events: u64,
    pub parse: Seq<u64>,
    pub publish: Seq<u64>,
    pub venue_path: Seq<u64>,
    pub clamped: u64,
    pub rtt: Seq<u64>,
}

impl Reading {
    /// A frame received at `t0` was looked at by `t1`: it is counted and
    /// timed if it could be parsed.
    pub open spec fn parsed(self, ok: bool, t0: u64, t1: u64) -> Reading {
        if ok {
            Reading {
                frames: conn::wrap(self.frames, 1),
                parse: self.parse.push(since(t1, t0)),
                ..self
            }
        } else {
            self
        }
    }

    /// The events of a frame received at the wall time `wall` and parsed by
    /// `t1` were published by `t2`: nothing is counted of a frame without
    /// events, and only a frame with a venue timestamp shows the way from the
    /// venue.
    pub open spec fn published(self, evs: Seq<Event>, wall: u64, t1: u64, t2: u64) -> Reading {
        if evs.len() == 0 {
            self
        } else {
            let s = Reading {
                events: conn::wrap(self.events, evs.len() as int),
                publish: self.publish.push(since(t2, t1)),
                ..self
            };
            match stamp_from(evs, 0) {
                None => s,
                Some(vts) => Reading {
                    venue_path: s.venue_path.push(since(wall, vts)),
                    clamped: if wall < vts {
                        conn::wrap(s.clamped, 1)
                    } else {
                        s.clamped
                    },
                    ..s
                },
            }
        }
    }

    /// A pong came in at `now`: it is timed if it echoes a ping.
    pub open spec fn ponged(self, payload: Seq<u8>, now: u64) -> Reading {
        match e2e::rtt_of(payload, now) {
            None => self,
            Some(rtt) => Reading { rtt: self.rtt.push(rtt), ..self },
        }
    }
}

impl ReadStats {
    /// What has been measured.
    pub open spec fn reading(&self) -> Reading {
        Reading {
            frames: self.frames,
            events: self.events,
            parse: self.parse@,
            publish: self.publish@,
            venue_path: self.venue_path@,
            clamped: self.venue_path_clamped,
            rtt: self.rtt@,
        }
    }

    /// Nothing measured yet.
    pub fn new() -> (r: Self)
        ensures
            r.reading() == (Reading {
                frames: 0,
                events: 0,
                parse: Seq::empty(),
                publish: Seq::empty(),
                venue_path: Seq::empty(),
                clamped: 0,
                rtt: Seq::empty(),
            }),
    {
        ReadStats {
            frames: 0,
            events: 0,
            parse: Vec::new(),
            publish: Vec::new(),
            venue_path: Vec::new(),
            venue_path_clamped: 0,
            rtt: Vec::new(),
        }
    }

    /// A frame received at `t0` was looked at by `t1`.
    pub fn on_parsed(&mut self, ok: bool, t0: u64, t1: u64)
        ensures
            final(self).reading() == old(self).reading().parsed(ok, t0, t1),
    {
        if ok {
            self.frames = self.frames.wrapping_add(1);
            self.parse.push(
                if t1 >= t0 {
                    t1 - t0
                } else {
                    0
                },
            );
        }
        assert(self.reading() =~= old(self).reading().parsed(ok, t0, t1));
    }

    /// The events of a frame received at the wall time `wall` and parsed by
    /// `t1` were published by `t2`.
    pub fn on_published(&mut self, evs: &[Event], wall: u64, t1: u64, t2: u64)
        ensures
            final(self).reading() == old(self).reading().published(evs@, wall, t1, t2),
    {
        if evs.len() > 0 {
            self.events = self.events.wrapping_add(evs.len() as u64);
            self.publish.push(
                if t2 >= t1 {
                    t2 - t1
                } else {
                    0
                },
            );
            match venue_stamp(evs) {
                None => {},
                Some(vts) => {
                    let (sample, clamped): (u64, bool) = e2e::venue_path_sample(wall, vts);
                    self.venue_path.push(sample);
                    if clamped {
                        self.venue_path_clamped = self.venue_path_clamped.wrapping_add(1);
                    }
                },
            }
        }
        assert(self.reading() =~= old(self).reading().published(evs@, wall, t1, t2));
    }

    /// A pong came in at `now`.
    pub fn on_pong(&mut self, payload: &[u8], now: u64)
        ensures
            final(self).reading() == old(self).reading().ponged(payload@, now),
    {
        match e2e::rtt_from_pong(payload, now) {
            None => {},
            Some(rtt) => {
                self.rtt.push(rtt);
            },
        }
        assert(self.reading() =~= old(self).reading().ponged(payload@, now));
    }
}

} // verus!
