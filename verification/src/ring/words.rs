//! An event as the eight 64-bit words of its wire form.
use crate::event::Event;
use vstd::prelude::*;

verus! {

/// The last word of an event: its instrument, kind, venue, flags and reserved
/// byte, lowest first.
pub open spec fn tail_word(e: Event) -> u64 {
    (e.instrument as u64) | ((e.kind as u64) << 32u64) | ((e.venue as u64) << 40u64) | ((
    e.flags as u64) << 48u64) | ((e.rsvd as u64) << 56u64)
}

/// The words of an event.
pub open spec fn words_of(e: Event) -> Seq<u64> {
    seq![
        e.recv_mono_ns,
        e.recv_wall_ns,
        e.venue_ts_ns,
        e.venue_seq,
        e.price as u64,
        e.qty as u64,
        e.aux,
        tail_word(e),
    ]
}

/// The event whose words are `w`.
pub open spec fn event_of(w: Seq<u64>) -> Event {
    Event {
        recv_mono_ns: w[0],
        recv_wall_ns: w[1],
        venue_ts_ns: w[2],
        venue_seq: w[3],
        price: w[4] as i64,
        qty: w[5] as i64,
        aux: w[6],
        instrument: (w[7] & 0xffff_ffff) as u32,
        kind: ((w[7] >> 32u64) & 0xff) as u8,
        venue: ((w[7] >> 40u64) & 0xff) as u8,
        flags: ((w[7] >> 48u64) & 0xff) as u8,
        rsvd: ((w[7] >> 56u64) & 0xff) as u8,
    }
}

/// An event comes back from its words.
pub proof fn lemma_words_roundtrip(e: Event)
    ensures
        event_of(words_of(e)) == e,
{
    let (p, q): (i64, i64) = (e.price, e.qty);
    assert((p as u64) as i64 == p) by (bit_vector);
    assert((q as u64) as i64 == q) by (bit_vector);
    let (i, k, v, f, r): (u32, u8, u8, u8, u8) = (e.instrument, e.kind, e.venue, e.flags, e.rsvd);
    let t: u64 = (i as u64) | ((k as u64) << 32u64) | ((v as u64) << 40u64) | ((f as u64) << 48u64)
        | ((r as u64) << 56u64);
    assert((t & 0xffff_ffff) as u32 == i && ((t >> 32u64) & 0xff) as u8 == k && ((t >> 40u64)
        & 0xff) as u8 == v && ((t >> 48u64) & 0xff) as u8 == f && ((t >> 56u64) & 0xff) as u8 == r)
        by (bit_vector)
        requires
            t == (i as u64) | ((k as u64) << 32u64) | ((v as u64) << 40u64) | ((f as u64) << 48u64)
                | ((r as u64) << 56u64),
    ;
    assert(event_of(words_of(e)) == e);
}

/// The words of an event.
pub fn to_words(e: &Event) -> (r: [u64; 8])
    ensures
        r@ == words_of(*e),
{
    let tail: u64 = (e.instrument as u64) | ((e.kind as u64) << 32u64) | ((e.venue as u64)
        << 40u64) | ((e.flags as u64) << 48u64) | ((e.rsvd as u64) << 56u64);
    [
        e.recv_mono_ns,
        e.recv_wall_ns,
        e.venue_ts_ns,
        e.venue_seq,
        e.price as u64,
        e.qty as u64,
        e.aux,
        tail,
    ]
}

/// The event whose words are `w`.
pub fn to_event(w: &[u64; 8]) -> (r: Event)
    ensures
        r == event_of(w@),
{
    Event {
        recv_mono_ns: w[0],
        recv_wall_ns: w[1],
        venue_ts_ns: w[2],
        venue_seq: w[3],
        price: w[4] as i64,
        qty: w[5] as i64,
        aux: w[6],
        instrument: (w[7] & 0xffff_ffff) as u32,
        kind: ((w[7] >> 32u64) & 0xff) as u8,
        venue: ((w[7] >> 40u64) & 0xff) as u8,
        flags: ((w[7] >> 48u64) & 0xff) as u8,
        rsvd: ((w[7] >> 56u64) & 0xff) as u8,
    }
}

} // verus!
