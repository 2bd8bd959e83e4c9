//! The grammar of the Binance messages that the fast path reads, and the
//! readers for it.
use super::msg;
use super::msg::{DiffHead, Msg, TradeMsg};
use crate::codec;
use crate::codec::{CodecError, SymbolTable};
use crate::emit;
use crate::emit::Stamp;
use crate::event::{Event, EventKind};
use crate::scan;
use crate::scan::Cursor;
use memchr::memmem::Finder;
use vstd::prelude::*;

verus! {

/// The unsigned integer behind the first `key` from `i` on, which a comma or
/// a closing brace has to follow.
pub open spec fn key_u64_at(
    b: Seq<u8>,
    i: int,
    key: Seq<u8>,
    missing: &'static str,
    what: &'static str,
) -> Result<(u64, int), CodecError> {
    match scan::past(b, i, key) {
        None => Err(CodecError::Structure(missing)),
        Some(j) => match scan::u64_at(b, j) {
            (Some(v), k) if scan::byte_at(b, k, 0x2c) || scan::byte_at(b, k, 0x7d) => Ok((v, k)),
            _ => Err(CodecError::Structure(what)),
        },
    }
}

/// The string behind the first `key` from `i` on.
pub open spec fn key_str_at(
    b: Seq<u8>,
    i: int,
    key: Seq<u8>,
    missing: &'static str,
    what: &'static str,
) -> Result<(Seq<u8>, int), CodecError> {
    match scan::past(b, i, key) {
        None => Err(CodecError::Structure(missing)),
        Some(j) => match scan::str_at(b, j) {
            None => Err(CodecError::Structure(what)),
            Some(s) => Ok(s),
        },
    }
}

/// The level `["price","qty"]` at `i`.
#[verifier::opaque]
pub open spec fn level_at(b: Seq<u8>, i: int) -> Result<((i64, i64), int), CodecError> {
    if !scan::byte_at(b, i, 0x5b) {
        Err(CodecError::Structure("level: expected ["))
    } else {
        match scan::str_at(b, i + 1) {
            None => Err(CodecError::Structure("level: price")),
            Some((p, j)) => if !scan::byte_at(b, j, 0x2c) {
                Err(CodecError::Structure("level: expected ,"))
            } else {
                match scan::str_at(b, j + 1) {
                    None => Err(CodecError::Structure("level: qty")),
                    Some((q, k)) => if !scan::byte_at(b, k, 0x5d) {
                        Err(CodecError::Structure("level: expected ]"))
                    } else {
                        match codec::fixed_pair_spec(p, q) {
                            Err(e) => Err(e),
                            Ok(l) => Ok((l, k + 1)),
                        }
                    },
                }
            },
        }
    }
}

/// A level takes some bytes of the payload.
pub proof fn lemma_level_at(b: Seq<u8>, i: int)
    ensures
        level_at(b, i) matches Ok(x) ==> 0 <= i && i < x.1 <= b.len(),
{
    reveal(level_at);
    scan::lemma_str_at(b, i + 1);
    if let Some((p, j)) = scan::str_at(b, i + 1) {
        scan::lemma_str_at(b, j + 1);
    }
}

/// The rest of the levels from `i` on, behind the levels `acc`, and the
/// offset behind the closing bracket.
pub open spec fn levels_at(b: Seq<u8>, i: int, acc: Seq<(i64, i64)>) -> Result<
    (Seq<(i64, i64)>, int),
    CodecError,
>
    decreases b.len() - i,
{
    match level_at(b, i) {
        Err(e) => Err(e),
        Ok((l, j)) => if scan::byte_at(b, j, 0x2c) {
            proof {
                lemma_level_at(b, i);
            }
            levels_at(b, j + 1, acc.push(l))
        } else if scan::byte_at(b, j, 0x5d) {
            Ok((acc.push(l), j + 1))
        } else {
            Err(CodecError::Structure("level: expected , or ]"))
        },
    }
}

/// The level array from behind its opening bracket on.
pub open spec fn level_array_at(b: Seq<u8>, i: int) -> Result<(Seq<(i64, i64)>, int), CodecError> {
    if scan::byte_at(b, i, 0x5d) {
        Ok((Seq::empty(), i + 1))
    } else {
        levels_at(b, i, Seq::empty())
    }
}

/// The levels behind the first `key` from `i` on.
pub open spec fn key_levels_at(b: Seq<u8>, i: int, key: Seq<u8>, missing: &'static str) -> Result<
    (Seq<(i64, i64)>, int),
    CodecError,
> {
    match scan::past(b, i, key) {
        None => Err(CodecError::Structure(missing)),
        Some(j) => level_array_at(b, j),
    }
}

/// The header of a depth diff, from `i` on.
#[verifier::opaque]
pub open spec fn diff_head_at(b: Seq<u8>, i: int, table: Seq<(Seq<u8>, u32)>) -> Result<
    (DiffHead, int),
    CodecError,
> {
    match key_u64_at(b, i, codec::lit("\"E\":"), "depth: no E", "depth: E") {
        Err(e) => Err(e),
        Ok((e_ms, i)) => match key_str_at(b, i, codec::lit("\"s\":"), "depth: no s", "depth: s") {
            Err(e) => Err(e),
            Ok((sym, i)) => match codec::lookup_in(table, sym) {
                None => Err(CodecError::UnknownInstrument),
                Some(instrument) => match key_u64_at(
                    b,
                    i,
                    codec::lit("\"U\":"),
                    "depth: no U",
                    "depth: U",
                ) {
                    Err(e) => Err(e),
                    Ok((first_u, i)) => match key_u64_at(
                        b,
                        i,
                        codec::lit("\"u\":"),
                        "depth: no u",
                        "depth: u",
                    ) {
                        Err(e) => Err(e),
                        Ok((final_u, i)) => Ok(
                            (
                                DiffHead { instrument, first_u, final_u, ts: msg::ms_to_ns(e_ms) },
                                i,
                            ),
                        ),
                    },
                },
            },
        },
    }
}

/// The depth diff that stands from `i` on.
pub open spec fn diff_at(b: Seq<u8>, i: int, table: Seq<(Seq<u8>, u32)>) -> Result<
    Msg,
    CodecError,
> {
    match diff_head_at(b, i, table) {
        Err(e) => Err(e),
        Ok((h, i)) => match key_levels_at(b, i, codec::lit("\"b\":["), "depth: no b") {
            Err(e) => Err(e),
            Ok((bids, i)) => match key_levels_at(b, i, codec::lit("\"a\":["), "depth: no a") {
                Err(e) => Err(e),
                Ok((asks, _)) => Ok(Msg::Diff(h, bids, asks)),
            },
        },
    }
}

/// The maker flag at `i`: whether the taker sold.
pub open spec fn maker_at(b: Seq<u8>, i: int) -> Result<bool, CodecError> {
    match scan::past(b, i, codec::lit("\"m\":")) {
        None => Err(CodecError::Structure("trade: no m")),
        Some(i) => if scan::occurs_at(b, codec::lit("true"), i) {
            Ok(true)
        } else if scan::occurs_at(b, codec::lit("false"), i) {
            Ok(false)
        } else {
            Err(CodecError::Structure("trade: m"))
        },
    }
}

/// The instrument and the id of the trade from `i` on.
pub open spec fn trade_head_at(b: Seq<u8>, i: int, table: Seq<(Seq<u8>, u32)>) -> Result<
    (u32, u64, int),
    CodecError,
> {
    match key_str_at(b, i, codec::lit("\"s\":"), "trade: no s", "trade: s") {
        Err(e) => Err(e),
        Ok((sym, i)) => match codec::lookup_in(table, sym) {
            None => Err(CodecError::UnknownInstrument),
            Some(instrument) => match key_u64_at(
                b,
                i,
                codec::lit("\"t\":"),
                "trade: no t",
                "trade: t",
            ) {
                Err(e) => Err(e),
                Ok((id, i)) => Ok((instrument, id, i)),
            },
        },
    }
}

/// The price and quantity tokens and the time of the trade, from `i` on.
pub open spec fn trade_body_at(b: Seq<u8>, i: int) -> Result<
    (Seq<u8>, Seq<u8>, u64, int),
    CodecError,
> {
    match key_str_at(b, i, codec::lit("\"p\":"), "trade: no p", "trade: p") {
        Err(e) => Err(e),
        Ok((p, i)) => match key_str_at(b, i, codec::lit("\"q\":"), "trade: no q", "trade: q") {
            Err(e) => Err(e),
            Ok((q, i)) => match key_u64_at(
                b,
                i,
                codec::lit("\"T\":"),
                "trade: no T",
                "trade: T",
            ) {
                Err(e) => Err(e),
                Ok((t_ms, i)) => Ok((p, q, t_ms, i)),
            },
        },
    }
}

/// The trade that stands from `i` on.
#[verifier::opaque]
pub open spec fn trade_at(b: Seq<u8>, i: int, table: Seq<(Seq<u8>, u32)>) -> Result<
    TradeMsg,
    CodecError,
> {
    match trade_head_at(b, i, table) {
        Err(e) => Err(e),
        Ok((instrument, id, i)) => match trade_body_at(b, i) {
            Err(e) => Err(e),
            Ok((p, q, t_ms, i)) => match maker_at(b, i) {
                Err(e) => Err(e),
                Ok(taker_sell) => match codec::fixed_pair_spec(p, q) {
                    Err(e) => Err(e),
                    Ok((price, qty)) => Ok(
                        TradeMsg {
                            instrument,
                            id,
                            price,
                            qty,
                            ts: msg::ms_to_ns(t_ms),
                            taker_sell,
                        },
                    ),
                },
            },
        },
    }
}

/// The whole rest from `i` on is `<integer>}` and whitespace.
pub open spec fn ack_tail(b: Seq<u8>, i: int) -> bool {
    match scan::u64_at(b, i) {
        (Some(_), j) => scan::byte_at(b, j, 0x7d) && scan::ws_end(b, j + 1) >= b.len(),
        _ => false,
    }
}

/// Where a frame goes.
pub enum Envelope {
    Control,
    /// An event of the given type, whose name starts there.
    Data(int),
}

/// The envelope of a frame.
pub open spec fn envelope(b: Seq<u8>) -> Result<Envelope, CodecError> {
    let i = scan::ws_end(b, 0);
    let ack = codec::lit("{\"result\":null,\"id\":");
    if scan::occurs_at(b, codec::lit("{\"result\":"), i) {
        if scan::occurs_at(b, ack, i) && ack_tail(b, i + ack.len()) {
            Ok(Envelope::Control)
        } else {
            Err(CodecError::Structure("control: unexpected shape"))
        }
    } else if !scan::occurs_at(b, codec::lit("{\"stream\":\""), i) {
        Err(CodecError::Structure("envelope: no stream"))
    } else {
        match scan::past(b, i, codec::lit("\"data\":{\"e\":\"")) {
            None => Err(CodecError::Structure("envelope: no data.e")),
            Some(j) => Ok(Envelope::Data(j)),
        }
    }
}

/// What the fast path reads in the message `b`.
pub open spec fn fast_msg(b: Seq<u8>, table: Seq<(Seq<u8>, u32)>) -> Result<Msg, CodecError> {
    match envelope(b) {
        Err(e) => Err(e),
        Ok(Envelope::Control) => Ok(Msg::Control),
        Ok(Envelope::Data(i)) => if scan::occurs_at(b, codec::lit("depthUpdate\""), i) {
            diff_at(b, i, table)
        } else if scan::occurs_at(b, codec::lit("trade\""), i) {
            match trade_at(b, i, table) {
                Err(e) => Err(e),
                Ok(t) => Ok(Msg::Trade(t)),
            }
        } else if scan::occurs_at(b, codec::lit("serverShutdown\""), i) {
            Ok(Msg::Shutdown)
        } else {
            Ok(Msg::Ignored)
        },
    }
}

/// The searchers for the keys of a message, precomputed for the fast path.
#[derive(Debug)]
pub struct Keys {
    data_e: Finder<'static>,
    e_ms: Finder<'static>,
    s: Finder<'static>,
    first_u: Finder<'static>,
    final_u: Finder<'static>,
    b: Finder<'static>,
    a: Finder<'static>,
    t: Finder<'static>,
    p: Finder<'static>,
    q: Finder<'static>,
    t_ms: Finder<'static>,
    m: Finder<'static>,
}

impl Keys {
    /// Each searcher looks for its key.
    pub closed spec fn wf(&self) -> bool {
        &&& scan::finder_needle(self.data_e) == codec::lit("\"data\":{\"e\":\"")
        &&& scan::finder_needle(self.e_ms) == codec::lit("\"E\":")
        &&& scan::finder_needle(self.s) == codec::lit("\"s\":")
        &&& scan::finder_needle(self.first_u) == codec::lit("\"U\":")
        &&& scan::finder_needle(self.final_u) == codec::lit("\"u\":")
        &&& scan::finder_needle(self.b) == codec::lit("\"b\":[")
        &&& scan::finder_needle(self.a) == codec::lit("\"a\":[")
        &&& scan::finder_needle(self.t) == codec::lit("\"t\":")
        &&& scan::finder_needle(self.p) == codec::lit("\"p\":")
        &&& scan::finder_needle(self.q) == codec::lit("\"q\":")
        &&& scan::finder_needle(self.t_ms) == codec::lit("\"T\":")
        &&& scan::finder_needle(self.m) == codec::lit("\"m\":")
    }

    /// The searchers.
    pub fn new() -> (r: Self)
        ensures
            r.wf(),
    {
        Keys {
            data_e: scan::finder("\"data\":{\"e\":\"".as_bytes()),
            e_ms: scan::finder("\"E\":".as_bytes()),
            s: scan::finder("\"s\":".as_bytes()),
            first_u: scan::finder("\"U\":".as_bytes()),
            final_u: scan::finder("\"u\":".as_bytes()),
            b: scan::finder("\"b\":[".as_bytes()),
            a: scan::finder("\"a\":[".as_bytes()),
            t: scan::finder("\"t\":".as_bytes()),
            p: scan::finder("\"p\":".as_bytes()),
            q: scan::finder("\"q\":".as_bytes()),
            t_ms: scan::finder("\"T\":".as_bytes()),
            m: scan::finder("\"m\":".as_bytes()),
        }
    }
}

/// Read a `u64` field value and require a `,`/`}` terminator so the fast path
/// rejects non-integer tokens exactly like the slow path.
fn key_u64(
    c: &mut Cursor<'_>,
    key: &Finder<'static>,
    missing: &'static str,
    what: &'static str,
) -> (r: Result<u64, CodecError>)
    requires
        old(c).wf(),
    ensures
        final(c).wf(),
        final(c).bytes() == old(c).bytes(),
        match key_u64_at(old(c).bytes(), old(c).at(), scan::finder_needle(*key), missing, what) {
            Ok(x) => r == Ok::<u64, CodecError>(x.0) && final(c).at() == x.1,
            Err(e) => r == Err::<u64, CodecError>(e),
        },
{
    if c.skip_past_finder(key).is_none() {
        return Err(CodecError::Structure(missing));
    }
    match c.read_u64() {
        Some(v) => match c.peek() {
            Some(x) => if x == 0x2c || x == 0x7d {
                Ok(v)
            } else {
                Err(CodecError::Structure(what))
            },
            None => Err(CodecError::Structure(what)),
        },
        None => Err(CodecError::Structure(what)),
    }
}

/// Read a string field value.
fn key_str<'a>(
    c: &mut Cursor<'a>,
    key: &Finder<'static>,
    missing: &'static str,
    what: &'static str,
) -> (r: Result<&'a [u8], CodecError>)
    requires
        old(c).wf(),
    ensures
        final(c).wf(),
        final(c).bytes() == old(c).bytes(),
        match key_str_at(old(c).bytes(), old(c).at(), scan::finder_needle(*key), missing, what) {
            Ok(x) => r matches Ok(s) && s@ == x.0 && final(c).at() == x.1,
            Err(e) => r matches Err(f) && f == e,
        },
{
    if c.skip_past_finder(key).is_none() {
        return Err(CodecError::Structure(missing));
    }
    match c.read_string() {
        Some(s) => Ok(s),
        None => Err(CodecError::Structure(what)),
    }
}

/// One level.
fn level(c: &mut Cursor<'_>) -> (r: Result<(i64, i64), CodecError>)
    requires
        old(c).wf(),
    ensures
        final(c).wf(),
        final(c).bytes() == old(c).bytes(),
        match level_at(old(c).bytes(), old(c).at()) {
            Ok(x) => r == Ok::<(i64, i64), CodecError>(x.0) && final(c).at() == x.1,
            Err(e) => r == Err::<(i64, i64), CodecError>(e),
        },
{
    reveal(level_at);
    if !c.eat(0x5b) {
        return Err(CodecError::Structure("level: expected ["));
    }
    let p: &[u8] = match c.read_string() {
        Some(p) => p,
        None => {
            return Err(CodecError::Structure("level: price"));
        },
    };
    if !c.eat(0x2c) {
        return Err(CodecError::Structure("level: expected ,"));
    }
    let q: &[u8] = match c.read_string() {
        Some(q) => q,
        None => {
            return Err(CodecError::Structure("level: qty"));
        },
    };
    if !c.eat(0x5d) {
        return Err(CodecError::Structure("level: expected ]"));
    }
    codec::fixed_pair(p, q)
}

/// Fast-path parse of one `[["price","qty"],...]` level array; the cursor
/// must sit just past the opening `[`. Appends one event per level.
fn fast_levels(c: &mut Cursor<'_>, stamp: Stamp, kind: EventKind, out: &mut Vec<Event>) -> (r:
    Result<(), CodecError>)
    requires
        old(c).wf(),
    ensures
        final(c).wf(),
        final(c).bytes() == old(c).bytes(),
        old(out)@.is_prefix_of(final(out)@),
        match level_array_at(old(c).bytes(), old(c).at()) {
            Ok(x) => r is Ok && final(c).at() == x.1 && final(out)@ == old(out)@
                + emit::level_events(stamp, kind, x.0),
            Err(e) => r == Err::<(), CodecError>(e),
        },
{
    let ghost mut acc: Seq<(i64, i64)> = Seq::empty();
    assert(out@ =~= old(out)@ + emit::level_events(stamp, kind, acc));
    let ghost b = c.bytes();
    if c.eat(0x5d) {
        return Ok(());
    }
    loop
        invariant
            c.wf(),
            c.bytes() == b,
            b == old(c).bytes(),
            out@ == old(out)@ + emit::level_events(stamp, kind, acc),
            levels_at(b, c.at(), acc) == level_array_at(b, old(c).at()),
        decreases b.len() - c.at(),
    {
        proof {
            lemma_level_at(b, c.at());
        }
        let l: (i64, i64) = match level(c) {
            Ok(l) => l,
            Err(e) => {
                return Err(e);
            },
        };
        out.push(stamp.ev(kind, l.0, l.1, 0));
        proof {
            emit::lemma_level_events_push(stamp, kind, acc, l);
            assert(out@ =~= old(out)@ + emit::level_events(stamp, kind, acc.push(l)));
            acc = acc.push(l);
        }
        if c.eat(0x2c) {
            continue;
        }
        if c.eat(0x5d) {
            return Ok(());
        }
        return Err(CodecError::Structure("level: expected , or ]"));
    }
}

/// Header of a depth diff.
fn fast_diff_head(c: &mut Cursor<'_>, keys: &Keys, table: &SymbolTable) -> (r: Result<
    DiffHead,
    CodecError,
>)
    requires
        old(c).wf(),
        keys.wf(),
    ensures
        final(c).wf(),
        final(c).bytes() == old(c).bytes(),
        match diff_head_at(old(c).bytes(), old(c).at(), table@) {
            Ok(x) => r == Ok::<DiffHead, CodecError>(x.0) && final(c).at() == x.1,
            Err(e) => r == Err::<DiffHead, CodecError>(e),
        },
{
    reveal(diff_head_at);
    let e_ms: u64 = match key_u64(c, &keys.e_ms, "depth: no E", "depth: E") {
        Ok(v) => v,
        Err(e) => {
            return Err(e);
        },
    };
    let instrument: u32 = match key_str(c, &keys.s, "depth: no s", "depth: s") {
        Ok(s) => match table.lookup(s) {
            Some(id) => id,
            None => {
                return Err(CodecError::UnknownInstrument);
            },
        },
        Err(e) => {
            return Err(e);
        },
    };
    let first_u: u64 = match key_u64(c, &keys.first_u, "depth: no U", "depth: U") {
        Ok(v) => v,
        Err(e) => {
            return Err(e);
        },
    };
    match key_u64(c, &keys.final_u, "depth: no u", "depth: u") {
        Ok(final_u) => Ok(DiffHead { instrument, first_u, final_u, ts: super::to_ns(e_ms) }),
        Err(e) => Err(e),
    }
}

/// Fast path for a `depthUpdate` payload; `c` sits just past `"e":"`. Appends
/// the events of all levels and returns the header.
pub(crate) fn fast_depth(
    c: &mut Cursor<'_>,
    keys: &Keys,
    table: &SymbolTable,
    recv_mono_ns: u64,
    recv_wall_ns: u64,
    out: &mut Vec<Event>,
) -> (r: Result<DiffHead, CodecError>)
    requires
        old(c).wf(),
        keys.wf(),
    ensures
        old(out)@.is_prefix_of(final(out)@),
        match diff_at(old(c).bytes(), old(c).at(), table@) {
            Ok(m) => r matches Ok(h) && m is Diff && m->Diff_0 == h && final(out)@ == old(out)@
                + msg::diff_events(h, m->Diff_1, m->Diff_2, recv_mono_ns, recv_wall_ns),
            Err(e) => r == Err::<DiffHead, CodecError>(e),
        },
{
    let h: DiffHead = match fast_diff_head(c, keys, table) {
        Ok(h) => h,
        Err(e) => {
            return Err(e);
        },
    };
    let stamp: Stamp = super::make_stamp(
        h.instrument,
        h.ts,
        h.final_u,
        0,
        recv_mono_ns,
        recv_wall_ns,
    );
    if c.skip_past_finder(&keys.b).is_none() {
        return Err(CodecError::Structure("depth: no b"));
    }
    match fast_levels(c, stamp, EventKind::BidSet, out) {
        Ok(_) => {},
        Err(e) => {
            return Err(e);
        },
    }
    if c.skip_past_finder(&keys.a).is_none() {
        return Err(CodecError::Structure("depth: no a"));
    }
    match fast_levels(c, stamp, EventKind::AskSet, out) {
        Ok(_) => {},
        Err(e) => {
            return Err(e);
        },
    }
    proof {
        let m = diff_at(old(c).bytes(), old(c).at(), table@)->Ok_0;
        assert(out@ =~= old(out)@ + msg::diff_events(
            h,
            m->Diff_1,
            m->Diff_2,
            recv_mono_ns,
            recv_wall_ns,
        ));
    }
    Ok(h)
}

/// Fast path for a `trade` payload; `c` sits just past `"e":"`.
pub(crate) fn fast_trade(c: &mut Cursor<'_>, keys: &Keys, table: &SymbolTable) -> (r: Result<
    TradeMsg,
    CodecError,
>)
    requires
        old(c).wf(),
        keys.wf(),
    ensures
        r == trade_at(old(c).bytes(), old(c).at(), table@),
{
    reveal(trade_at);
    let instrument: u32 = match key_str(c, &keys.s, "trade: no s", "trade: s") {
        Ok(s) => match table.lookup(s) {
            Some(id) => id,
            None => {
                return Err(CodecError::UnknownInstrument);
            },
        },
        Err(e) => {
            return Err(e);
        },
    };
    let id: u64 = match key_u64(c, &keys.t, "trade: no t", "trade: t") {
        Ok(v) => v,
        Err(e) => {
            return Err(e);
        },
    };
    let p: &[u8] = match key_str(c, &keys.p, "trade: no p", "trade: p") {
        Ok(s) => s,
        Err(e) => {
            return Err(e);
        },
    };
    let q: &[u8] = match key_str(c, &keys.q, "trade: no q", "trade: q") {
        Ok(s) => s,
        Err(e) => {
            return Err(e);
        },
    };
    let t_ms: u64 = match key_u64(c, &keys.t_ms, "trade: no T", "trade: T") {
        Ok(v) => v,
        Err(e) => {
            return Err(e);
        },
    };
    if c.skip_past_finder(&keys.m).is_none() {
        return Err(CodecError::Structure("trade: no m"));
    }
    let taker_sell: bool = if c.looking_at("true".as_bytes()) {
        true
    } else if c.looking_at("false".as_bytes()) {
        false
    } else {
        return Err(CodecError::Structure("trade: m"));
    };
    match codec::fixed_pair(p, q) {
        Ok((price, qty)) => Ok(
            TradeMsg { instrument, id, price, qty, ts: super::to_ns(t_ms), taker_sell },
        ),
        Err(e) => Err(e),
    }
}

/// Read the envelope of a frame: true for a subscription acknowledgement,
/// e.g. `{"result":null,"id":1}`; otherwise the cursor is at the event type.
pub(crate) fn fast_envelope(c: &mut Cursor<'_>, keys: &Keys) -> (r: Result<bool, CodecError>)
    requires
        old(c).wf(),
        old(c).at() == 0,
        keys.wf(),
    ensures
        final(c).wf(),
        final(c).bytes() == old(c).bytes(),
        match envelope(old(c).bytes()) {
            Ok(Envelope::Control) => r == Ok::<bool, CodecError>(true),
            Ok(Envelope::Data(i)) => r == Ok::<bool, CodecError>(false) && final(c).at() == i,
            Err(e) => r == Err::<bool, CodecError>(e),
        },
{
    c.skip_ws();
    if c.looking_at("{\"result\":".as_bytes()) {
        if c.eat_lit("{\"result\":null,\"id\":".as_bytes()) {
            if c.read_u64().is_some() && c.eat(0x7d) {
                c.skip_ws();
                if c.done() {
                    return Ok(true);
                }
            }
        }
        return Err(CodecError::Structure("control: unexpected shape"));
    }
    if !c.looking_at("{\"stream\":\"".as_bytes()) {
        return Err(CodecError::Structure("envelope: no stream"));
    }
    if c.skip_past_finder(&keys.data_e).is_none() {
        return Err(CodecError::Structure("envelope: no data.e"));
    }
    Ok(false)
}

} // verus!
