//! Price levels as text: `["price","qty"]`.
use crate::codec;
use crate::codec::CodecError;
use crate::json::JsonValue;
use crate::object;
use crate::scan;
use crate::wire;
use vstd::prelude::*;
use vstd::utf8::*;

verus! {

/// A level as text: its price and its quantity.
pub type LevelText = (Seq<char>, Seq<char>);

/// The level needs no escapes.
pub open spec fn level_writable(l: LevelText) -> bool {
    wire::plain(encode_utf8(l.0)) && wire::plain(encode_utf8(l.1))
}

/// The levels need no escapes.
pub open spec fn levels_writable(ls: Seq<LevelText>) -> bool {
    forall|i: int| 0 <= i < ls.len() ==> level_writable(#[trigger] ls[i])
}

/// The strings of a level as they are written.
pub open spec fn level_items(l: LevelText) -> Seq<Seq<u8>> {
    seq![object::quoted(encode_utf8(l.0)), object::quoted(encode_utf8(l.1))]
}

/// The level as it is written: `["price","qty"]`.
pub open spec fn level_frame(l: LevelText) -> Seq<u8> {
    seq![0x5bu8] + wire::list_from(level_items(l), 0)
}

/// The levels as they are written.
pub open spec fn level_frames(ls: Seq<LevelText>) -> Seq<Seq<u8>> {
    Seq::new(ls.len(), |i: int| level_frame(ls[i]))
}

/// The document that a level is.
pub open spec fn level_doc(l: LevelText) -> JsonValue {
    JsonValue::Arr(seq![JsonValue::Str(l.0), JsonValue::Str(l.1)])
}

/// The documents that the levels are.
pub open spec fn level_docs(ls: Seq<LevelText>) -> Seq<JsonValue> {
    Seq::new(ls.len(), |i: int| level_doc(ls[i]))
}

/// What the levels from `k` on say, behind `acc`: an inexact one spoils all.
pub open spec fn said_levels(ls: Seq<LevelText>, k: int, acc: Seq<(i64, i64)>) -> Result<
    Seq<(i64, i64)>,
    CodecError,
>
    decreases ls.len() - k,
{
    if !(0 <= k < ls.len()) {
        Ok(acc)
    } else {
        match codec::fixed_pair_spec(encode_utf8(ls[k].0), encode_utf8(ls[k].1)) {
            Err(e) => Err(e),
            Ok(x) => said_levels(ls, k + 1, acc.push(x)),
        }
    }
}

/// Where the second string of a level starts.
pub open spec fn qty_at(l: LevelText) -> int {
    encode_utf8(l.0).len() as int + 4
}

/// Where a level ends: at its closing bracket.
pub open spec fn level_end(l: LevelText) -> int {
    encode_utf8(l.0).len() as int + encode_utf8(l.1).len() + 6
}

/// What stands in a level.
pub proof fn lemma_level_bytes(b: Seq<u8>, i: int, l: LevelText)
    requires
        scan::occurs_at(b, level_frame(l), i),
        level_writable(l),
    ensures
        0 <= i,
        i + level_end(l) < b.len(),
        level_frame(l).len() == level_end(l) + 1,
        b[i] == 0x5b,
        b[i + 1] == 0x22,
        scan::str_at(b, i + 1) == Some((encode_utf8(l.0), i + qty_at(l) - 1)),
        b[i + qty_at(l) - 1] == 0x2c,
        b[i + qty_at(l)] == 0x22,
        scan::str_at(b, i + qty_at(l)) == Some((encode_utf8(l.1), i + level_end(l))),
        b[i + level_end(l)] == 0x5d,
{
    let f = level_frame(l);
    let items = level_items(l);
    let r = wire::list_from(items, 0);
    wire::lemma_occurs_bytes(b, f, i);
    assert(b[i] == f[0]);
    assert(f.subrange(1, 1 + r.len() as int) =~= r);
    wire::lemma_occurs_in(b, f, i, r, 1);
    object::lemma_list_str(b, i + 1, items, 0, encode_utf8(l.0));
    object::lemma_list_str(b, i + qty_at(l), items, 1, encode_utf8(l.1));
}

/// Levels hold no key.
pub proof fn lemma_levels_keyless(ls: Seq<LevelText>)
    requires
        levels_writable(ls),
    ensures
        object::keyless(seq![0x5bu8] + wire::list_from(level_frames(ls), 0)),
{
    assert forall|i: int| 0 <= i < ls.len() implies object::keyless(#[trigger] level_frames(ls)[i]) by {
        let items = level_items(ls[i]);
        object::lemma_str_keyless(encode_utf8(ls[i].0));
        object::lemma_str_keyless(encode_utf8(ls[i].1));
        object::lemma_list_keyless(items, 0);
    }
    object::lemma_list_keyless(level_frames(ls), 0);
}

} // verus!
