//! JSON objects as text: where the fields stand, and that a search for a key
//! finds its field.
use crate::json;
use crate::json::JsonValue;
use crate::scan;
use crate::text;
use crate::wire;
use vstd::prelude::*;
use vstd::utf8::*;

verus! {

/// A field of an object: its name, its value as text and what that stands for.
pub struct Field {
    pub name: Seq<char>,
    pub text: Seq<u8>,
    pub value: JsonValue,
}

/// A field that holds a string.
pub open spec fn str_field(name: Seq<char>, s: Seq<char>) -> Field {
    Field { name, text: quoted(encode_utf8(s)), value: JsonValue::Str(s) }
}

/// A field that holds an unsigned integer.
pub open spec fn num_field(name: Seq<char>, n: u64) -> Field {
    Field { name, text: text::dec_bytes(n as nat), value: json::number(n) }
}

/// A string between its quotes.
pub open spec fn quoted(s: Seq<u8>) -> Seq<u8> {
    seq![0x22u8] + s + seq![0x22u8]
}

/// A key: a name between quotes, and a colon.
pub open spec fn key(name: Seq<u8>) -> Seq<u8> {
    seq![0x22u8] + name + seq![0x22u8, 0x3a]
}

/// What ends the fields up to `k`: a comma, or the closing brace.
pub open spec fn separator(fs: Seq<Field>, k: int) -> u8 {
    if k < fs.len() {
        0x2c
    } else {
        0x7d
    }
}

/// The object as it is written, up to the start of the field `k`.
#[verifier::opaque]
pub open spec fn text_to(fs: Seq<Field>, k: int) -> Seq<u8>
    decreases k,
{
    if k <= 0 {
        seq![0x7bu8]
    } else {
        (text_to(fs, k - 1) + key(encode_utf8(fs[k - 1].name)) + fs[k - 1].text).push(
            separator(fs, k),
        )
    }
}

/// The object as it is written.
pub open spec fn text_of(fs: Seq<Field>) -> Seq<u8> {
    text_to(fs, fs.len() as int)
}

/// Where the field `k` starts.
pub open spec fn start(fs: Seq<Field>, k: int) -> int {
    text_to(fs, k).len() as int
}

/// Where the value of the field `k` starts.
pub open spec fn value_at(fs: Seq<Field>, k: int) -> int {
    start(fs, k) + encode_utf8(fs[k].name).len() + 3
}

/// The document `v` has the fields, in whatever order.
pub open spec fn is_doc(v: JsonValue, fs: Seq<Field>) -> bool {
    &&& v is Obj
    &&& forall|k: int|
        0 <= k < fs.len() ==> json::member(v, (#[trigger] fs[k]).name) == Some(fs[k].value)
}

/// A byte behind which no key ends.
pub open spec fn opens(c: u8) -> bool {
    c == 0x3a || c == 0x5b || c == 0x2c || c == 0x7b
}

/// No key of a field ends in the value `t`: where a quote and a colon stand
/// in it, the quote opens a string.
pub open spec fn keyless(t: Seq<u8>) -> bool {
    forall|x: int|
        0 <= x && x + 1 < t.len() && #[trigger] t[x] == 0x22 && t[x + 1] == 0x3a ==> x == 0
            || opens(t[x - 1])
}

/// Text without quotes.
pub open spec fn unquoted(s: Seq<u8>) -> bool {
    forall|x: int| 0 <= x < s.len() ==> #[trigger] s[x] != 0x22
}

/// The fields can be told apart by their keys.
#[verifier::opaque]
pub open spec fn sound(fs: Seq<Field>) -> bool {
    forall|k: int|
        0 <= k < fs.len() ==> unquoted(encode_utf8((#[trigger] fs[k]).name)) && keyless(fs[k].text)
}

/// No two fields have one name.
#[verifier::opaque]
pub open spec fn distinct(fs: Seq<Field>) -> bool {
    forall|i: int, j: int|
        0 <= i < j < fs.len() ==> encode_utf8((#[trigger] fs[i]).name) != encode_utf8(
            (#[trigger] fs[j]).name,
        )
}

/// A name that a search can look for.
pub open spec fn findable(name: Seq<u8>) -> bool {
    name.len() > 0 && !opens(name.last())
}

/// A string that needs no escapes holds no key.
pub proof fn lemma_str_keyless(s: Seq<u8>)
    requires
        wire::plain(s),
    ensures
        keyless(quoted(s)),
{
    let t = quoted(s);
    assert forall|x: int|
        0 <= x && x + 1 < t.len() && #[trigger] t[x] == 0x22 && t[x + 1] == 0x3a implies x == 0
        || opens(t[x - 1]) by {
        if x > 0 {
            assert(t[x] == s[x - 1]);
        }
    }
}

/// A number holds no key.
pub proof fn lemma_num_keyless(n: nat)
    ensures
        keyless(text::dec_bytes(n)),
{
    text::lemma_dec_bytes(n);
}

/// A list whose items hold no key holds none.
pub proof fn lemma_list_keyless(items: Seq<Seq<u8>>, k: int)
    requires
        0 <= k <= items.len(),
        forall|i: int| 0 <= i < items.len() ==> keyless(#[trigger] items[i]),
    ensures
        keyless(wire::list_from(items, k)),
        keyless(seq![0x5bu8] + wire::list_from(items, k)),
    decreases items.len() - k,
{
    let f = wire::list_from(items, k);
    reveal(wire::list_from);
    if k < items.len() {
        let g = items[k];
        let n: int = g.len() as int;
        let r = wire::list_from(items, k + 1);
        if k + 1 < items.len() {
            lemma_list_keyless(items, k + 1);
        }
        assert forall|x: int|
            0 <= x && x + 1 < f.len() && #[trigger] f[x] == 0x22 && f[x + 1] == 0x3a implies x == 0
            || opens(f[x - 1]) by {
            if x < n {
                assert(f[x] == g[x]);
                if x + 1 < n {
                    assert(f[x + 1] == g[x + 1]);
                }
                if x > 0 {
                    assert(f[x - 1] == g[x - 1]);
                }
            } else if x > n {
                let y = x - n - 1;
                assert(f[x] == r[y]);
                assert(f[x + 1] == r[y + 1]);
                if y > 0 {
                    assert(f[x - 1] == r[y - 1]);
                }
            }
        }
    }
    let t = seq![0x5bu8] + f;
    assert forall|x: int|
        0 <= x && x + 1 < t.len() && #[trigger] t[x] == 0x22 && t[x + 1] == 0x3a implies x == 0
        || opens(t[x - 1]) by {
        if x > 0 {
            assert(t[x] == f[x - 1]);
            assert(t[x + 1] == f[x]);
            if x > 1 {
                assert(t[x - 1] == f[x - 2]);
            }
        }
    }
}

/// A string between its quotes is read as it stands.
pub proof fn lemma_quoted_read(b: Seq<u8>, i: int, s: Seq<u8>)
    requires
        scan::occurs_at(b, quoted(s), i),
        wire::plain(s),
    ensures
        0 <= i < b.len(),
        b[i] == 0x22,
        scan::str_at(b, i) == Some((s, i + quoted(s).len())),
        quoted(s).len() == s.len() + 2,
{
    let t = quoted(s);
    wire::lemma_occurs_bytes(b, t, i);
    assert(b[i] == t[0]);
    assert(b[i + 1 + s.len()] == t[1 + s.len() as int]);
    assert(t.subrange(1, 1 + s.len() as int) =~= s);
    wire::lemma_occurs_in(b, t, i, s, 1);
    wire::lemma_str_at_is(b, i, s);
}

/// A string in a list is read as it stands.
pub proof fn lemma_list_str(b: Seq<u8>, i: int, items: Seq<Seq<u8>>, k: int, s: Seq<u8>)
    requires
        0 <= k < items.len(),
        items[k] == quoted(s),
        wire::plain(s),
        scan::occurs_at(b, wire::list_from(items, k), i),
    ensures
        0 <= i,
        i + s.len() + 2 < b.len(),
        b[i] == 0x22,
        scan::str_at(b, i) == Some((s, i + s.len() + 2)),
        k + 1 < items.len() ==> b[i + s.len() + 2] == 0x2c && scan::occurs_at(
            b,
            wire::list_from(items, k + 1),
            i + s.len() + 3,
        ) && wire::list_from(items, k).len() == s.len() + 3 + wire::list_from(items, k + 1).len(),
        k + 1 == items.len() ==> b[i + s.len() + 2] == 0x5d && wire::list_from(items, k).len()
            == s.len() + 3,
{
    wire::lemma_list_item(b, i, items, k);
    lemma_quoted_read(b, i, s);
}

/// The text up to a field starts the text up to a later one.
proof fn lemma_text_to(fs: Seq<Field>, k: int, n: int)
    requires
        0 <= k <= n <= fs.len(),
    ensures
        start(fs, k) >= 1,
        start(fs, k) <= start(fs, n),
        text_to(fs, n).subrange(0, start(fs, k)) == text_to(fs, k),
    decreases n,
{
    reveal(text_to);
    if k < n {
        lemma_text_to(fs, k, n - 1);
        assert(text_to(fs, n).subrange(0, start(fs, k)) =~= text_to(fs, n - 1).subrange(
            0,
            start(fs, k),
        ));
    } else {
        assert(text_to(fs, n).subrange(0, start(fs, k)) =~= text_to(fs, k));
    }
}

/// The pieces of a text stand one behind the other.
proof fn lemma_pieces(p: Seq<u8>, n: Seq<u8>, v: Seq<u8>, c: u8)
    ensures
        (p + n + v).push(c).len() == p.len() + n.len() + v.len() + 1,
        scan::occurs_at((p + n + v).push(c), n, p.len() as int),
        scan::occurs_at((p + n + v).push(c), v, (p.len() + n.len()) as int),
        (p + n + v).push(c).last() == c,
{
    let t = (p + n + v).push(c);
    assert(t.subrange(p.len() as int, (p.len() + n.len()) as int) =~= n);
    assert(t.subrange(
        (p.len() + n.len()) as int,
        (p.len() + n.len() + v.len()) as int,
    ) =~= v);
}

/// The field `k` stands where it starts.
pub proof fn lemma_field(fs: Seq<Field>, k: int)
    requires
        0 <= k < fs.len(),
    ensures
        1 <= start(fs, k),
        k == 0 ==> start(fs, k) == 1,
        start(fs, k + 1) == value_at(fs, k) + fs[k].text.len() + 1,
        start(fs, k + 1) <= text_of(fs).len(),
        text_of(fs)[start(fs, k) - 1] == if k == 0 {
            0x7bu8
        } else {
            0x2cu8
        },
        scan::occurs_at(text_of(fs), key(encode_utf8(fs[k].name)), start(fs, k)),
        scan::occurs_at(text_of(fs), fs[k].text, value_at(fs, k)),
        text_of(fs)[start(fs, k + 1) - 1] == separator(fs, k + 1),
{
    let b = text_of(fs);
    let p = text_to(fs, k);
    let t = text_to(fs, k + 1);
    let n = key(encode_utf8(fs[k].name));
    reveal(text_to);
    lemma_text_to(fs, k + 1, fs.len() as int);
    lemma_text_to(fs, k, fs.len() as int);
    lemma_pieces(p, n, fs[k].text, separator(fs, k + 1));
    assert(scan::occurs_at(b, t, 0));
    wire::lemma_occurs_in(b, t, 0, n, p.len() as int);
    wire::lemma_occurs_in(b, t, 0, fs[k].text, (p.len() + n.len()) as int);
    assert(b[t.len() - 1] == b.subrange(0, t.len() as int)[t.len() - 1]);
    assert(b[p.len() - 1] == b.subrange(0, p.len() as int)[p.len() - 1]);
    assert(p.last() == if k == 0 {
        0x7bu8
    } else {
        0x2cu8
    });
}

/// The field that holds the place `e`, of the fields up to `k`.
proof fn lemma_holder(fs: Seq<Field>, e: int, k: int) -> (f: int)
    requires
        0 <= k <= fs.len(),
        1 <= e < start(fs, k),
    ensures
        0 <= f < k,
        start(fs, f) <= e < start(fs, f + 1),
    decreases k,
{
    reveal(text_to);
    if start(fs, k - 1) <= e {
        k - 1
    } else {
        lemma_holder(fs, e, k - 1)
    }
}

/// A quote and a colon end a key, or the quote opens a string.
proof fn lemma_key_end(fs: Seq<Field>, f: int, e: int)
    requires
        sound(fs),
        0 <= f < fs.len(),
        start(fs, f) <= e < start(fs, f + 1),
        e + 1 < text_of(fs).len(),
        text_of(fs)[e] == 0x22,
        text_of(fs)[e + 1] == 0x3a,
    ensures
        e == start(fs, f) + 1 + encode_utf8(fs[f].name).len() || opens(text_of(fs)[e - 1]),
{
    let b = text_of(fs);
    let n = encode_utf8(fs[f].name);
    let s = start(fs, f);
    let v = value_at(fs, f);
    let t = fs[f].text;
    reveal(sound);
    lemma_field(fs, f);
    wire::lemma_occurs_bytes(b, key(n), s);
    wire::lemma_occurs_bytes(b, t, v);
    if e == s {
    } else if e < s + 1 + n.len() {
        assert(b[e] == key(n)[e - s]);
        assert(key(n)[e - s] == n[e - s - 1]);
    } else if e < v {
        if e == v - 1 {
            assert(b[e] == key(n)[e - s]);
        }
    } else if e < v + t.len() {
        let x = e - v;
        assert(b[e] == t[x]);
        if x + 1 < t.len() {
            assert(b[e + 1] == t[x + 1]);
            if x == 0 {
                assert(b[e - 1] == key(n)[e - 1 - s]);
            } else {
                assert(b[e - 1] == t[x - 1]);
            }
        }
    }
}

/// Where a key stands, a field with that name starts.
proof fn lemma_key_holder(fs: Seq<Field>, j: int, name: Seq<u8>) -> (f: int)
    requires
        sound(fs),
        1 <= j,
        unquoted(name),
        findable(name),
        scan::occurs_at(text_of(fs), key(name), j),
    ensures
        0 <= f < fs.len(),
        j == start(fs, f),
        encode_utf8(fs[f].name) == name,
{
    let b = text_of(fs);
    let e = j + 1 + name.len();
    wire::lemma_occurs_bytes(b, key(name), j);
    assert(b[j] == key(name)[0]);
    assert(b[e] == key(name)[e - j]);
    assert(b[e + 1] == key(name)[e + 1 - j]);
    assert(b[e - 1] == key(name)[e - 1 - j]);
    assert(key(name)[e - 1 - j] == name.last());
    let f = lemma_holder(fs, e, fs.len() as int);
    lemma_key_end(fs, f, e);
    let n = encode_utf8(fs[f].name);
    let s = start(fs, f);
    assert(unquoted(n)) by {
        reveal(sound);
    }
    lemma_field(fs, f);
    wire::lemma_occurs_bytes(b, key(n), s);
    assert(b[s] == key(n)[0]);
    if j > s {
        assert(b[j] == key(n)[j - s]);
        assert(key(n)[j - s] == n[j - s - 1]);
    } else if j < s {
        assert(b[s] == key(name)[s - j]);
        assert(key(name)[s - j] == name[s - j - 1]);
    }
    assert(n =~= name) by {
        assert forall|x: int| 0 <= x < n.len() implies n[x] == #[trigger] name[x] by {
            assert(b[s + 1 + x] == key(n)[1 + x]);
            assert(b[j + 1 + x] == key(name)[1 + x]);
        }
    }
    f
}

/// Later fields start later.
proof fn lemma_starts(fs: Seq<Field>, k: int, n: int)
    requires
        0 <= k < n <= fs.len(),
    ensures
        start(fs, k) < start(fs, n),
{
    lemma_field(fs, k);
    lemma_text_to(fs, k + 1, n);
}

/// A search for a key from the field `k` on, or from the byte in front of it,
/// finds the field with that name.
pub proof fn lemma_first(fs: Seq<Field>, k: int, i: int, m: int)
    requires
        sound(fs),
        0 <= k <= m < fs.len(),
        start(fs, k) - 1 <= i <= start(fs, k),
        findable(encode_utf8(fs[m].name)),
        distinct(fs),
    ensures
        scan::past(text_of(fs), i, key(encode_utf8(fs[m].name))) == Some(value_at(fs, m)),
{
    let b = text_of(fs);
    let name = encode_utf8(fs[m].name);
    reveal(distinct);
    assert(unquoted(name)) by {
        reveal(sound);
    }
    lemma_field(fs, k);
    lemma_field(fs, m);
    if k < m {
        lemma_starts(fs, k, m);
    }
    assert forall|j: int| i <= j < start(fs, m) implies !#[trigger] scan::occurs_at(
        b,
        key(name),
        j,
    ) by {
        if scan::occurs_at(b, key(name), j) {
            wire::lemma_occurs_bytes(b, key(name), j);
            assert(b[j] == key(name)[0]);
            let f = lemma_key_holder(fs, j, name);
            if f < k {
                lemma_starts(fs, f, k);
            } else if f > m {
                lemma_starts(fs, m, f);
            }
        }
    }
    wire::lemma_past_is(b, i, key(name), start(fs, m));
}

/// The string in a field is read as it stands.
pub proof fn lemma_str_read(fs: Seq<Field>, k: int, s: Seq<u8>)
    requires
        0 <= k < fs.len(),
        fs[k].text == quoted(s),
        wire::plain(s),
    ensures
        scan::ws_end(text_of(fs), value_at(fs, k)) == value_at(fs, k),
        scan::str_at(text_of(fs), value_at(fs, k)) == Some((s, start(fs, k + 1) - 1)),
{
    lemma_field(fs, k);
    lemma_quoted_read(text_of(fs), value_at(fs, k), s);
}

/// The number in a field is read as it stands.
pub proof fn lemma_num_read(fs: Seq<Field>, k: int, n: u64)
    requires
        0 <= k < fs.len(),
        fs[k].text == text::dec_bytes(n as nat),
    ensures
        scan::ws_end(text_of(fs), value_at(fs, k)) == value_at(fs, k),
        scan::u64_at(text_of(fs), value_at(fs, k)) == (Some(n), start(fs, k + 1) - 1),
{
    let b = text_of(fs);
    let d = text::dec_bytes(n as nat);
    let v = value_at(fs, k);
    lemma_field(fs, k);
    text::lemma_dec_bytes(n as nat);
    wire::lemma_occurs_bytes(b, d, v);
    assert(b[v] == d[0]);
    wire::lemma_u64_at_is(b, v, n);
}

} // verus!
