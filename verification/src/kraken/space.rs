//! Whitespace behind the keys whose numbers the slow path puts in quotes.
use super::slow;
use crate::codec;
use crate::json;
use crate::scan;
use crate::text;
use vstd::prelude::*;
use vstd::utf8::*;

verus! {

/// A key whose number is put in quotes ends where `a` ends.
pub open spec fn ends_in_key(a: Seq<u8>) -> bool {
    ||| scan::occurs_at(
        a,
        codec::lit("\"price\":"),
        a.len() - codec::lit("\"price\":").len(),
    )
    ||| scan::occurs_at(a, codec::lit("\"qty\":"), a.len() - codec::lit("\"qty\":").len())
}

/// What quoting makes of the text `c` behind such a key: its whitespace as it
/// is, the number token in quotes, and the rest.
pub open spec fn value_quoted(c: Seq<u8>) -> Seq<u8> {
    let w = scan::ws_end(c, 0);
    let n = scan::num_end(c, w);
    c.take(w) + (if n > w {
        seq![0x22u8] + c.subrange(w, n) + seq![0x22u8]
    } else {
        Seq::empty()
    }) + slow::quoted(c.skip(n))
}

/// All of `w` is JSON whitespace.
pub open spec fn all_ws(w: Seq<u8>) -> bool {
    forall|i: int| 0 <= i < w.len() ==> scan::is_ws(#[trigger] w[i])
}

/// Whitespace between the colon of a key and its number stays where it is, and
/// the number is put in quotes all the same.
pub proof fn lemma_whitespace_stays(a: Seq<u8>, w: Seq<u8>, c: Seq<u8>)
    requires
        ends_in_key(a),
        all_ws(w),
    ensures
        slow::quoted(a + c) == slow::quoted(a) + value_quoted(c),
        slow::quoted(a + w + c) == slow::quoted(a) + w + value_quoted(c),
{
    lemma_split(a, c);
    lemma_split(a, w + c);
    lemma_value_ws(w, c);
    assert(a + w + c =~= a + (w + c));
    assert(slow::quoted(a) + w + value_quoted(c) =~= slow::quoted(a) + (w + value_quoted(c)));
}

/// Whitespace between the colon of a key and its number changes nothing of
/// what the slow path reads, given that it changes neither of the documents
/// that the frame is and is with its numbers in quotes.
pub proof fn lemma_whitespace_ignored(
    a: Seq<u8>,
    w: Seq<u8>,
    c: Seq<u8>,
    table: Seq<(Seq<u8>, u32)>,
)
    requires
        ends_in_key(a),
        all_ws(w),
        json::json_of(a + w + c) == json::json_of(a + c),
        json::json_of(slow::quoted(a) + w + value_quoted(c)) == json::json_of(
            slow::quoted(a) + value_quoted(c),
        ),
    ensures
        slow::slow_frame(a + w + c, table) == slow::slow_frame(a + c, table),
{
    lemma_whitespace_stays(a, w, c);
    lemma_keys(a);
    lemma_text(a, w, c);
}

/// The bytes of the keys, and the colon at the end of a text that ends in one.
proof fn lemma_keys(a: Seq<u8>)
    ensures
        codec::lit("\"price\":") == seq![
            0x22u8,
            0x70u8,
            0x72u8,
            0x69u8,
            0x63u8,
            0x65u8,
            0x22u8,
            0x3au8,
        ],
        codec::lit("\"qty\":") == seq![0x22u8, 0x71u8, 0x74u8, 0x79u8, 0x22u8, 0x3au8],
        ends_in_key(a) ==> a.len() >= 6 && a.last() == 0x3a,
{
    let p = codec::lit("\"price\":");
    let q = codec::lit("\"qty\":");
    reveal_strlit("\"price\":");
    reveal_strlit("\"qty\":");
    is_ascii_chars_encode_utf8("\"price\":"@);
    is_ascii_chars_encode_utf8("\"qty\":"@);
    assert(p =~= seq![0x22u8, 0x70u8, 0x72u8, 0x69u8, 0x63u8, 0x65u8, 0x22u8, 0x3au8]);
    assert(q =~= seq![0x22u8, 0x71u8, 0x74u8, 0x79u8, 0x22u8, 0x3au8]);
    if scan::occurs_at(a, p, a.len() - 8) {
        lemma_bytes(a, p, a.len() - 8);
    }
    if scan::occurs_at(a, q, a.len() - 6) {
        lemma_bytes(a, q, a.len() - 6);
    }
}

/// The bytes where `n` stands are those of `n`.
proof fn lemma_bytes(h: Seq<u8>, n: Seq<u8>, i: int)
    requires
        scan::occurs_at(h, n, i),
    ensures
        0 <= i,
        i + n.len() <= h.len(),
        forall|k: int| 0 <= k < n.len() ==> h[i + k] == #[trigger] n[k],
{
    let s = h.subrange(i, i + n.len());
    assert forall|k: int| 0 <= k < n.len() implies h[i + k] == #[trigger] n[k] by {
        assert(s[k] == h[i + k]);
    }
}

/// A key stands in a text where it stands in the front of it.
proof fn lemma_occurs_front(a: Seq<u8>, c: Seq<u8>, n: Seq<u8>, i: int)
    requires
        0 <= i,
        i + n.len() <= a.len(),
    ensures
        scan::occurs_at(a + c, n, i) == scan::occurs_at(a, n, i),
{
    assert((a + c).subrange(i, i + n.len()) =~= a.subrange(i, i + n.len()));
}

/// The first key of a text is the one that no other precedes.
proof fn lemma_first_key(h: Seq<u8>, f: int, price: bool)
    requires
        scan::occurs_at(
            h,
            if price {
                codec::lit("\"price\":")
            } else {
                codec::lit("\"qty\":")
            },
            f,
        ),
        forall|j: int| 0 <= j < f ==> !#[trigger] scan::occurs_at(h, codec::lit("\"price\":"), j),
        forall|j: int| 0 <= j < f ==> !#[trigger] scan::occurs_at(h, codec::lit("\"qty\":"), j),
    ensures
        slow::quote_key_end(h) == Some(
            f + if price {
                8int
            } else {
                6
            },
        ),
{
    let p = codec::lit("\"price\":");
    let q = codec::lit("\"qty\":");
    lemma_keys(h);
    let (own, other) = if price {
        (p, q)
    } else {
        (q, p)
    };
    assert(scan::first_at(h, own, f));
    scan::lemma_find_is(h, own, f);
    scan::lemma_find(h, other);
    lemma_bytes(h, own, f);
    assert(h[f + 1] == own[1]);
    if scan::occurs_at(h, other, f) {
        lemma_bytes(h, other, f);
        assert(h[f + 1] == other[1]);
    }
}

/// The first key of a text that ends in one is also the first one of every
/// text that goes on from there.
proof fn lemma_same_first_key(a: Seq<u8>, c: Seq<u8>)
    requires
        ends_in_key(a),
    ensures
        slow::quote_key_end(a) is Some,
        slow::quote_key_end(a + c) == slow::quote_key_end(a),
        ({
            let i = slow::quote_key_end(a)->Some_0;
            i == a.len() || (i + 6 <= a.len() && exists|m: int|
                i <= m < a.len() && (#[trigger] a[m]) == 0x22 && ends_in_key(a.skip(m)))
        }),
{
    let p = codec::lit("\"price\":");
    let q = codec::lit("\"qty\":");
    let b = a + c;
    lemma_keys(a);
    scan::lemma_find(a, p);
    scan::lemma_find(a, q);
    // the key at the end of a
    let last_price = scan::occurs_at(a, p, a.len() - 8);
    let (last, m) = if last_price {
        (p, a.len() - 8)
    } else {
        (q, a.len() - 6)
    };
    lemma_bytes(a, last, m);
    assert(a[m] == last[0] && a[m + 1] == last[1]);
    // the first key of a
    let price = match (scan::find(a, p), scan::find(a, q)) {
        (Some(x), Some(y)) => x < y,
        (Some(_), None) => true,
        _ => false,
    };
    let (own, f) = if price {
        (p, scan::find(a, p)->Some_0)
    } else {
        (q, scan::find(a, q)->Some_0)
    };
    lemma_bytes(a, own, f);
    assert(f <= m);
    assert(forall|j: int| 0 <= j < f ==> !#[trigger] scan::occurs_at(a, p, j));
    assert(forall|j: int| 0 <= j < f ==> !#[trigger] scan::occurs_at(a, q, j));
    lemma_first_key(a, f, price);
    lemma_occurs_front(a, c, own, f);
    assert forall|j: int| 0 <= j < f implies !#[trigger] scan::occurs_at(b, p, j) by {
        if j + 8 <= a.len() {
            lemma_occurs_front(a, c, p, j);
        } else if scan::occurs_at(b, p, j) {
            // it would reach over the key at the end of a, from one byte on
            lemma_bytes(b, p, j);
            assert(j == m - 1);
            assert(b[j + 1] == p[1]);
            assert(b[m] == a[m]);
        }
    }
    assert forall|j: int| 0 <= j < f implies !#[trigger] scan::occurs_at(b, q, j) by {
        assert(j + 6 <= a.len());
        lemma_occurs_front(a, c, q, j);
    }
    lemma_first_key(b, f, price);
    let i = f + own.len();
    if i != a.len() {
        // neither starts inside the other
        if f == m {
            assert(a[f + 1] == own[1]);
        } else if m < i {
            assert(a[f + (m - f)] == own[m - f]);
            assert(own[m - f] == 0x22);
            assert(m + 1 < i);
            assert(a[f + (m + 1 - f)] == own[m + 1 - f]);
        }
        assert(i <= m);
        let t = a.skip(m);
        assert(t.subrange(0, last.len() as int) =~= a.subrange(m, m + last.len()));
        assert(scan::occurs_at(t, last, 0));
        assert(ends_in_key(t));
    }
}

/// Whitespace and a number token in front of a quote end in front of it,
/// whatever stands behind it.
proof fn lemma_tokens_front(a: Seq<u8>, c: Seq<u8>, i: int, m: int)
    requires
        0 <= i <= m < a.len(),
        a[m] == 0x22,
    ensures
        i <= scan::ws_end(a, i) <= m,
        scan::ws_end(a + c, i) == scan::ws_end(a, i),
        i <= scan::num_end(a, i) <= m,
        scan::num_end(a + c, i) == scan::num_end(a, i),
    decreases m - i,
{
    assert((a + c)[i] == a[i]);
    if i < m {
        lemma_tokens_front(a, c, i + 1, m);
    }
}

/// Tokens behind a text are where they are in the text behind it.
proof fn lemma_tokens_behind(a: Seq<u8>, c: Seq<u8>, k: int)
    requires
        0 <= k <= c.len(),
    ensures
        scan::ws_end(a + c, a.len() + k) == a.len() + scan::ws_end(c, k),
        scan::num_end(a + c, a.len() + k) == a.len() + scan::num_end(c, k),
    decreases c.len() - k,
{
    if k < c.len() {
        assert((a + c)[a.len() + k] == c[k]);
        lemma_tokens_behind(a, c, k + 1);
    }
}

/// The end of a text that ends in a key still ends in it without its front.
proof fn lemma_skip_ends_in_key(a: Seq<u8>, m: int, n: int)
    requires
        0 <= n <= m < a.len(),
        ends_in_key(a.skip(m)),
    ensures
        ends_in_key(a.skip(n)),
{
    lemma_keys(a.skip(m));
    let t = a.skip(m);
    let s = a.skip(n);
    let p = codec::lit("\"price\":");
    let q = codec::lit("\"qty\":");
    if scan::occurs_at(t, p, t.len() - 8) {
        assert(s.subrange(s.len() - 8, s.len() as int) =~= t.subrange(t.len() - 8, t.len() as int));
        assert(scan::occurs_at(s, p, s.len() - 8));
    } else {
        assert(s.subrange(s.len() - 6, s.len() as int) =~= t.subrange(t.len() - 6, t.len() as int));
        assert(scan::occurs_at(s, q, s.len() - 6));
    }
}

/// A number token in quotes, and nothing where there is none.
spec fn token(b: Seq<u8>, w: int, n: int) -> Seq<u8> {
    if n > w {
        seq![0x22u8] + b.subrange(w, n) + seq![0x22u8]
    } else {
        Seq::empty()
    }
}

/// Quoting goes from one key to the next.
proof fn lemma_step(b: Seq<u8>, i: int)
    requires
        slow::quote_key_end(b) == Some(i),
    ensures
        ({
            let w = scan::ws_end(b, i);
            let n = scan::num_end(b, w);
            slow::quoted(b) == b.take(w) + token(b, w, n) + slow::quoted(b.skip(n))
        }),
{
}

proof fn lemma_nothing_quoted()
    ensures
        slow::quoted(Seq::<u8>::empty()) == Seq::<u8>::empty(),
{
    slow::lemma_quote_key_end(Seq::<u8>::empty());
}

/// Where a text holds no key but the one that it ends in.
proof fn lemma_split_last(a: Seq<u8>, c: Seq<u8>)
    requires
        slow::quote_key_end(a) == Some(a.len() as int),
        slow::quote_key_end(a + c) == Some(a.len() as int),
    ensures
        slow::quoted(a + c) == slow::quoted(a) + value_quoted(c),
{
    let b = a + c;
    let k = a.len() as int;
    lemma_step(a, k);
    lemma_step(b, k);
    lemma_nothing_quoted();
    assert(a.skip(k) =~= Seq::<u8>::empty());
    assert(a.take(k) + Seq::<u8>::empty() + Seq::<u8>::empty() =~= a);
    scan::lemma_ws_end(c, 0);
    lemma_tokens_behind(a, c, 0);
    let w = scan::ws_end(c, 0);
    scan::lemma_num_end(c, w);
    lemma_tokens_behind(a, c, w);
    let n = scan::num_end(c, w);
    assert(b.take(k + w) =~= a + c.take(w));
    assert(b.subrange(k + w, k + n) =~= c.subrange(w, n));
    assert(b.skip(k + n) =~= c.skip(n));
    assert(slow::quoted(b) =~= a + value_quoted(c));
}

/// Quoting goes over a text that ends in a key, and then over what is behind.
proof fn lemma_split(a: Seq<u8>, c: Seq<u8>)
    requires
        ends_in_key(a),
    ensures
        slow::quoted(a + c) == slow::quoted(a) + value_quoted(c),
    decreases a.len(),
{
    let b = a + c;
    lemma_same_first_key(a, c);
    slow::lemma_quote_key_end(a);
    let i = slow::quote_key_end(a)->Some_0;
    if i == a.len() {
        lemma_split_last(a, c);
    } else {
        let m = choose|m: int|
            i <= m < a.len() && (#[trigger] a[m]) == 0x22 && ends_in_key(a.skip(m));
        lemma_tokens_front(a, c, i, m);
        let w = scan::ws_end(a, i);
        lemma_tokens_front(a, c, w, m);
        let n = scan::num_end(a, w);
        lemma_skip_ends_in_key(a, m, n);
        let t = a.skip(n);
        lemma_split(t, c);
        lemma_step(a, i);
        lemma_step(b, i);
        assert(b.take(w) =~= a.take(w));
        assert(b.subrange(w, n) =~= a.subrange(w, n));
        assert(b.skip(n) =~= t + c);
        let front = a.take(w) + token(a, w, n);
        assert(front + (slow::quoted(t) + value_quoted(c)) =~= front + slow::quoted(t)
            + value_quoted(c));
    }
}

/// Whitespace in front of a value stays in front of it.
proof fn lemma_value_ws(w: Seq<u8>, c: Seq<u8>)
    requires
        all_ws(w),
    ensures
        value_quoted(w + c) == w + value_quoted(c),
{
    let b = w + c;
    lemma_ws_front(w, c, 0);
    scan::lemma_ws_end(c, 0);
    lemma_tokens_behind(w, c, 0);
    let k = scan::ws_end(c, 0);
    scan::lemma_num_end(c, k);
    lemma_tokens_behind(w, c, k);
    let n = scan::num_end(c, k);
    assert(b.take(w.len() + k) =~= w + c.take(k));
    assert(b.subrange(w.len() + k, w.len() + n) =~= c.subrange(k, n));
    assert(b.skip(w.len() + n) =~= c.skip(n));
    assert(value_quoted(b) =~= w + value_quoted(c));
}

/// Whitespace goes on behind whitespace.
proof fn lemma_ws_front(w: Seq<u8>, c: Seq<u8>, i: int)
    requires
        all_ws(w),
        0 <= i <= w.len(),
    ensures
        scan::ws_end(w + c, i) == scan::ws_end(w + c, w.len() as int),
    decreases w.len() - i,
{
    if i < w.len() {
        assert((w + c)[i] == w[i]);
        lemma_ws_front(w, c, i + 1);
    }
}

/// An ASCII byte in front of a text makes no difference to its being UTF-8.
proof fn lemma_ascii_front(x: u8, r: Seq<u8>)
    requires
        x < 128,
    ensures
        valid_utf8(seq![x] + r) == valid_utf8(r),
{
    let s = seq![x];
    assert(text::all_ascii(s));
    text::lemma_chars_of_utf8(s);
    encode_utf8_valid_utf8(text::chars_of(s));
    assert(valid_utf8(s));
    if valid_utf8(r) {
        valid_utf8_concat(s, r);
    }
    if valid_utf8(s + r) {
        assert((s + r)[0] == s[0]);
        assert(pop_first_scalar(s + r) =~= r);
    }
}

/// Whitespace behind a colon makes no difference to a text's being UTF-8.
proof fn lemma_text(a: Seq<u8>, w: Seq<u8>, c: Seq<u8>)
    requires
        a.len() > 0,
        a.last() == 0x3a,
        all_ws(w),
    ensures
        valid_utf8(a + w + c) == valid_utf8(a + c),
    decreases w.len(),
{
    if w.len() == 0 {
        assert(a + w + c =~= a + c);
    } else {
        let x = w.last();
        let v = w.drop_last();
        assert forall|i: int| 0 <= i < v.len() implies scan::is_ws(#[trigger] v[i]) by {
            assert(v[i] == w[i]);
        }
        lemma_text(a, v, c);
        assert(scan::is_ws(w[w.len() - 1]));
        let d = a + v;
        assert(d.last() == 0x3a || scan::is_ws(d.last())) by {
            if v.len() > 0 {
                assert(d.last() == v[v.len() - 1]);
            }
        }
        lemma_ascii_front(x, c);
        lemma_behind_ascii(d, c);
        lemma_behind_ascii(d, seq![x] + c);
        assert(a + w + c =~= d + (seq![x] + c));
    }
}

/// Behind an ASCII byte a text may be cut in two.
proof fn lemma_behind_ascii(d: Seq<u8>, r: Seq<u8>)
    requires
        d.len() > 0,
        d.last() < 128,
    ensures
        valid_utf8(d + r) == (valid_utf8(d.drop_last()) && valid_utf8(r)),
{
    let front = d.drop_last();
    let x = d.last();
    let b = d + r;
    let k = front.len() as int;
    lemma_ascii_front(x, r);
    assert(b =~= front + (seq![x] + r));
    if valid_utf8(front) && valid_utf8(r) {
        valid_utf8_concat(front, seq![x] + r);
    }
    if valid_utf8(b) {
        assert(b[k] == x);
        assert(!is_continuation_byte(x)) by (bit_vector)
            requires
                x < 128,
        ;
        is_char_boundary_iff_not_is_continuation_byte(b, k);
        valid_utf8_split(b, k);
        assert(b.subrange(0, k) =~= front);
        assert(b.subrange(k, b.len() as int) =~= seq![x] + r);
    }
}

} // verus!
