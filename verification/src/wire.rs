//! Messages as text: parts one behind the other, and what the scanning
//! primitives read at them.
use crate::scan;
use crate::text;
use vstd::prelude::*;
use vstd::utf8::*;

verus! {

/// The first occurrence from `i` on is the one at `k` that nothing precedes.
pub proof fn lemma_past_is(b: Seq<u8>, i: int, n: Seq<u8>, k: int)
    requires
        0 <= i <= k,
        scan::occurs_at(b, n, k),
        forall|j: int| i <= j < k ==> !#[trigger] scan::occurs_at(b, n, j),
    ensures
        scan::past(b, i, n) == Some(k + n.len()),
{
    let h = b.skip(i);
    assert(h.subrange(k - i, k - i + n.len()) =~= b.subrange(k, k + n.len()));
    assert forall|j: int| 0 <= j < k - i implies !#[trigger] scan::occurs_at(h, n, j) by {
        if scan::occurs_at(h, n, j) {
            assert(b.subrange(i + j, i + j + n.len()) =~= h.subrange(j, j + n.len()));
            assert(scan::occurs_at(b, n, i + j));
        }
    }
    scan::lemma_find_is(h, n, k - i);
}

/// An occurrence holds the bytes of what occurs.
pub proof fn lemma_occurs_bytes(b: Seq<u8>, n: Seq<u8>, k: int)
    requires
        scan::occurs_at(b, n, k),
    ensures
        forall|x: int| k <= x < k + n.len() ==> #[trigger] b[x] == n[x - k],
{
    assert forall|x: int| k <= x < k + n.len() implies #[trigger] b[x] == n[x - k] by {
        assert(b[x] == b.subrange(k, k + n.len())[x - k]);
    }
}

/// What occurs in a text occurs where the text does.
pub proof fn lemma_occurs_in(b: Seq<u8>, f: Seq<u8>, i: int, g: Seq<u8>, k: int)
    requires
        scan::occurs_at(b, f, i),
        scan::occurs_at(f, g, k),
    ensures
        scan::occurs_at(b, g, i + k),
{
    assert(b.subrange(i + k, i + k + g.len()) =~= b.subrange(i, i + f.len()).subrange(
        k,
        k + g.len(),
    ));
}

/// A key that stands in a mark is found there, from where its first three
/// bytes do not precede it.
pub proof fn lemma_key_in_mark(
    b: Seq<u8>,
    at: int,
    mark: Seq<u8>,
    key: Seq<u8>,
    from: int,
    skip: int,
)
    requires
        scan::occurs_at(b, mark, at),
        0 <= from <= skip,
        skip + key.len() <= mark.len(),
        mark.subrange(skip, skip + key.len()) == key,
        key.len() > 2,
        forall|x: int|
            from <= x < skip ==> !(#[trigger] mark[x] == key[0] && mark[x + 1] == key[1] && mark[x
                + 2] == key[2]),
    ensures
        scan::past(b, at + from, key) == Some(at + skip + key.len()),
{
    lemma_occurs_bytes(b, mark, at);
    assert(b.subrange(at + skip, at + skip + key.len()) =~= key) by {
        assert forall|x: int| 0 <= x < key.len() implies b[at + skip + x] == #[trigger] key[x] by {
            assert(key[x] == mark.subrange(skip, skip + key.len())[x]);
        }
    }
    assert forall|j: int| at + from <= j < at + skip implies !#[trigger] scan::occurs_at(
        b,
        key,
        j,
    ) by {
        if scan::occurs_at(b, key, j) {
            lemma_occurs_bytes(b, key, j);
            assert(b[j] == key[0] && b[j + 1] == key[1] && b[j + 2] == key[2]);
            assert(b[j] == mark[j - at] && b[j + 1] == mark[j + 1 - at] && b[j + 2] == mark[j + 2
                - at]);
        }
    }
    lemma_past_is(b, at + from, key, at + skip);
}

/// Two texts without quotes that start at one place and end at a quote are
/// the same.
pub proof fn lemma_ended_alike(b: Seq<u8>, i: int, s: Seq<u8>, t: Seq<u8>)
    requires
        scan::occurs_at(b, s, i),
        scan::occurs_at(b, t, i),
        scan::byte_at(b, i + s.len(), 0x22),
        scan::byte_at(b, i + t.len(), 0x22),
        plain(s),
        plain(t),
    ensures
        s == t,
{
    lemma_occurs_bytes(b, s, i);
    lemma_occurs_bytes(b, t, i);
    if s.len() < t.len() {
        assert(b[i + s.len()] == t[s.len() as int]);
    } else if t.len() < s.len() {
        assert(b[i + t.len()] == s[t.len() as int]);
    }
    assert(s =~= t) by {
        assert forall|x: int| 0 <= x < s.len() implies s[x] == #[trigger] t[x] by {
            assert(b[i + x] == s[x]);
        }
    }
}

/// A text that ends with a quote, behind the start `p`, is told by what
/// stands between them.
pub proof fn lemma_told(b: Seq<u8>, i: int, p: Seq<u8>, s: Seq<u8>, t: Seq<u8>)
    requires
        scan::occurs_at(b, p, i),
        scan::occurs_at(b, s, i + p.len()),
        scan::byte_at(b, i + p.len() + s.len(), 0x22),
        plain(s),
        plain(t),
    ensures
        scan::occurs_at(b, p + t + seq![0x22u8], i) == (s == t),
{
    let f = p + t + seq![0x22u8];
    if scan::occurs_at(b, f, i) {
        assert(f.subrange(p.len() as int, (p.len() + t.len()) as int) =~= t);
        lemma_occurs_in(b, f, i, t, p.len() as int);
        lemma_occurs_bytes(b, f, i);
        assert(b[i + p.len() + t.len()] == f[(p.len() + t.len()) as int]);
        lemma_ended_alike(b, i + p.len(), s, t);
    }
    if s == t {
        lemma_occurs_bytes(b, p, i);
        lemma_occurs_bytes(b, s, i + p.len());
        assert(b.subrange(i, i + f.len()) =~= f) by {
            assert forall|x: int| 0 <= x < f.len() implies b[i + x] == #[trigger] f[x] by {
                if x < p.len() {
                    assert(b[i + x] == p[x]);
                } else if x < p.len() + t.len() {
                    assert(b[i + x] == s[x - p.len()]);
                }
            }
        }
    }
}

/// Text without quotes and backslashes.
pub open spec fn plain(s: Seq<u8>) -> bool {
    forall|i: int| 0 <= i < s.len() ==> #[trigger] s[i] != 0x22 && s[i] != 0x5c
}

/// The string between two quotes is read as it stands.
pub proof fn lemma_str_at_is(b: Seq<u8>, i: int, s: Seq<u8>)
    requires
        0 <= i,
        i + 1 + s.len() < b.len(),
        b[i] == 0x22,
        scan::occurs_at(b, s, i + 1),
        b[i + 1 + s.len()] == 0x22,
        plain(s),
    ensures
        scan::str_at(b, i) == Some((s, i + 2 + s.len())),
{
    let h = b.skip(i + 1);
    let q = seq![0x22u8];
    let n = s.len() as int;
    lemma_occurs_bytes(b, s, i + 1);
    assert(h.subrange(n, n + 1) =~= q);
    assert forall|j: int| 0 <= j < n implies !#[trigger] scan::occurs_at(h, q, j) by {
        assert(b[i + 1 + j] == s[j]);
        assert(h.subrange(j, j + 1)[0] == b[i + 1 + j]);
    }
    scan::lemma_find_is(h, q, n);
    assert(b.subrange(i + 1, i + 1 + n) =~= s);
}

/// Reading digits goes on to the end of the run.
proof fn lemma_digits_scan(b: Seq<u8>, i: int, j: int, e: int)
    requires
        0 <= i <= j <= e <= b.len(),
        text::all_digits(b.subrange(i, e)),
        e < b.len() ==> !text::is_digit(b[e]),
        text::digits_value(b.subrange(i, e)) <= u64::MAX,
    ensures
        scan::u64_scan(b, j, text::digits_value(b.subrange(i, j))) == (
            Some(text::digits_value(b.subrange(i, e)) as u64),
            e,
        ),
    decreases e - j,
{
    if j < e {
        let all = b.subrange(i, e);
        let next = b.subrange(i, j + 1);
        assert(b[j] == all[j - i]);
        assert(next.drop_last() =~= b.subrange(i, j));
        assert(next =~= all.take(j + 1 - i));
        text::lemma_digits_value_prefix(all, j + 1 - i);
        lemma_digits_scan(b, i, j + 1, e);
    }
}

/// A decimal number that no digit follows is read as it stands.
pub proof fn lemma_u64_at_is(b: Seq<u8>, i: int, n: u64)
    requires
        scan::occurs_at(b, text::dec_bytes(n as nat), i),
        i + text::dec_bytes(n as nat).len() < b.len() ==> !text::is_digit(
            b[i + text::dec_bytes(n as nat).len()],
        ),
    ensures
        scan::u64_at(b, i) == (Some(n), i + text::dec_bytes(n as nat).len()),
{
    let d = text::dec_bytes(n as nat);
    text::lemma_dec_bytes(n as nat);
    assert(b[i] == b.subrange(i, i + d.len())[0]);
    assert(b.subrange(i, i) =~= Seq::<u8>::empty());
    lemma_digits_scan(b, i, i, i + d.len());
}

/// A number token that no byte of a number follows is read as it stands.
pub proof fn lemma_num_at_is(b: Seq<u8>, i: int, s: Seq<u8>)
    requires
        scan::occurs_at(b, s, i),
        s.len() > 0,
        forall|x: int| 0 <= x < s.len() ==> scan::is_num(#[trigger] s[x]),
        i + s.len() < b.len() ==> !scan::is_num(b[i + s.len()]),
    ensures
        scan::num_at(b, i) == Some((s, i + s.len())),
{
    lemma_num_end_is(b, i, s, 0);
    assert(b.subrange(i, i + s.len()) =~= s);
}

/// A number token ends where it does, from each of its bytes on.
proof fn lemma_num_end_is(b: Seq<u8>, i: int, s: Seq<u8>, k: int)
    requires
        scan::occurs_at(b, s, i),
        0 <= k <= s.len(),
        forall|x: int| 0 <= x < s.len() ==> scan::is_num(#[trigger] s[x]),
        i + s.len() < b.len() ==> !scan::is_num(b[i + s.len()]),
    ensures
        scan::num_end(b, i + k) == i + s.len(),
    decreases s.len() - k,
{
    if k < s.len() {
        lemma_occurs_bytes(b, s, i);
        assert(b[i + k] == s[k]);
        lemma_num_end_is(b, i, s, k + 1);
    }
}

/// ASCII is UTF-8.
pub proof fn lemma_ascii_valid(b: Seq<u8>)
    requires
        text::all_ascii(b),
    ensures
        valid_utf8(b),
{
    let c = Seq::new(b.len(), |i: int| b[i] as char);
    is_ascii_chars_encode_utf8(c);
    encode_utf8_valid_utf8(c);
    assert(encode_utf8(c) =~= b);
}

/// A list of valid items is valid.
pub proof fn lemma_list_valid(items: Seq<Seq<u8>>, k: int)
    requires
        0 <= k <= items.len(),
        forall|i: int| 0 <= i < items.len() ==> valid_utf8(#[trigger] items[i]),
    ensures
        valid_utf8(list_from(items, k)),
    decreases items.len() - k,
{
    reveal(list_from);
    lemma_ascii_valid(seq![0x2cu8]);
    lemma_ascii_valid(seq![0x5du8]);
    if k + 1 < items.len() {
        lemma_list_valid(items, k + 1);
        valid_utf8_concat(items[k], seq![0x2cu8]);
        valid_utf8_concat(items[k] + seq![0x2cu8], list_from(items, k + 1));
    } else if k < items.len() {
        valid_utf8_concat(items[k], seq![0x5du8]);
    }
}

/// Valid parts are valid one behind the other.
pub proof fn lemma_joined_valid(parts: Seq<Seq<u8>>)
    requires
        forall|i: int| 0 <= i < parts.len() ==> valid_utf8(#[trigger] parts[i]),
    ensures
        valid_utf8(joined(parts)),
    decreases parts.len(),
{
    if parts.len() > 0 {
        let init = parts.drop_last();
        assert forall|i: int| 0 <= i < init.len() implies valid_utf8(#[trigger] init[i]) by {
            assert(init[i] == parts[i]);
        }
        lemma_joined_valid(init);
        valid_utf8_concat(joined(init), parts.last());
    }
}

/// The items of a list from `k` on, with commas between them, and the closing
/// bracket.
#[verifier::opaque]
pub open spec fn list_from(items: Seq<Seq<u8>>, k: int) -> Seq<u8>
    decreases items.len() - k,
{
    if !(0 <= k < items.len()) {
        seq![0x5du8]
    } else if k + 1 < items.len() {
        items[k] + seq![0x2cu8] + list_from(items, k + 1)
    } else {
        items[k] + seq![0x5du8]
    }
}

/// An item of a list stands at its start, and a comma and the rest or the
/// closing bracket behind it.
pub proof fn lemma_list_item(b: Seq<u8>, i: int, items: Seq<Seq<u8>>, k: int)
    requires
        0 <= k < items.len(),
        scan::occurs_at(b, list_from(items, k), i),
    ensures
        scan::occurs_at(b, items[k], i),
        i + items[k].len() < b.len(),
        k + 1 < items.len() ==> b[i + items[k].len()] == 0x2c && scan::occurs_at(
            b,
            list_from(items, k + 1),
            i + items[k].len() + 1,
        ) && list_from(items, k).len() == items[k].len() + 1 + list_from(items, k + 1).len(),
        k + 1 == items.len() ==> b[i + items[k].len()] == 0x5d && list_from(items, k).len()
            == items[k].len() + 1,
{
    let f = list_from(items, k);
    let g = items[k];
    let n: int = g.len() as int;
    reveal(list_from);
    assert(f.subrange(0, n) =~= g);
    lemma_occurs_in(b, f, i, g, 0);
    lemma_occurs_bytes(b, f, i);
    assert(b[i + n] == f[n]);
    if k + 1 < items.len() {
        let r = list_from(items, k + 1);
        assert(f.subrange(n + 1, n + 1 + r.len()) =~= r);
        lemma_occurs_in(b, f, i, r, n + 1);
    }
}

/// A list without items is its closing bracket.
pub proof fn lemma_list_empty(b: Seq<u8>, i: int, items: Seq<Seq<u8>>)
    requires
        items.len() == 0,
        scan::occurs_at(b, list_from(items, 0), i),
    ensures
        i < b.len(),
        b[i] == 0x5d,
        list_from(items, 0).len() == 1,
{
    reveal(list_from);
    lemma_occurs_bytes(b, list_from(items, 0), i);
    assert(b[i] == list_from(items, 0)[0]);
}

/// The parts one behind the other.
pub open spec fn joined(parts: Seq<Seq<u8>>) -> Seq<u8>
    decreases parts.len(),
{
    if parts.len() == 0 {
        Seq::empty()
    } else {
        joined(parts.drop_last()) + parts.last()
    }
}

/// Where the part `k` starts among the parts joined.
pub open spec fn part_start(parts: Seq<Seq<u8>>, k: int) -> int
    decreases k,
{
    if k <= 0 {
        0
    } else {
        part_start(parts, k - 1) + parts[k - 1].len()
    }
}

/// Where a part starts does not depend on the parts behind it.
proof fn lemma_part_start(parts: Seq<Seq<u8>>, more: Seq<Seq<u8>>, k: int)
    requires
        0 <= k <= parts.len() <= more.len(),
        forall|i: int| 0 <= i < parts.len() ==> #[trigger] parts[i] == more[i],
    ensures
        part_start(parts, k) == part_start(more, k),
        part_start(parts, k) >= 0,
    decreases k,
{
    if k > 0 {
        lemma_part_start(parts, more, k - 1);
        assert(parts[k - 1] == more[k - 1]);
    }
}

/// Every part stands where it starts.
pub proof fn lemma_joined(parts: Seq<Seq<u8>>, k: int)
    requires
        0 <= k < parts.len(),
    ensures
        scan::occurs_at(joined(parts), parts[k], part_start(parts, k)),
        part_start(parts, k + 1) == part_start(parts, k) + parts[k].len(),
        0 <= part_start(parts, k),
        part_start(parts, k + 1) <= joined(parts).len(),
        k == parts.len() - 1 ==> part_start(parts, k + 1) == joined(parts).len(),
    decreases parts.len(),
{
    let init = parts.drop_last();
    let b = joined(parts);
    lemma_part_start(parts, parts, k);
    if k < parts.len() - 1 {
        lemma_joined(init, k);
        lemma_part_start(init, parts, k);
        lemma_part_start(init, parts, k + 1);
        assert(init[k] == parts[k]);
        let at = part_start(parts, k);
        assert(b.subrange(at, at + parts[k].len()) =~= joined(init).subrange(
            at,
            at + parts[k].len(),
        ));
    } else {
        if init.len() > 0 {
            lemma_joined(init, init.len() - 1);
        }
        lemma_part_start(init, parts, k);
        assert(part_start(parts, k) == joined(init).len()) by {
            if init.len() > 0 {
                assert(part_start(init, k) == joined(init).len());
            }
        }
        assert(b.subrange(joined(init).len() as int, b.len() as int) =~= parts[k]);
    }
}

} // verus!
