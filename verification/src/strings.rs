//! Small operations on text: trimming, ASCII case, splitting and numbers.
use crate::text;
use vstd::prelude::*;
use vstd::string::*;
use vstd::utf8::*;

verus! {

/// A white-space character, as Unicode has it.
pub open spec fn is_white(c: char) -> bool {
    ||| '\u{9}' <= c <= '\u{d}'
    ||| c == ' '
    ||| c == '\u{85}'
    ||| c == '\u{a0}'
    ||| c == '\u{1680}'
    ||| '\u{2000}' <= c <= '\u{200a}'
    ||| c == '\u{2028}'
    ||| c == '\u{2029}'
    ||| c == '\u{202f}'
    ||| c == '\u{205f}'
    ||| c == '\u{3000}'
}

/// `s` without the white space in front.
pub open spec fn trim_front(s: Seq<char>) -> Seq<char>
    decreases s.len(),
{
    if s.len() > 0 && is_white(s[0]) {
        trim_front(s.drop_first())
    } else {
        s
    }
}

/// `s` without the white space behind.
pub open spec fn trim_back(s: Seq<char>) -> Seq<char>
    decreases s.len(),
{
    if s.len() > 0 && is_white(s.last()) {
        trim_back(s.drop_last())
    } else {
        s
    }
}

/// `s` without the white space around it.
pub open spec fn trimmed(s: Seq<char>) -> Seq<char> {
    trim_back(trim_front(s))
}

/// A white-space character, as Unicode has it.
pub fn white(c: char) -> (r: bool)
    ensures
        r == is_white(c),
{
    ('\u{9}' <= c && c <= '\u{d}') || c == ' ' || c == '\u{85}' || c == '\u{a0}' || c == '\u{1680}'
        || ('\u{2000}' <= c && c <= '\u{200a}') || c == '\u{2028}' || c == '\u{2029}' || c
        == '\u{202f}' || c == '\u{205f}' || c == '\u{3000}'
}

/// `s` without the white space around it.
pub fn trim<'a>(s: &'a str) -> (r: &'a str)
    ensures
        r@ == trimmed(s@),
{
    let n: usize = s.unicode_len();
    let mut i: usize = 0;
    assert(s@.subrange(0, n as int) =~= s@);
    while i < n && white(s.get_char(i))
        invariant
            i <= n,
            n == s@.len(),
            trim_front(s@.subrange(i as int, n as int)) == trim_front(s@),
        decreases n - i,
    {
        assert(s@.subrange(i as int, n as int).drop_first() =~= s@.subrange(i + 1, n as int));
        i += 1;
    }
    let ghost f = s@.subrange(i as int, n as int);
    let mut j: usize = n;
    while j > i && white(s.get_char(j - 1))
        invariant
            i <= j <= n,
            n == s@.len(),
            trim_back(s@.subrange(i as int, j as int)) == trim_back(f),
        decreases j,
    {
        assert(s@.subrange(i as int, j as int).drop_last() =~= s@.subrange(i as int, j - 1));
        j -= 1;
    }
    s.substring_char(i, j)
}

/// The unsigned integer that the text `b` is: digits, with a plus sign in
/// front or none, of a value that fits.
pub open spec fn number_of(b: Seq<u8>) -> Option<u64> {
    let i = if b.len() > 0 && b[0] == 0x2b {
        1int
    } else {
        0
    };
    let d = b.skip(i);
    if d.len() > 0 && text::all_digits(d) && text::digits_value(d) <= u64::MAX {
        Some(text::digits_value(d) as u64)
    } else {
        None
    }
}

/// The unsigned integer that a text is.
pub fn parse_u64(s: &str) -> (r: Option<u64>)
    ensures
        r == number_of(encode_utf8(s@)),
{
    digits_u64(s.as_bytes())
}

/// The unsigned integer that some bytes are.
pub fn digits_u64(b: &[u8]) -> (r: Option<u64>)
    ensures
        r == number_of(b@),
{
    let start: usize = if b.len() > 0 && b[0] == 0x2b {
        1
    } else {
        0
    };
    let ghost d = b@.skip(start as int);
    if start >= b.len() {
        return None;
    }
    let mut v: u64 = 0;
    let mut i: usize = start;
    assert(d.take(0) =~= Seq::<u8>::empty());
    while i < b.len()
        invariant
            start <= i <= b@.len(),
            d == b@.skip(start as int),
            number_of(b@) == (if text::all_digits(d) && text::digits_value(d) <= u64::MAX {
                Some(text::digits_value(d) as u64)
            } else {
                None
            }),
            text::all_digits(d.take(i - start)),
            v == text::digits_value(d.take(i - start)),
        decreases b@.len() - i,
    {
        let c: u8 = b[i];
        let ghost k = i - start;
        assert(d[k] == c);
        if c < 0x30 || c > 0x39 {
            return None;
        }
        let w: u128 = (v as u128) * 10 + (c - 0x30) as u128;
        proof {
            assert(d.take(k + 1).drop_last() =~= d.take(k));
            assert(text::digits_value(d.take(k + 1)) == w);
            assert forall|j: int| 0 <= j < d.take(k + 1).len() implies text::is_digit(
                #[trigger] d.take(k + 1)[j],
            ) by {
                if j < k {
                    assert(d.take(k)[j] == d[j]);
                }
            }
        }
        if w > u64::MAX as u128 {
            proof {
                if text::all_digits(d) {
                    text::lemma_digits_value_prefix(d, k + 1);
                }
            }
            return None;
        }
        v = w as u64;
        i += 1;
    }
    assert(d.take(i - start) =~= d);
    Some(v)
}

/// An ASCII capital as a small letter, and any other character as it is.
pub open spec fn lower(c: char) -> char {
    if 'A' <= c <= 'Z' {
        (c as u8 + 32) as char
    } else {
        c
    }
}

/// An ASCII small letter as a capital, and any other character as it is.
pub open spec fn upper(c: char) -> char {
    if 'a' <= c <= 'z' {
        (c as u8 - 32) as char
    } else {
        c
    }
}

/// `s` with its ASCII letters small.
pub open spec fn lowered(s: Seq<char>) -> Seq<char> {
    s.map_values(|c: char| lower(c))
}

/// `s` with its ASCII letters capital.
pub open spec fn uppered(s: Seq<char>) -> Seq<char> {
    s.map_values(|c: char| upper(c))
}

/// `s` with its ASCII letters small.
pub fn ascii_lower(s: &str) -> (r: String)
    ensures
        r@ == lowered(s@),
{
    let n: usize = s.unicode_len();
    let mut out: String = String::new();
    let mut i: usize = 0;
    assert(out@ =~= lowered(s@.take(0)));
    while i < n
        invariant
            i <= n,
            n == s@.len(),
            out@ == lowered(s@.take(i as int)),
        decreases n - i,
    {
        let c: char = s.get_char(i);
        if 'A' <= c && c <= 'Z' {
            out.push((c as u8 + 32) as char);
        } else {
            out.push(c);
        }
        i += 1;
        assert(out@ =~= lowered(s@.take(i as int)));
    }
    assert(s@.take(i as int) =~= s@);
    out
}

/// `s` with its ASCII letters capital.
pub fn ascii_upper(s: &str) -> (r: String)
    ensures
        r@ == uppered(s@),
{
    let n: usize = s.unicode_len();
    let mut out: String = String::new();
    let mut i: usize = 0;
    assert(out@ =~= uppered(s@.take(0)));
    while i < n
        invariant
            i <= n,
            n == s@.len(),
            out@ == uppered(s@.take(i as int)),
        decreases n - i,
    {
        let c: char = s.get_char(i);
        if 'a' <= c && c <= 'z' {
            out.push((c as u8 - 32) as char);
        } else {
            out.push(c);
        }
        i += 1;
        assert(out@ =~= uppered(s@.take(i as int)));
    }
    assert(s@.take(i as int) =~= s@);
    out
}

/// The non-empty parts of `s` between commas, where a part started at `from`
/// and has been read up to `i`.
pub open spec fn parts_from(s: Seq<char>, from: int, i: int) -> Seq<Seq<char>>
    decreases s.len() - i,
{
    let part = if from < i {
        seq![s.subrange(from, i)]
    } else {
        Seq::empty()
    };
    if !(0 <= from <= i < s.len()) {
        part
    } else if s[i] == ',' {
        part + parts_from(s, i + 1, i + 1)
    } else {
        parts_from(s, from, i + 1)
    }
}

/// The non-empty parts of `s` between commas.
pub open spec fn parts(s: Seq<char>) -> Seq<Seq<char>> {
    parts_from(s, 0, 0)
}

/// The texts of some strings.
pub open spec fn texts(v: Seq<&str>) -> Seq<Seq<char>> {
    Seq::new(v.len(), |i: int| v[i]@)
}

/// The non-empty parts of `s` between commas.
pub fn split_commas<'a>(s: &'a str) -> (r: Vec<&'a str>)
    ensures
        texts(r@) == parts(s@),
{
    let n: usize = s.unicode_len();
    let mut out: Vec<&'a str> = Vec::new();
    let mut from: usize = 0;
    let mut i: usize = 0;
    assert(texts(out@) + parts_from(s@, 0, 0) =~= parts(s@));
    while i < n
        invariant
            from <= i <= n,
            n == s@.len(),
            texts(out@) + parts_from(s@, from as int, i as int) == parts(s@),
        decreases n - i,
    {
        if s.get_char(i) == ',' {
            let ghost before = texts(out@);
            if from < i {
                out.push(s.substring_char(from, i));
                assert(texts(out@) =~= before + seq![s@.subrange(from as int, i as int)]);
            } else {
                assert(before =~= before + Seq::<Seq<char>>::empty());
            }
            assert(texts(out@) + parts_from(s@, i + 1, i + 1) =~= before + parts_from(
                s@,
                from as int,
                i as int,
            ));
            from = i + 1;
        }
        i += 1;
    }
    if from < n {
        let ghost before = texts(out@);
        out.push(s.substring_char(from, n));
        assert(texts(out@) =~= before + seq![s@.subrange(from as int, n as int)]);
    } else {
        assert(texts(out@) =~= texts(out@) + Seq::<Seq<char>>::empty());
    }
    out
}

} // verus!
