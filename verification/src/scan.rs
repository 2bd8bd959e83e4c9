//! Zero-allocation scanning primitives for the fast-path codecs.
//!
//! Venue payloads are compact machine-generated JSON with known shapes; the
//! fast path doesn't build a DOM, it walks bytes. Anything surprising makes
//! the codec return `CodecError::Structure` and the caller retries via the
//! slow path, so these primitives may be strict.
use crate::text;
use memchr::memmem;
use vstd::prelude::*;
use vstd::slice::slice_subrange;

verus! {

/// `n` stands in `h` at the offset `i`.
pub open spec fn occurs_at(h: Seq<u8>, n: Seq<u8>, i: int) -> bool {
    0 <= i && i + n.len() <= h.len() && h.subrange(i, i + n.len()) == n
}

/// `i` is the first offset of `h` at which `n` stands.
pub open spec fn first_at(h: Seq<u8>, n: Seq<u8>, i: int) -> bool {
    occurs_at(h, n, i) && forall|j: int| 0 <= j < i ==> !#[trigger] occurs_at(h, n, j)
}

/// The first offset at which `n` stands in `h`, if it does.
pub open spec fn find(h: Seq<u8>, n: Seq<u8>) -> Option<int> {
    if exists|i: int| occurs_at(h, n, i) {
        Some(choose|i: int| first_at(h, n, i))
    } else {
        None
    }
}

/// Behind the first occurrence of `n` in `b` at or after `i`, if there is one.
pub open spec fn past(b: Seq<u8>, i: int, n: Seq<u8>) -> Option<int> {
    match find(b.skip(i), n) {
        Some(at) => Some(i + at + n.len()),
        None => None,
    }
}

/// JSON insignificant whitespace.
pub open spec fn is_ws(c: u8) -> bool {
    c == 0x20 || c == 0x09 || c == 0x0a || c == 0x0d
}

/// The end of the whitespace of `b` from `i` on.
pub open spec fn ws_end(b: Seq<u8>, i: int) -> int
    decreases b.len() - i,
{
    if 0 <= i < b.len() && is_ws(b[i]) {
        ws_end(b, i + 1)
    } else {
        i
    }
}

/// The byte of `b` at `i` is `c`.
pub open spec fn byte_at(b: Seq<u8>, i: int, c: u8) -> bool {
    0 <= i < b.len() && b[i] == c
}

/// Behind `s`, if it stands in `b` at `i`.
pub open spec fn lit_at(b: Seq<u8>, i: int, s: Seq<u8>) -> Option<int> {
    if occurs_at(b, s, i) {
        Some(i + s.len())
    } else {
        None
    }
}

/// A byte of a JSON number token.
pub open spec fn is_num(c: u8) -> bool {
    text::is_digit(c) || c == 0x2d || c == 0x2b || c == 0x2e || c == 0x65 || c == 0x45
}

/// The end of the number token of `b` at `i`.
pub open spec fn num_end(b: Seq<u8>, i: int) -> int
    decreases b.len() - i,
{
    if 0 <= i < b.len() && is_num(b[i]) {
        num_end(b, i + 1)
    } else {
        i
    }
}

/// The number token of `b` at `i` and the offset behind it.
pub open spec fn num_at(b: Seq<u8>, i: int) -> Option<(Seq<u8>, int)> {
    if num_end(b, i) == i {
        None
    } else {
        Some((b.subrange(i, num_end(b, i)), num_end(b, i)))
    }
}

/// The inner bytes of the JSON string of `b` that opens at `i`, and the
/// offset behind it: there has to be a closing quote and no backslash.
pub open spec fn str_at(b: Seq<u8>, i: int) -> Option<(Seq<u8>, int)> {
    if !byte_at(b, i, 0x22) {
        None
    } else {
        match find(b.skip(i + 1), seq![0x22u8]) {
            None => None,
            Some(n) => {
                let inner = b.subrange(i + 1, i + 1 + n);
                if inner.contains(0x5c) {
                    None
                } else {
                    Some((inner, i + 2 + n))
                }
            },
        }
    }
}

/// Digits of `b` from `j` on, on top of the value `v`: where the value stops
/// fitting 64 bits, or the whole run.
pub open spec fn u64_scan(b: Seq<u8>, j: int, v: nat) -> (Option<u64>, int)
    decreases b.len() - j,
{
    if 0 <= j < b.len() && text::is_digit(b[j]) {
        let w = v * 10 + (b[j] - 0x30) as nat;
        if w > u64::MAX {
            (None, j)
        } else {
            u64_scan(b, j + 1, w)
        }
    } else {
        (Some(v as u64), j)
    }
}

/// The unsigned integer of `b` at `i`, if there is one that fits, and where
/// reading it stops.
pub open spec fn u64_at(b: Seq<u8>, i: int) -> (Option<u64>, int) {
    if 0 <= i < b.len() && text::is_digit(b[i]) {
        u64_scan(b, i, 0)
    } else {
        (None, i)
    }
}

/// An offset at which `n` stands leads to a first one.
pub proof fn lemma_find_exists(h: Seq<u8>, n: Seq<u8>, i: int)
    requires
        occurs_at(h, n, i),
    ensures
        exists|k: int| first_at(h, n, k),
    decreases i,
{
    if exists|j: int| 0 <= j < i && #[trigger] occurs_at(h, n, j) {
        let j = choose|j: int| 0 <= j < i && #[trigger] occurs_at(h, n, j);
        lemma_find_exists(h, n, j);
    } else {
        assert(first_at(h, n, i));
    }
}

/// The first occurrence is the one that nothing precedes.
pub proof fn lemma_find_is(h: Seq<u8>, n: Seq<u8>, i: int)
    requires
        first_at(h, n, i),
    ensures
        find(h, n) == Some(i),
{
    let k = choose|k: int| first_at(h, n, k);
    assert(first_at(h, n, k));
    assert(!(k < i) && !(i < k));
}

/// What `find` returns is the first occurrence.
pub proof fn lemma_find(h: Seq<u8>, n: Seq<u8>)
    ensures
        match find(h, n) {
            Some(i) => first_at(h, n, i),
            None => forall|i: int| !#[trigger] occurs_at(h, n, i),
        },
{
    if exists|i: int| occurs_at(h, n, i) {
        let i = choose|i: int| occurs_at(h, n, i);
        lemma_find_exists(h, n, i);
    }
}

/// Whitespace ends behind where it starts.
pub proof fn lemma_ws_end(b: Seq<u8>, i: int)
    requires
        0 <= i <= b.len(),
    ensures
        i <= ws_end(b, i) <= b.len(),
        ws_end(b, ws_end(b, i)) == ws_end(b, i),
    decreases b.len() - i,
{
    if i < b.len() && is_ws(b[i]) {
        lemma_ws_end(b, i + 1);
    }
}

/// A number token ends behind where it starts.
pub proof fn lemma_num_end(b: Seq<u8>, i: int)
    requires
        0 <= i <= b.len(),
    ensures
        i <= num_end(b, i) <= b.len(),
    decreases b.len() - i,
{
    if i < b.len() && is_num(b[i]) {
        lemma_num_end(b, i + 1);
    }
}

/// A string token ends within the payload, at least two bytes on.
pub proof fn lemma_str_at(b: Seq<u8>, i: int)
    ensures
        str_at(b, i) matches Some(s) ==> 0 <= i && i + 2 <= s.1 <= b.len(),
{
    if byte_at(b, i, 0x22) {
        lemma_find(b.skip(i + 1), seq![0x22u8]);
    }
}

/// The offset behind an occurrence lies within the payload.
pub proof fn lemma_past(b: Seq<u8>, i: int, n: Seq<u8>)
    requires
        0 <= i <= b.len(),
    ensures
        past(b, i, n) matches Some(p) ==> i + n.len() <= p <= b.len(),
{
    lemma_find(b.skip(i), n);
}

/// Reading an integer stays within the payload, and takes at least a byte
/// where it succeeds.
pub proof fn lemma_u64_at(b: Seq<u8>, i: int)
    requires
        0 <= i <= b.len(),
    ensures
        i <= u64_at(b, i).1 <= b.len(),
        u64_at(b, i).0 is Some ==> i < u64_at(b, i).1,
{
    lemma_u64_scan(b, i, 0);
    if i < b.len() && text::is_digit(b[i]) {
        lemma_u64_scan(b, i + 1, (b[i] - 0x30) as nat);
    }
}

proof fn lemma_u64_scan(b: Seq<u8>, j: int, v: nat)
    requires
        0 <= j <= b.len(),
    ensures
        j <= u64_scan(b, j, v).1 <= b.len(),
    decreases b.len() - j,
{
    if j < b.len() && text::is_digit(b[j]) {
        let w = v * 10 + (b[j] - 0x30) as nat;
        if w <= u64::MAX {
            lemma_u64_scan(b, j + 1, w);
        }
    }
}

/// `memchr::memmem::find`: the offset of the first occurrence of `needle` in
/// `hay`, and `None` where it does not occur (the empty needle occurs at 0).
#[verifier::external_body]
pub(crate) fn memmem_find(hay: &[u8], needle: &[u8]) -> (r: Option<usize>)
    ensures
        match r {
            Some(i) => first_at(hay@, needle@, i as int),
            None => forall|i: int| !#[trigger] occurs_at(hay@, needle@, i),
        },
{
    memmem::find(hay, needle)
}

/// `memchr::memchr`: the offset of the first byte of `hay` that is `c`, and
/// `None` where there is none.
#[verifier::external_body]
pub(crate) fn memchr_find(c: u8, hay: &[u8]) -> (r: Option<usize>)
    ensures
        match r {
            Some(i) => i < hay@.len() && hay@[i as int] == c && forall|j: int|
                0 <= j < i ==> #[trigger] hay@[j] != c,
            None => forall|j: int| 0 <= j < hay@.len() ==> #[trigger] hay@[j] != c,
        },
{
    memchr::memchr(c, hay)
}

/// A precomputed substring searcher (`memchr::memmem::Finder`).
#[verifier::external_type_specification]
#[verifier::external_body]
pub struct ExFinder<'n>(memmem::Finder<'n>);

/// The needle that a searcher holds.
pub uninterp spec fn finder_needle(f: memmem::Finder<'_>) -> Seq<u8>;

/// `memchr::memmem::Finder::new`: a searcher for `needle`.
#[verifier::external_body]
pub(crate) fn finder(needle: &'static [u8]) -> (r: memmem::Finder<'static>)
    ensures
        finder_needle(r) == needle@,
{
    memmem::Finder::new(needle)
}

/// `memchr::memmem::Finder::find`: the offset of the first occurrence of the
/// searcher's needle in `hay`, and `None` where it does not occur.
#[verifier::external_body]
pub(crate) fn finder_find(f: &memmem::Finder<'_>, hay: &[u8]) -> (r: Option<usize>)
    ensures
        match r {
            Some(i) => first_at(hay@, finder_needle(*f), i as int),
            None => forall|i: int| !#[trigger] occurs_at(hay@, finder_needle(*f), i),
        },
{
    f.find(hay)
}

/// `memchr::memmem::Finder::needle`, of which the length is taken.
#[verifier::external_body]
pub(crate) fn finder_len(f: &memmem::Finder<'_>) -> (r: usize)
    ensures
        r == finder_needle(*f).len(),
{
    f.needle().len()
}

/// Byte cursor over one payload.
#[derive(Debug, Clone)]
pub struct Cursor<'a> {
    b: &'a [u8],
    i: usize,
}

impl<'a> Cursor<'a> {
    /// The payload.
    pub closed spec fn bytes(&self) -> Seq<u8> {
        self.b@
    }

    /// The offset.
    pub closed spec fn at(&self) -> int {
        self.i as int
    }

    /// The offset lies within the payload.
    pub open spec fn wf(&self) -> bool {
        0 <= self.at() <= self.bytes().len() <= usize::MAX
    }

    /// New cursor at offset 0.
    pub fn new(b: &'a [u8]) -> (r: Self)
        ensures
            r.wf(),
            r.bytes() == b@,
            r.at() == 0,
    {
        assert(b@.len() == b.len());
        Cursor { b, i: 0 }
    }

    /// Current offset.
    pub fn pos(&self) -> (r: usize)
        ensures
            r == self.at(),
    {
        self.i
    }

    /// Jump to an absolute offset (clamped to len).
    pub fn set_pos(&mut self, i: usize)
        ensures
            final(self).wf(),
            final(self).bytes() == old(self).bytes(),
            final(self).at() == (if i <= old(self).bytes().len() {
                i as int
            } else {
                old(self).bytes().len() as int
            }),
    {
        self.i = if i <= self.b.len() {
            i
        } else {
            self.b.len()
        };
    }

    /// Unread remainder.
    pub fn rest(&self) -> (r: &'a [u8])
        requires
            self.wf(),
        ensures
            r@ == self.bytes().skip(self.at()),
    {
        slice_subrange(self.b, self.i, self.b.len())
    }

    /// True when fully consumed.
    pub fn done(&self) -> (r: bool)
        ensures
            r == (self.at() >= self.bytes().len()),
    {
        self.i >= self.b.len()
    }

    /// Next byte without consuming.
    pub fn peek(&self) -> (r: Option<u8>)
        ensures
            r == (if self.at() < self.bytes().len() {
                Some(self.bytes()[self.at()])
            } else {
                None
            }),
    {
        if self.i < self.b.len() {
            Some(self.b[self.i])
        } else {
            None
        }
    }

    /// Consume one byte if it equals `c`.
    pub fn eat(&mut self, c: u8) -> (r: bool)
        requires
            old(self).wf(),
        ensures
            final(self).wf(),
            final(self).bytes() == old(self).bytes(),
            r == byte_at(old(self).bytes(), old(self).at(), c),
            final(self).at() == (if r {
                old(self).at() + 1
            } else {
                old(self).at()
            }),
    {
        if self.i < self.b.len() && self.b[self.i] == c {
            self.i = self.i + 1;
            true
        } else {
            false
        }
    }

    /// The cursor is exactly at `lit`.
    pub fn looking_at(&self, lit: &[u8]) -> (r: bool)
        requires
            self.wf(),
        ensures
            r == occurs_at(self.bytes(), lit@, self.at()),
    {
        lit.len() <= self.b.len() - self.i && text::same_bytes(
            slice_subrange(self.b, self.i, self.i + lit.len()),
            lit,
        )
    }

    /// Consume `lit` if the cursor is exactly at it.
    pub fn eat_lit(&mut self, lit: &[u8]) -> (r: bool)
        requires
            old(self).wf(),
        ensures
            final(self).wf(),
            final(self).bytes() == old(self).bytes(),
            match lit_at(old(self).bytes(), old(self).at(), lit@) {
                Some(p) => r && final(self).at() == p,
                None => !r && final(self).at() == old(self).at(),
            },
    {
        if self.looking_at(lit) {
            assert(self.i + lit@.len() <= self.b@.len());
            self.i = self.i + lit.len();
            true
        } else {
            false
        }
    }

    /// Skip JSON insignificant whitespace (rare in venue payloads).
    pub fn skip_ws(&mut self)
        requires
            old(self).wf(),
        ensures
            final(self).wf(),
            final(self).bytes() == old(self).bytes(),
            final(self).at() == ws_end(old(self).bytes(), old(self).at()),
    {
        let b: &'a [u8] = self.b;
        let mut i: usize = self.i;
        while i < b.len() && (b[i] == 0x20 || b[i] == 0x09 || b[i] == 0x0a || b[i] == 0x0d)
            invariant
                i <= b.len(),
                ws_end(b@, i as int) == ws_end(b@, self.i as int),
            decreases b.len() - i,
        {
            i += 1;
        }
        self.i = i;
    }

    /// Advance to just past the next occurrence of the needle of a
    /// precomputed searcher. Returns `None` (cursor unchanged) if absent.
    pub fn skip_past_finder(&mut self, f: &memmem::Finder<'_>) -> (r: Option<()>)
        requires
            old(self).wf(),
        ensures
            final(self).wf(),
            final(self).bytes() == old(self).bytes(),
            match past(old(self).bytes(), old(self).at(), finder_needle(*f)) {
                Some(p) => r is Some && final(self).at() == p,
                None => r is None && final(self).at() == old(self).at(),
            },
    {
        let rest: &'a [u8] = self.rest();
        assert(rest@.len() == self.b.len() - self.i);
        match finder_find(f, rest) {
            Some(at) => {
                proof {
                    lemma_find_is(rest@, finder_needle(*f), at as int);
                }
                let n: usize = finder_len(f);
                self.i = self.i + (at + n);
                Some(())
            },
            None => None,
        }
    }

    /// Convenience form of [`Cursor::skip_past_finder`] for cold paths.
    pub fn skip_past(&mut self, needle: &[u8]) -> (r: Option<()>)
        requires
            old(self).wf(),
        ensures
            final(self).wf(),
            final(self).bytes() == old(self).bytes(),
            match past(old(self).bytes(), old(self).at(), needle@) {
                Some(p) => r is Some && final(self).at() == p,
                None => r is None && final(self).at() == old(self).at(),
            },
    {
        let rest: &'a [u8] = self.rest();
        assert(rest@.len() == self.b.len() - self.i);
        match memmem_find(rest, needle) {
            Some(at) => {
                proof {
                    lemma_find_is(rest@, needle@, at as int);
                }
                self.i = self.i + (at + needle.len());
                Some(())
            },
            None => None,
        }
    }

    /// Read a JSON string assuming the cursor is at the opening quote.
    /// Returns the raw inner bytes. Fails on escapes (`\`): venue symbol and
    /// number-in-string tokens never contain them; anything else goes to the
    /// slow path. Where it fails behind an opening quote, the quote stays
    /// consumed.
    pub fn read_string(&mut self) -> (r: Option<&'a [u8]>)
        requires
            old(self).wf(),
        ensures
            final(self).wf(),
            final(self).bytes() == old(self).bytes(),
            match str_at(old(self).bytes(), old(self).at()) {
                Some(s) => r matches Some(x) && x@ == s.0 && final(self).at() == s.1,
                None => r is None && final(self).at() == (if byte_at(
                    old(self).bytes(),
                    old(self).at(),
                    0x22,
                ) {
                    old(self).at() + 1
                } else {
                    old(self).at()
                }),
            },
    {
        if !self.eat(0x22) {
            return None;
        }
        let start: usize = self.i;
        let tail: &'a [u8] = self.rest();
        assert(tail@.len() == self.b.len() - self.i);
        let ghost q: Seq<u8> = seq![0x22u8];
        match memchr_find(0x22, tail) {
            None => {
                proof {
                    lemma_find(tail@, q);
                    assert(forall|i: int| occurs_at(tail@, q, i) ==> tail@.subrange(i, i + 1)[0]
                        == 0x22);
                }
                None
            },
            Some(rel) => {
                proof {
                    assert(tail@.subrange(rel as int, rel + 1) =~= q);
                    assert forall|j: int| 0 <= j < rel implies !#[trigger] occurs_at(
                        tail@,
                        q,
                        j,
                    ) by {
                        assert(tail@.subrange(j, j + 1)[0] == tail@[j]);
                    }
                    lemma_find_is(tail@, q, rel as int);
                }
                let inner: &'a [u8] = slice_subrange(self.b, start, start + rel);
                match memchr_find(0x5c, inner) {
                    Some(k) => {
                        assert(inner@[k as int] == 0x5c);
                        None
                    },
                    None => {
                        self.i = start + rel + 1;
                        Some(inner)
                    },
                }
            },
        }
    }

    /// Read a JSON number token span: `[-+0-9.eE]+` (at least one byte).
    /// Returns the raw token; exactness is enforced by
    /// [`crate::fixed::parse_fixed`] downstream.
    pub fn read_number(&mut self) -> (r: Option<&'a [u8]>)
        requires
            old(self).wf(),
        ensures
            final(self).wf(),
            final(self).bytes() == old(self).bytes(),
            match num_at(old(self).bytes(), old(self).at()) {
                Some(s) => r matches Some(x) && x@ == s.0 && final(self).at() == s.1,
                None => r is None && final(self).at() == old(self).at(),
            },
    {
        let b: &'a [u8] = self.b;
        let start: usize = self.i;
        let mut i: usize = start;
        while i < b.len() && ((b[i] >= 0x30 && b[i] <= 0x39) || b[i] == 0x2d || b[i] == 0x2b
            || b[i] == 0x2e || b[i] == 0x65 || b[i] == 0x45)
            invariant
                start <= i <= b.len(),
                num_end(b@, i as int) == num_end(b@, start as int),
            decreases b.len() - i,
        {
            i += 1;
        }
        if i == start {
            None
        } else {
            self.i = i;
            Some(slice_subrange(b, start, i))
        }
    }

    /// Read an unsigned decimal integer (no sign, no dot). Fails on overflow,
    /// and then stays at the digit that overflows.
    pub fn read_u64(&mut self) -> (r: Option<u64>)
        requires
            old(self).wf(),
        ensures
            final(self).wf(),
            final(self).bytes() == old(self).bytes(),
            (r, final(self).at()) == u64_at(old(self).bytes(), old(self).at()),
    {
        let b: &'a [u8] = self.b;
        let start: usize = self.i;
        let mut i: usize = start;
        let mut v: u64 = 0;
        while i < b.len() && b[i] >= 0x30 && b[i] <= 0x39
            invariant
                start <= i <= b.len(),
                self.b == b,
                self.bytes() == b@,
                start == old(self).at(),
                b@ == old(self).bytes(),
                u64_scan(b@, i as int, v as nat) == u64_scan(b@, start as int, 0),
                i > start ==> text::is_digit(b@[start as int]),
            decreases b.len() - i,
        {
            let d: u64 = (b[i] - 0x30) as u64;
            let w: u128 = (v as u128) * 10 + d as u128;
            if w > u64::MAX as u128 {
                self.i = i;
                return None;
            }
            v = w as u64;
            i += 1;
        }
        self.i = i;
        if i == start {
            None
        } else {
            Some(v)
        }
    }
}

/// The digit of `b` at `i`.
pub open spec fn digit_val(b: Seq<u8>, i: int) -> int {
    b[i] - 0x30
}

/// The bytes of `b` from `i` to `j` are digits.
pub open spec fn digits_between(b: Seq<u8>, i: int, j: int) -> bool {
    forall|k: int| i <= k < j ==> text::is_digit(#[trigger] b[k])
}

/// The two-digit number of `b` at `i`.
pub open spec fn two(b: Seq<u8>, i: int) -> int {
    digit_val(b, i) * 10 + digit_val(b, i + 1)
}

pub open spec fn is_leap(y: int) -> bool {
    y % 4 == 0 && (y % 100 != 0 || y % 400 == 0)
}

/// The days of the month `m` of the year `y`.
pub open spec fn month_days(y: int, m: int) -> int {
    if m == 2 {
        if is_leap(y) {
            29
        } else {
            28
        }
    } else if m == 4 || m == 6 || m == 9 || m == 11 {
        30
    } else {
        31
    }
}

/// The days of the year `y` before its month `m`.
pub open spec fn days_before_month(y: int, m: int) -> int
    decreases m,
{
    if m <= 1 {
        0
    } else {
        days_before_month(y, m - 1) + month_days(y, m - 1)
    }
}

/// The days from 1970-01-01 to the first day of the year `y`.
pub open spec fn days_before_year(y: int) -> int
    decreases y,
{
    if y <= 1970 {
        0
    } else {
        days_before_year(y - 1) + if is_leap(y - 1) {
            366int
        } else {
            365
        }
    }
}

/// The offset of the byte behind the seconds and their fraction.
pub open spec fn rfc3339_end(b: Seq<u8>) -> int {
    if byte_at(b, 19, 0x2e) {
        text::digit_end(b, 20)
    } else {
        19
    }
}

/// The shape `YYYY-MM-DDTHH:MM:SS[.f{1..9}]Z` with a date of the calendar from
/// 1970 on and a time of day, and nothing behind it.
pub open spec fn rfc3339_ok(b: Seq<u8>) -> bool {
    &&& b.len() >= 20
    &&& digits_between(b, 0, 4) && b[4] == 0x2d && digits_between(b, 5, 7) && b[7] == 0x2d
    &&& digits_between(b, 8, 10) && (b[10] == 0x54 || b[10] == 0x74) && digits_between(b, 11, 13)
    &&& b[13] == 0x3a && digits_between(b, 14, 16) && b[16] == 0x3a && digits_between(b, 17, 19)
    &&& rfc3339_year(b) >= 1970
    &&& 1 <= two(b, 5) <= 12
    &&& 1 <= two(b, 8) <= month_days(rfc3339_year(b), two(b, 5))
    &&& two(b, 11) <= 23 && two(b, 14) <= 59 && two(b, 17) <= 59
    &&& byte_at(b, 19, 0x2e) ==> 1 <= rfc3339_end(b) - 20 <= 9
    &&& rfc3339_end(b) + 1 == b.len()
    &&& b[rfc3339_end(b)] == 0x5a || b[rfc3339_end(b)] == 0x7a
}

pub open spec fn rfc3339_year(b: Seq<u8>) -> int {
    digit_val(b, 0) * 1000 + digit_val(b, 1) * 100 + digit_val(b, 2) * 10 + digit_val(b, 3)
}

/// The nanoseconds of the fraction.
pub open spec fn rfc3339_frac(b: Seq<u8>) -> int {
    if byte_at(b, 19, 0x2e) {
        let f = b.subrange(20, rfc3339_end(b));
        (text::digits_value(f) * text::pow10((9 - f.len()) as nat)) as int
    } else {
        0
    }
}

/// The nanoseconds from the UNIX epoch to the moment that `b` denotes.
pub open spec fn rfc3339_total(b: Seq<u8>) -> int {
    let days = days_before_year(rfc3339_year(b)) + days_before_month(rfc3339_year(b), two(b, 5))
        + two(b, 8) - 1;
    (days * 86_400 + two(b, 11) * 3_600 + two(b, 14) * 60 + two(b, 17)) * 1_000_000_000
        + rfc3339_frac(b)
}

/// What [`parse_rfc3339_ns`] makes of `b`.
pub open spec fn rfc3339_spec(b: Seq<u8>) -> Option<u64> {
    if rfc3339_ok(b) && rfc3339_total(b) <= u64::MAX {
        Some(rfc3339_total(b) as u64)
    } else {
        None
    }
}

/// Counting by the days of 400-year eras and of years that start in March
/// comes to the same as counting years and months from 1970-01-01.
proof fn lemma_days_from_civil(year: int, month: int, day: int)
    requires
        1970 <= year,
        1 <= month <= 12,
    ensures
        ({
            let y = if month <= 2 {
                year - 1
            } else {
                year
            };
            let era = y / 400;
            let yoe = y - era * 400;
            let mp = if month > 2 {
                month - 3
            } else {
                month + 9
            };
            let doy = (153 * mp + 2) / 5 + day - 1;
            let doe = yoe * 365 + yoe / 4 - yoe / 100 + doy;
            era * 146_097 + doe - 719_468 == days_before_year(year) + days_before_month(
                year,
                month,
            ) + day - 1
        }),
{
    lemma_days_before_year(year);
    reveal_with_fuel(days_before_month, 13);
    let y = if month <= 2 {
        year - 1
    } else {
        year
    };
    let era = y / 400;
    let yoe = y - era * 400;
    assert(y / 4 == era * 100 + yoe / 4);
    assert(y / 100 == era * 4 + yoe / 100);
    assert(year / 4 == (year - 1) / 4 + if year % 4 == 0 {
        1int
    } else {
        0
    });
    assert(year / 100 == (year - 1) / 100 + if year % 100 == 0 {
        1int
    } else {
        0
    });
    assert(year / 400 == (year - 1) / 400 + if year % 400 == 0 {
        1int
    } else {
        0
    });
    assert(month == 1 || month == 2 || month == 3 || month == 4 || month == 5 || month == 6
        || month == 7 || month == 8 || month == 9 || month == 10 || month == 11 || month == 12);
}

proof fn lemma_days_before_year(year: int)
    requires
        1970 <= year,
    ensures
        days_before_year(year) == 365 * (year - 1) + (year - 1) / 4 - (year - 1) / 100 + (year - 1)
            / 400 + 306 - 719_468,
    decreases year,
{
    if year > 1970 {
        lemma_days_before_year(year - 1);
        let y = year - 1;
        assert(y / 4 == (y - 1) / 4 + if y % 4 == 0 {
            1int
        } else {
            0
        });
        assert(y / 100 == (y - 1) / 100 + if y % 100 == 0 {
            1int
        } else {
            0
        });
        assert(y / 400 == (y - 1) / 400 + if y % 400 == 0 {
            1int
        } else {
            0
        });
    }
}

/// The digit at `i`, if there is one.
fn digit(b: &[u8], i: usize) -> (r: Option<u64>)
    requires
        i < b.len(),
    ensures
        match r {
            Some(v) => text::is_digit(b@[i as int]) && v == digit_val(b@, i as int) && v <= 9,
            None => !text::is_digit(b@[i as int]),
        },
{
    let c: u8 = b[i];
    if c >= 0x30 && c <= 0x39 {
        Some((c - 0x30) as u64)
    } else {
        None
    }
}

/// The two-digit number at `i`, if there is one.
fn two_digits(b: &[u8], i: usize) -> (r: Option<u64>)
    requires
        i + 1 < b.len(),
    ensures
        match r {
            Some(v) => digits_between(b@, i as int, i + 2) && v == two(b@, i as int) && v <= 99,
            None => !digits_between(b@, i as int, i + 2),
        },
{
    match digit(b, i) {
        None => None,
        Some(hi) => match digit(b, i + 1) {
            None => None,
            Some(lo) => Some(hi * 10 + lo),
        },
    }
}

/// The days from 1970-01-01 to a date: days from civil, counting years from
/// March.
fn civil_days(year: u64, month: u64, day: u64) -> (r: u64)
    requires
        1970 <= year <= 9999,
        1 <= month <= 12,
        1 <= day <= 31,
    ensures
        r == days_before_year(year as int) + days_before_month(year as int, month as int) + day - 1,
        r < 3_000_000,
{
    let y: u64 = if month <= 2 {
        year - 1
    } else {
        year
    };
    let era: u64 = y / 400;
    let yoe: u64 = y - era * 400;
    let mp: u64 = if month > 2 {
        month - 3
    } else {
        month + 9
    };
    let doy: u64 = (153 * mp + 2) / 5 + day - 1;
    let doe: u64 = yoe * 365 + yoe / 4 - yoe / 100 + doy;
    let days: u64 = era * 146_097 + doe;
    proof {
        lemma_days_from_civil(year as int, month as int, day as int);
        lemma_days_before_year(year as int);
    }
    days - 719_468
}

/// The nanoseconds of the fraction of the seconds and the offset behind it;
/// `None` where a point is followed by no digits or by more than nine.
fn read_frac(b: &[u8]) -> (r: Option<(u64, usize)>)
    requires
        b.len() >= 20,
    ensures
        match r {
            Some(f) => f.0 == rfc3339_frac(b@) && f.1 == rfc3339_end(b@) && f.0 < 1_000_000_000 && (
            byte_at(b@, 19, 0x2e) ==> 1 <= rfc3339_end(b@) - 20 <= 9),
            None => byte_at(b@, 19, 0x2e) && !(1 <= rfc3339_end(b@) - 20 <= 9),
        },
{
    let mut i: usize = 19;
    let mut frac: u64 = 0;
    if b[i] == 0x2e {
        let start: usize = 20;
        i = text::digit_run_end(b, start);
        let ndigits: usize = i - start;
        if ndigits == 0 || ndigits > 9 {
            return None;
        }
        proof {
            text::lemma_digit_end_bounds(b@, 20);
            text::lemma_pow10_values();
        }
        let ghost f: Seq<u8> = b@.subrange(20, i as int);
        let mut k: usize = start;
        while k < i
            invariant
                start == 20,
                20 <= k <= i <= b.len(),
                i - 20 <= 9,
                f == b@.subrange(20, i as int),
                text::all_digits(f),
                frac == text::digits_value(f.take(k - 20)),
                frac < text::pow10((k - 20) as nat),
                text::pow10(9) == 1_000_000_000,
            decreases i - k,
        {
            proof {
                let t = f.take(k + 1 - 20);
                assert(t.drop_last() =~= f.take(k - 20));
                assert(t.last() == b@[k as int]);
                assert(text::is_digit(f[k - 20]));
                text::lemma_pow10_monotone((k + 1 - 20) as nat, 9);
                assert(text::pow10((k + 1 - 20) as nat) == 10 * text::pow10((k - 20) as nat));
            }
            frac = frac * 10 + (b[k] - 0x30) as u64;
            k += 1;
        }
        assert(f.take(i - 20) =~= f);
        let mut w: usize = ndigits;
        let ghost v0: u64 = frac;
        assert(frac * text::pow10(0) == frac);
        while w < 9
            invariant
                ndigits <= w <= 9,
                frac == v0 * text::pow10((w - ndigits) as nat),
                frac < text::pow10(w as nat),
                text::pow10(9) == 1_000_000_000,
            decreases 9 - w,
        {
            proof {
                let e = (w - ndigits) as nat;
                let p = text::pow10(e);
                assert(text::pow10(e + 1) == 10 * p);
                assert(v0 * (10 * p) == (v0 * p) * 10) by (nonlinear_arith);
                text::lemma_pow10_monotone((w + 1) as nat, 9);
                assert(text::pow10((w + 1) as nat) == 10 * text::pow10(w as nat));
            }
            frac = frac * 10;
            w += 1;
        }
    }
    Some((frac, i))
}

/// Parse a strict RFC3339 UTC timestamp (`YYYY-MM-DDTHH:MM:SS[.f{1..9}]Z`)
/// into ns since the UNIX epoch. Rejects offsets other than `Z`, dates
/// before 1970, and any trailing bytes.
pub fn parse_rfc3339_ns(b: &[u8]) -> (r: Option<u64>)
    ensures
        r == rfc3339_spec(b@),
{
    let n: usize = b.len();
    if n < 20 {
        return None;
    }
    let century: u64 = match two_digits(b, 0) {
        Some(v) => v,
        None => {
            return None;
        },
    };
    let of_century: u64 = match two_digits(b, 2) {
        Some(v) => v,
        None => {
            return None;
        },
    };
    let year: u64 = century * 100 + of_century;
    if b[4] != 0x2d || b[7] != 0x2d || (b[10] != 0x54 && b[10] != 0x74) {
        return None;
    }
    let month: u64 = match two_digits(b, 5) {
        Some(v) => v,
        None => {
            return None;
        },
    };
    let day: u64 = match two_digits(b, 8) {
        Some(v) => v,
        None => {
            return None;
        },
    };
    if b[13] != 0x3a || b[16] != 0x3a {
        return None;
    }
    let hour: u64 = match two_digits(b, 11) {
        Some(v) => v,
        None => {
            return None;
        },
    };
    let min: u64 = match two_digits(b, 14) {
        Some(v) => v,
        None => {
            return None;
        },
    };
    let sec: u64 = match two_digits(b, 17) {
        Some(v) => v,
        None => {
            return None;
        },
    };
    assert(digits_between(b@, 0, 4)) by {
        assert(digits_between(b@, 0, 2) && digits_between(b@, 2, 4));
    }
    assert(year == rfc3339_year(b@));
    if month < 1 || month > 12 || hour > 23 || min > 59 || sec > 59 {
        return None;
    }
    let leap: bool = year % 4 == 0 && (year % 100 != 0 || year % 400 == 0);
    let dim: u64 = if month == 2 {
        if leap {
            29
        } else {
            28
        }
    } else if month == 4 || month == 6 || month == 9 || month == 11 {
        30
    } else {
        31
    };
    if day == 0 || day > dim {
        return None;
    }
    if year < 1970 {
        return None;
    }
    let epoch_days: u64 = civil_days(year, month, day);
    let (frac, i): (u64, usize) = match read_frac(b) {
        Some(f) => f,
        None => {
            return None;
        },
    };
    assert(i as int == rfc3339_end(b@));
    assert(frac == rfc3339_frac(b@));
    if i >= n || (b[i] != 0x5a && b[i] != 0x7a) {
        return None;
    }
    if i + 1 != n {
        return None;
    }
    let secs: u64 = epoch_days * 86_400 + hour * 3_600 + min * 60 + sec;
    let total: u128 = secs as u128 * 1_000_000_000 + frac as u128;
    if total > u64::MAX as u128 {
        None
    } else {
        Some(total as u64)
    }
}

} // verus!
