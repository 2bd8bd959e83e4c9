//! Decimal digits and byte strings: the vocabulary that the parsers and the
//! formatters share.
use vstd::prelude::*;
use vstd::utf8::*;

verus! {

/// `c` is one of the ASCII digits `0` to `9`.
pub open spec fn is_digit(c: u8) -> bool {
    0x30 <= c <= 0x39
}

/// The number that a run of ASCII digits denotes (0 for the empty run).
pub open spec fn digits_value(s: Seq<u8>) -> nat
    decreases s.len(),
{
    if s.len() == 0 {
        0
    } else {
        digits_value(s.drop_last()) * 10 + (s.last() - 0x30) as nat
    }
}

/// Every byte of `s` is an ASCII digit.
pub open spec fn all_digits(s: Seq<u8>) -> bool {
    forall|i: int| 0 <= i < s.len() ==> is_digit(#[trigger] s[i])
}

/// The end of the longest run of ASCII digits of `b` that starts at `i`.
pub open spec fn digit_end(b: Seq<u8>, i: int) -> int
    decreases b.len() - i,
{
    if 0 <= i < b.len() && is_digit(b[i]) {
        digit_end(b, i + 1)
    } else {
        i
    }
}

/// The decimal form of `n` in ASCII, without leading zeros.
pub open spec fn dec_bytes(n: nat) -> Seq<u8>
    decreases n,
{
    if n < 10 {
        seq![(0x30 + n) as u8]
    } else {
        dec_bytes(n / 10).push((0x30 + n % 10) as u8)
    }
}

/// The characters that the ASCII bytes `b` stand for.
pub open spec fn chars_of(b: Seq<u8>) -> Seq<char> {
    b.map_values(|x: u8| x as char)
}

/// Every byte of `b` is ASCII.
pub open spec fn all_ascii(b: Seq<u8>) -> bool {
    forall|i: int| 0 <= i < b.len() ==> #[trigger] b[i] < 128
}

/// `x` raised to ten, `e` times.
pub open spec fn pow10(e: nat) -> nat
    decreases e,
{
    if e == 0 {
        1
    } else {
        10 * pow10((e - 1) as nat)
    }
}

pub proof fn lemma_pow10_positive(e: nat)
    ensures
        pow10(e) >= 1,
    decreases e,
{
    if e > 0 {
        lemma_pow10_positive((e - 1) as nat);
    }
}

pub proof fn lemma_pow10_sum(a: nat, b: nat)
    ensures
        pow10(a + b) == pow10(a) * pow10(b),
    decreases a,
{
    if a > 0 {
        lemma_pow10_sum((a - 1) as nat, b);
        assert(pow10(a + b) == 10 * pow10((a - 1 + b) as nat));
        assert(10 * (pow10((a - 1) as nat) * pow10(b)) == (10 * pow10((a - 1) as nat)) * pow10(b))
            by (nonlinear_arith);
    } else {
        assert(pow10(a) == 1);
        assert(1 * pow10(b) == pow10(b));
        assert(pow10(a) * pow10(b) == 1 * pow10(b)) by (nonlinear_arith)
            requires
                pow10(a) == 1,
        ;
    }
}

pub proof fn lemma_pow10_monotone(a: nat, b: nat)
    requires
        a <= b,
    ensures
        pow10(a) <= pow10(b),
    decreases b,
{
    if a < b {
        lemma_pow10_monotone(a, (b - 1) as nat);
        lemma_pow10_positive((b - 1) as nat);
    }
}

/// The powers of ten that the scale arithmetic meets.
pub proof fn lemma_pow10_values()
    ensures
        pow10(0) == 1,
        pow10(1) == 10,
        pow10(2) == 100,
        pow10(3) == 1_000,
        pow10(8) == 100_000_000,
        pow10(9) == 1_000_000_000,
        pow10(38) == 100_000_000_000_000_000_000_000_000_000_000_000_000,
        pow10(39) == 1_000_000_000_000_000_000_000_000_000_000_000_000_000,
{
    reveal_with_fuel(pow10, 11);
    assert(pow10(10) == 10_000_000_000);
    lemma_pow10_sum(10, 10);
    lemma_pow10_sum(20, 10);
    lemma_pow10_sum(30, 8);
    assert(pow10(39) == 10 * pow10(38));
}

pub proof fn lemma_digit_end_bounds(b: Seq<u8>, i: int)
    requires
        0 <= i <= b.len(),
    ensures
        i <= digit_end(b, i) <= b.len(),
        forall|k: int| i <= k < digit_end(b, i) ==> is_digit(#[trigger] b[k]),
        digit_end(b, i) < b.len() ==> !is_digit(b[digit_end(b, i)]),
    decreases b.len() - i,
{
    if i < b.len() && is_digit(b[i]) {
        lemma_digit_end_bounds(b, i + 1);
    }
}

/// A run of digits that is followed by no digit ends where it says.
pub proof fn lemma_digit_end_is(b: Seq<u8>, i: int, j: int)
    requires
        0 <= i <= j <= b.len(),
        forall|k: int| i <= k < j ==> is_digit(#[trigger] b[k]),
        j < b.len() ==> !is_digit(b[j]),
    ensures
        digit_end(b, i) == j,
    decreases j - i,
{
    if i < j {
        lemma_digit_end_is(b, i + 1, j);
    }
}

pub proof fn lemma_digits_value_concat(a: Seq<u8>, b: Seq<u8>)
    requires
        all_digits(b),
    ensures
        digits_value(a + b) == digits_value(a) * pow10(b.len()) + digits_value(b),
    decreases b.len(),
{
    if b.len() == 0 {
        assert(a + b =~= a);
        assert(digits_value(a) * 1 == digits_value(a));
    } else {
        let init = b.drop_last();
        assert((a + b).drop_last() =~= a + init);
        assert forall|i: int| 0 <= i < init.len() implies is_digit(#[trigger] init[i]) by {
            assert(init[i] == b[i]);
        }
        lemma_digits_value_concat(a, init);
        let x = digits_value(a);
        let p = pow10(init.len());
        assert((x * p) * 10 == x * (10 * p)) by (nonlinear_arith);
        assert((a + b).last() == b.last());
        assert(pow10(b.len()) == 10 * p);
    }
}

/// A value only grows as digits are appended to it.
pub proof fn lemma_digits_value_prefix(s: Seq<u8>, k: int)
    requires
        0 <= k <= s.len(),
        all_digits(s),
    ensures
        digits_value(s.take(k)) <= digits_value(s),
    decreases s.len() - k,
{
    if k == s.len() {
        assert(s.take(k) =~= s);
    } else {
        let init = s.drop_last();
        assert(init.take(k) =~= s.take(k));
        assert forall|i: int| 0 <= i < init.len() implies is_digit(#[trigger] init[i]) by {
            assert(init[i] == s[i]);
        }
        lemma_digits_value_prefix(init, k);
        assert(is_digit(s[s.len() - 1]));
    }
}

pub proof fn lemma_digits_value_bound(s: Seq<u8>)
    requires
        all_digits(s),
    ensures
        digits_value(s) < pow10(s.len()),
    decreases s.len(),
{
    if s.len() > 0 {
        let init = s.drop_last();
        assert forall|i: int| 0 <= i < init.len() implies is_digit(#[trigger] init[i]) by {
            assert(init[i] == s[i]);
        }
        lemma_digits_value_bound(init);
        assert(is_digit(s[s.len() - 1]));
    }
}

/// The decimal form of `n` is a nonempty run of digits that denotes `n`.
pub proof fn lemma_dec_bytes(n: nat)
    ensures
        dec_bytes(n).len() >= 1,
        all_digits(dec_bytes(n)),
        digits_value(dec_bytes(n)) == n,
        all_ascii(dec_bytes(n)),
    decreases n,
{
    if n < 10 {
        let s = dec_bytes(n);
        assert(s.drop_last() =~= Seq::<u8>::empty());
        assert(digits_value(s.drop_last()) == 0);
        assert(s.last() == (0x30 + n) as u8);
    } else {
        lemma_dec_bytes(n / 10);
        let s = dec_bytes(n);
        assert(s.drop_last() =~= dec_bytes(n / 10));
        assert(s.last() == (0x30 + n % 10) as u8);
        assert forall|i: int| 0 <= i < s.len() implies is_digit(#[trigger] s[i]) by {
            if i < s.len() - 1 {
                assert(s[i] == dec_bytes(n / 10)[i]);
            }
        }
    }
}

/// ASCII text encodes to the bytes that it was made of.
pub proof fn lemma_chars_of_utf8(b: Seq<u8>)
    requires
        all_ascii(b),
    ensures
        is_ascii_chars(chars_of(b)),
        encode_utf8(chars_of(b)) =~= b,
{
    let c = chars_of(b);
    assert forall|i: int| 0 <= i < c.len() implies '\0' <= #[trigger] c[i] <= '\u{7f}' by {
        assert(b[i] < 128);
    }
    is_ascii_chars_encode_utf8(c);
    assert forall|i: int| 0 <= i < b.len() implies encode_utf8(c)[i] == b[i] by {
        assert(c[i] as u8 == encode_utf8(c)[i]);
        assert(b[i] < 128);
    }
}

/// `String::push` appends one character.
pub assume_specification[ String::push ](s: &mut String, c: char)
    ensures
        final(s)@ == old(s)@.push(c),
;

/// Append the decimal form of `n` to a byte buffer.
pub fn push_dec_bytes(out: &mut Vec<u8>, n: u128)
    ensures
        final(out)@ == old(out)@ + dec_bytes(n as nat),
    decreases n,
{
    if n >= 10 {
        push_dec_bytes(out, n / 10);
    }
    let d: u8 = (n % 10) as u8;
    out.push(0x30 + d);
}

/// Append the decimal form of `n` to a string.
pub fn push_dec(out: &mut String, n: u128)
    ensures
        final(out)@ == old(out)@ + chars_of(dec_bytes(n as nat)),
    decreases n,
{
    if n >= 10 {
        push_dec(out, n / 10);
    }
    let d: u8 = (n % 10) as u8;
    let c: u8 = 0x30 + d;
    out.push(c as char);
    proof {
        assert(out@ =~= old(out)@ + chars_of(dec_bytes(n as nat)));
    }
}

/// The string of the characters that the bytes `b` stand for.
pub fn ascii_string(b: &[u8]) -> (r: String)
    ensures
        r@ == chars_of(b@),
{
    let mut out: String = String::new();
    let mut i: usize = 0;
    while i < b.len()
        invariant
            i <= b.len(),
            out@ == chars_of(b@.take(i as int)),
        decreases b.len() - i,
    {
        out.push(b[i] as char);
        assert(b@.take(i + 1) =~= b@.take(i as int).push(b@[i as int]));
        assert(out@ =~= chars_of(b@.take(i + 1)));
        i += 1;
    }
    assert(b@.take(i as int) =~= b@);
    out
}

/// The end of the digit run of `b` that starts at `i`.
pub fn digit_run_end(b: &[u8], i: usize) -> (j: usize)
    requires
        i <= b.len(),
    ensures
        j == digit_end(b@, i as int),
        i <= j <= b.len(),
{
    let mut j: usize = i;
    while j < b.len() && b[j] >= 0x30 && b[j] <= 0x39
        invariant
            i <= j <= b.len(),
            digit_end(b@, i as int) == digit_end(b@, j as int),
        decreases b.len() - j,
    {
        j += 1;
    }
    j
}

/// Two byte strings hold the same bytes.
pub fn same_bytes(a: &[u8], b: &[u8]) -> (r: bool)
    ensures
        r == (a@ == b@),
{
    if a.len() != b.len() {
        return false;
    }
    let mut i: usize = 0;
    while i < a.len()
        invariant
            i <= a.len(),
            a.len() == b.len(),
            forall|k: int| 0 <= k < i ==> a@[k] == b@[k],
        decreases a.len() - i,
    {
        if a[i] != b[i] {
            return false;
        }
        i += 1;
    }
    assert(a@ =~= b@);
    true
}

/// `std::str::from_utf8`: the text that the bytes encode, and `None` where
/// they are no UTF-8.
#[verifier::external_body]
pub(crate) fn utf8_str(b: &[u8]) -> (r: Option<&str>)
    ensures
        match r {
            Some(s) => encode_utf8(s@) == b@,
            None => !valid_utf8(b@),
        },
{
    std::str::from_utf8(b).ok()
}

} // verus!
