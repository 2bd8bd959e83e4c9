//! Exact fixed-point decimals at a global scale of 1e-8.
//!
//! Venue feeds deliver prices and quantities as ASCII decimal tokens (JSON
//! strings like `"63589.64000000"`, or JSON number tokens like `63589.64`).
//! The hot path parses those bytes directly into an `i64` mantissa at 1e-8,
//! never through a binary float, so values are exact and book-level identity
//! is well defined.
use crate::text;
use vstd::prelude::*;
use vstd::utf8::*;

verus! {

/// Decimal exponent of the global scale: mantissa 1 == 1e-8 units.
pub const SCALE_EXP: i32 = 8;

/// The global scale as an integer: 1.0 == `SCALE` mantissa units.
pub const SCALE: i64 = 100_000_000;

/// The largest value that takes one more digit in 128 bits.
pub const MANT_LIMIT: u128 = 34_028_236_692_093_846_346_337_460_743_176_821_144;

/// An exponent is read up to this bound, far beyond the number of digits that
/// a token can have.
const EXP_CAP: i128 = 1_000_000_000_000_000_000_000_000_000_000;

/// Errors from [`parse_fixed`].
#[derive(Debug, Clone, Copy, PartialEq, Eq, Structural)]
pub enum ParseFixedError {
    /// Not a decimal token (empty, stray characters, missing digits).
    Malformed,
    /// Magnitude does not fit in an i64 at scale 1e-8.
    Overflow,
    /// The token has precision finer than 1e-8; accepting it would silently
    /// round, so it is a hard error.
    PrecisionLoss,
}

impl ParseFixedError {
    /// The message of this error.
    pub open spec fn message_spec(self) -> Seq<char> {
        match self {
            ParseFixedError::Malformed => "malformed decimal token"@,
            ParseFixedError::Overflow => "value overflows i64 at scale 1e-8"@,
            ParseFixedError::PrecisionLoss => "precision finer than 1e-8 would be lost"@,
        }
    }

    /// The message of this error, for logs.
    pub fn message(&self) -> (r: &'static str)
        ensures
            r@ == self.message_spec(),
    {
        match self {
            ParseFixedError::Malformed => "malformed decimal token",
            ParseFixedError::Overflow => "value overflows i64 at scale 1e-8",
            ParseFixedError::PrecisionLoss => "precision finer than 1e-8 would be lost",
        }
    }
}

/// A sign byte.
pub open spec fn is_sign(c: u8) -> bool {
    c == 0x2b || c == 0x2d
}

/// Where the token's integer digits start: behind the sign, if there is one.
pub open spec fn int_start(b: Seq<u8>) -> int {
    if b.len() > 0 && is_sign(b[0]) {
        1
    } else {
        0
    }
}

pub open spec fn int_end(b: Seq<u8>) -> int {
    text::digit_end(b, int_start(b))
}

/// Where the fraction digits start: behind the point, if there is one.
pub open spec fn frac_start(b: Seq<u8>) -> int {
    if int_end(b) < b.len() && b[int_end(b)] == 0x2e {
        int_end(b) + 1
    } else {
        int_end(b)
    }
}

pub open spec fn frac_end(b: Seq<u8>) -> int {
    if frac_start(b) > int_end(b) {
        text::digit_end(b, frac_start(b))
    } else {
        frac_start(b)
    }
}

/// The digits of the token's mantissa: integer part, then fraction part.
pub open spec fn mant_digits(b: Seq<u8>) -> Seq<u8> {
    b.subrange(int_start(b), int_end(b)) + b.subrange(frac_start(b), frac_end(b))
}

/// The token ends in an exponent part: `e` or `E` behind the mantissa.
pub open spec fn has_exp(b: Seq<u8>) -> bool {
    frac_end(b) < b.len() && (b[frac_end(b)] == 0x65 || b[frac_end(b)] == 0x45)
}

/// Where the exponent's digits start.
pub open spec fn exp_start(b: Seq<u8>) -> int {
    let t = frac_end(b) + 1;
    if t < b.len() && is_sign(b[t]) {
        t + 1
    } else {
        t
    }
}

/// Behind its mantissa the token holds nothing, or one whole exponent part.
pub open spec fn tail_ok(b: Seq<u8>) -> bool {
    if has_exp(b) {
        text::digit_end(b, exp_start(b)) > exp_start(b) && text::digit_end(b, exp_start(b)) == b.len()
    } else {
        frac_end(b) == b.len()
    }
}

/// The token's decimal exponent.
pub open spec fn exponent(b: Seq<u8>) -> int {
    if has_exp(b) {
        let e = text::digits_value(b.subrange(exp_start(b), text::digit_end(b, exp_start(b))));
        if b[frac_end(b) + 1] == 0x2d {
            -(e as int)
        } else {
            e as int
        }
    } else {
        0
    }
}

/// The power of ten that the number of the mantissa's digits is scaled by at
/// scale 1e-8.
pub open spec fn effective(b: Seq<u8>) -> int {
    8 + exponent(b) - (frac_end(b) - frac_start(b))
}

/// The digits denote a number that 128 bits may not hold.
pub open spec fn wide(d: Seq<u8>) -> bool {
    d.len() > 0 && text::digits_value(d.drop_last()) > MANT_LIMIT
}

/// The largest magnitude of an i64 with the given sign.
pub open spec fn largest(neg: bool) -> nat {
    if neg {
        0x8000_0000_0000_0000
    } else {
        0x7fff_ffff_ffff_ffff
    }
}

/// The magnitude `v` with the given sign, where it fits in an i64.
pub open spec fn ranged(v: nat, neg: bool) -> Result<i64, ParseFixedError> {
    if v > largest(neg) {
        Err(ParseFixedError::Overflow)
    } else if neg {
        Ok((-(v as int)) as i64)
    } else {
        Ok(v as i64)
    }
}

/// `mant * 10^eff` with the given sign, as an i64: exact or an error. Of a
/// value that is both too large and too fine, the error is `Overflow` where
/// the mantissa is a wide one, and `PrecisionLoss` where it is not.
pub open spec fn scaled(mant: nat, eff: int, neg: bool, wide: bool) -> Result<i64, ParseFixedError> {
    if eff >= 0 {
        ranged(mant * text::pow10(eff as nat), neg)
    } else {
        let p = text::pow10((-eff) as nat);
        if mant % p == 0 {
            ranged(mant / p, neg)
        } else if wide && mant > largest(neg) * p {
            Err(ParseFixedError::Overflow)
        } else {
            Err(ParseFixedError::PrecisionLoss)
        }
    }
}

/// What [`parse_fixed`] makes of a token: the mantissa that the grammar
/// `[+-]? digits? ('.' digits?)? ([eE] [+-]? digits)?` (with at least one
/// digit in the integer and fraction parts) gives it at scale 1e-8.
pub open spec fn parse_fixed_spec(b: Seq<u8>) -> Result<i64, ParseFixedError> {
    let d = mant_digits(b);
    if d.len() == 0 || !tail_ok(b) {
        Err(ParseFixedError::Malformed)
    } else {
        scaled(text::digits_value(d), effective(b), b.len() > 0 && b[0] == 0x2d, wide(d))
    }
}

/// Ten to the power `e`, for the powers that fit.
fn pow10_exec(e: u32) -> (p: u128)
    requires
        e <= 38,
    ensures
        p == text::pow10(e as nat),
        p >= 1,
{
    let mut p: u128 = 1;
    let mut i: u32 = 0;
    while i < e
        invariant
            i <= e <= 38,
            p == text::pow10(i as nat),
            p >= 1,
        decreases e - i,
    {
        proof {
            text::lemma_pow10_values();
            text::lemma_pow10_monotone((i + 1) as nat, 38);
            assert(text::pow10((i + 1) as nat) == 10 * text::pow10(i as nat));
        }
        p = p * 10;
        i += 1;
    }
    p
}

/// The magnitude `v` with the given sign, range-checked into i64.
fn range_check(v: u128, neg: bool) -> (r: Result<i64, ParseFixedError>)
    ensures
        r == ranged(v as nat, neg),
{
    let limit: u128 = if neg {
        0x8000_0000_0000_0000
    } else {
        0x7fff_ffff_ffff_ffff
    };
    if v > limit {
        return Err(ParseFixedError::Overflow);
    }
    if neg {
        let w: i128 = -(v as i128);
        Ok(w as i64)
    } else {
        Ok(v as i64)
    }
}

/// The bytes of a token that hold its mantissa: integer digits from `int` to
/// `int_end`, fraction digits from `frac` to `frac_end`.
struct Spans {
    int: usize,
    int_end: usize,
    frac: usize,
    frac_end: usize,
}

impl Spans {
    /// These are the spans of the token `b`.
    spec fn of(self, b: Seq<u8>) -> bool {
        &&& self.int == int_start(b)
        &&& self.int_end == int_end(b)
        &&& self.frac == frac_start(b)
        &&& self.frac_end == frac_end(b)
        &&& self.int <= self.int_end <= self.frac <= self.frac_end <= b.len()
    }

    /// How many digits the mantissa has.
    fn count(&self, b: &[u8]) -> (n: usize)
        requires
            self.of(b@),
        ensures
            n == mant_digits(b@).len(),
    {
        (self.int_end - self.int) + (self.frac_end - self.frac)
    }

    /// The value of the mantissa's digit number `j`.
    fn digit(&self, b: &[u8], j: usize) -> (c: u8)
        requires
            self.of(b@),
            j < mant_digits(b@).len(),
        ensures
            c == mant_digits(b@)[j as int] - 0x30,
            c <= 9,
    {
        proof {
            lemma_mant_digits(b@);
            assert(text::is_digit(mant_digits(b@)[j as int]));
        }
        let n: usize = self.int_end - self.int;
        if j < n {
            b[self.int + j] - 0x30
        } else {
            b[self.frac + (j - n)] - 0x30
        }
    }

    /// The number that the first `k` digits denote, or some larger one past
    /// `MANT_LIMIT` where it is past `MANT_LIMIT` itself.
    fn leading(&self, b: &[u8], k: usize) -> (v: u128)
        requires
            self.of(b@),
            k <= mant_digits(b@).len(),
        ensures
            ({
                let x = text::digits_value(mant_digits(b@).take(k as int));
                v == x || (v > MANT_LIMIT && x > MANT_LIMIT)
            }),
    {
        let ghost d: Seq<u8> = mant_digits(b@);
        let mut v: u128 = 0;
        let mut j: usize = 0;
        assert(d.take(0) =~= Seq::<u8>::empty());
        while j < k
            invariant
                self.of(b@),
                d == mant_digits(b@),
                j <= k <= d.len(),
                ({
                    let x = text::digits_value(d.take(j as int));
                    v == x || (v > MANT_LIMIT && x > MANT_LIMIT)
                }),
            decreases k - j,
        {
            let c: u8 = self.digit(b, j);
            assert(d.take(j + 1).drop_last() =~= d.take(j as int));
            if v <= MANT_LIMIT {
                v = v * 10 + c as u128;
            }
            j += 1;
        }
        v
    }

    /// The digits from number `k` on are all zero.
    fn zeros_from(&self, b: &[u8], k: usize) -> (r: bool)
        requires
            self.of(b@),
            k <= mant_digits(b@).len(),
        ensures
            r == (text::digits_value(mant_digits(b@).skip(k as int)) == 0),
    {
        let ghost d: Seq<u8> = mant_digits(b@);
        let n: usize = self.count(b);
        let mut j: usize = k;
        assert(d.skip(k as int).take(0) =~= Seq::<u8>::empty());
        while j < n
            invariant
                self.of(b@),
                d == mant_digits(b@),
                n == d.len(),
                k <= j <= n,
                text::digits_value(d.skip(k as int).take(j - k)) == 0,
            decreases n - j,
        {
            let c: u8 = self.digit(b, j);
            let ghost t: Seq<u8> = d.skip(k as int);
            assert(t.take(j - k + 1).drop_last() =~= t.take(j - k));
            assert(t.take(j - k + 1).last() == d[j as int]);
            if c != 0 {
                proof {
                    lemma_mant_digits(b@);
                    assert forall|i: int| 0 <= i < t.len() implies text::is_digit(
                        #[trigger] t[i],
                    ) by {
                        assert(t[i] == d[k + i]);
                    }
                    text::lemma_digits_value_prefix(t, j - k + 1);
                }
                return false;
            }
            j += 1;
        }
        assert(d.skip(k as int).take(n - k) =~= d.skip(k as int));
        true
    }

    /// The mantissa's number times `10^eff` with the given sign, as an i64.
    fn scale(&self, b: &[u8], eff: i128, neg: bool) -> (r: Result<i64, ParseFixedError>)
        requires
            self.of(b@),
            mant_digits(b@).len() > 0,
            i128::MIN < eff,
        ensures
            r == scaled(
                text::digits_value(mant_digits(b@)),
                eff as int,
                neg,
                wide(mant_digits(b@)),
            ),
    {
        let ghost d: Seq<u8> = mant_digits(b@);
        let ghost mant: nat = text::digits_value(d);
        let n: usize = self.count(b);
        proof {
            lemma_mant_digits(b@);
            text::lemma_pow10_values();
            assert(d.take(n as int) =~= d);
            assert(d.take(n - 1) =~= d.drop_last());
        }
        if eff >= 0 {
            let v: u128 = self.leading(b, n);
            if v == 0 {
                assert(0 * text::pow10(eff as nat) == 0);
                return Ok(0);
            }
            proof {
                text::lemma_pow10_positive(eff as nat);
                assert(mant * text::pow10(eff as nat) >= text::pow10(eff as nat)) by (nonlinear_arith)
                    requires
                        mant >= 1,
                        text::pow10(eff as nat) >= 0,
                ;
                assert(mant * text::pow10(eff as nat) >= mant) by (nonlinear_arith)
                    requires
                        text::pow10(eff as nat) >= 1,
                ;
            }
            if eff > 38 {
                proof {
                    text::lemma_pow10_monotone(39, eff as nat);
                }
                return Err(ParseFixedError::Overflow);
            }
            let pow: u128 = pow10_exec(eff as u32);
            match v.checked_mul(pow) {
                Some(w) => {
                    proof {
                        assert(v * pow >= v) by (nonlinear_arith)
                            requires
                                pow >= 1,
                        ;
                    }
                    range_check(w, neg)
                },
                None => Err(ParseFixedError::Overflow),
            }
        } else {
            let k: i128 = -eff;
            let ghost p: nat = text::pow10(k as nat);
            proof {
                text::lemma_pow10_positive(k as nat);
            }
            // the digits in front of the last `k` ones
            let front: usize = if k >= n as i128 {
                0
            } else {
                n - k as usize
            };
            let q: u128 = self.leading(b, front);
            proof {
                lemma_split(d, front as int, k as nat);
            }
            if self.zeros_from(b, front) {
                return range_check(q, neg);
            }
            let limit: u128 = if neg {
                0x8000_0000_0000_0000
            } else {
                0x7fff_ffff_ffff_ffff
            };
            proof {
                let x = text::digits_value(d.take(front as int));
                let t = mant % p;
                assert(mant > limit * p <==> x >= limit) by (nonlinear_arith)
                    requires
                        mant == x * p + t,
                        0 < t < p,
                ;
                assert(largest(neg) * p == limit * p);
            }
            if q >= limit && self.leading(b, n - 1) > MANT_LIMIT {
                Err(ParseFixedError::Overflow)
            } else {
                Err(ParseFixedError::PrecisionLoss)
            }
        }
    }
}

/// Dividing by `10^k` cuts the last `k` digits off.
proof fn lemma_split(d: Seq<u8>, front: int, k: nat)
    requires
        text::all_digits(d),
        0 <= front <= d.len(),
        front == 0 ==> k >= d.len(),
        front > 0 ==> front + k == d.len(),
    ensures
        ({
            let p = text::pow10(k);
            let q = text::digits_value(d.take(front));
            let t = text::digits_value(d.skip(front));
            &&& p >= 1
            &&& t < p
            &&& text::digits_value(d) == q * p + t
            &&& text::digits_value(d) / p == q
            &&& text::digits_value(d) % p == t
        }),
{
    let p = text::pow10(k);
    let a = d.take(front);
    let z = d.skip(front);
    let q = text::digits_value(a);
    let t = text::digits_value(z);
    assert(a + z =~= d);
    assert forall|i: int| 0 <= i < z.len() implies text::is_digit(#[trigger] z[i]) by {
        assert(z[i] == d[front + i]);
    }
    text::lemma_digits_value_concat(a, z);
    text::lemma_digits_value_bound(z);
    text::lemma_pow10_monotone(z.len(), k);
    if front == 0 {
        assert(a =~= Seq::<u8>::empty());
        assert(q == 0);
        assert(0 * p == 0 && 0 * text::pow10(z.len()) == 0);
    } else {
        assert(z.len() == k);
    }
    vstd::arithmetic::div_mod::lemma_fundamental_div_mod_converse(
        text::digits_value(d) as int,
        p as int,
        q as int,
        t as int,
    );
}

/// Powers of ten out of the mantissa's reach all have the same outcome.
proof fn lemma_far(mant: nat, n: nat, x: int, y: int, neg: bool, wide: bool)
    requires
        mant < text::pow10(n),
        (x > 38 && y > 38) || (x < -n && y < -n),
    ensures
        scaled(mant, x, neg, wide) == scaled(mant, y, neg, wide),
{
    text::lemma_pow10_values();
    if mant == 0 {
        lemma_zero(x, neg, wide);
        lemma_zero(y, neg, wide);
    } else if x > 38 {
        lemma_far_up(mant, x, neg, wide);
        lemma_far_up(mant, y, neg, wide);
    } else {
        lemma_far_down(mant, n, x, neg, wide);
        lemma_far_down(mant, n, y, neg, wide);
    }
}

proof fn lemma_zero(eff: int, neg: bool, wide: bool)
    ensures
        scaled(0, eff, neg, wide) == Ok::<i64, ParseFixedError>(0),
{
    if eff >= 0 {
        assert(0 * text::pow10(eff as nat) == 0);
    } else {
        let p = text::pow10((-eff) as nat);
        text::lemma_pow10_positive((-eff) as nat);
        vstd::arithmetic::div_mod::lemma_small_mod(0, p);
        vstd::arithmetic::div_mod::lemma_fundamental_div_mod_converse(0, p as int, 0, 0);
    }
}

proof fn lemma_far_up(mant: nat, eff: int, neg: bool, wide: bool)
    requires
        mant > 0,
        eff > 38,
    ensures
        scaled(mant, eff, neg, wide) == Err::<i64, ParseFixedError>(ParseFixedError::Overflow),
{
    text::lemma_pow10_values();
    text::lemma_pow10_monotone(39, eff as nat);
    assert(mant * text::pow10(eff as nat) >= text::pow10(eff as nat)) by (nonlinear_arith)
        requires
            mant >= 1,
            text::pow10(eff as nat) >= 0,
    ;
}

proof fn lemma_far_down(mant: nat, n: nat, eff: int, neg: bool, wide: bool)
    requires
        0 < mant < text::pow10(n),
        eff < -n,
    ensures
        scaled(mant, eff, neg, wide) == Err::<i64, ParseFixedError>(
            ParseFixedError::PrecisionLoss,
        ),
{
    let p = text::pow10((-eff) as nat);
    text::lemma_pow10_monotone(n, (-eff) as nat);
    vstd::arithmetic::div_mod::lemma_small_mod(mant, p);
    assert(largest(neg) * p >= p) by (nonlinear_arith)
        requires
            largest(neg) >= 1,
            p >= 0,
    ;
}

/// The exponent part of a token behind its mantissa and where it ends: 0
/// where there is none, and no larger than `EXP_CAP` in magnitude.
fn read_exponent(b: &[u8], at: usize) -> (r: Result<(i128, usize), ParseFixedError>)
    requires
        at == frac_end(b@),
        at <= b@.len(),
    ensures
        match r {
            Ok(x) => {
                &&& x.0 == (if exponent(b@) > EXP_CAP {
                    EXP_CAP as int
                } else if exponent(b@) < -EXP_CAP {
                    -EXP_CAP
                } else {
                    exponent(b@)
                })
                &&& x.1 == (if has_exp(b@) {
                    text::digit_end(b@, exp_start(b@))
                } else {
                    at as int
                })
                &&& has_exp(b@) ==> x.1 > exp_start(b@)
            },
            Err(e) => e == ParseFixedError::Malformed && has_exp(b@) && text::digit_end(
                b@,
                exp_start(b@),
            ) == exp_start(b@),
        },
{
    let n: usize = b.len();
    let ghost bs: Seq<u8> = b@;
    let mut i: usize = at;
    if !(i < n && (b[i] == 0x65 || b[i] == 0x45)) {
        return Ok((0, at));
    }
    i += 1;
    let mut eneg: bool = false;
    if i < n {
        if b[i] == 0x2d {
            i += 1;
            eneg = true;
        } else if b[i] == 0x2b {
            i += 1;
        }
    }
    let ghost e0: int = exp_start(bs);
    assert(i as int == e0);
    let mut any_exp: bool = false;
    let mut e: i128 = 0;
    proof {
        text::lemma_digit_end_bounds(bs, e0);
        assert(bs.subrange(e0, e0) =~= Seq::<u8>::empty());
    }
    while i < n && b[i] >= 0x30 && b[i] <= 0x39
        invariant
            n == b.len(),
            bs == b@,
            0 <= e0 <= i <= n,
            text::digit_end(bs, i as int) == text::digit_end(bs, e0),
            any_exp == (i > e0),
            0 <= e <= EXP_CAP,
            e == (if text::digits_value(bs.subrange(e0, i as int)) > EXP_CAP {
                EXP_CAP as int
            } else {
                text::digits_value(bs.subrange(e0, i as int)) as int
            }),
        decreases n - i,
    {
        any_exp = true;
        proof {
            assert(bs.subrange(e0, i + 1).drop_last() =~= bs.subrange(e0, i as int));
        }
        e = e * 10 + (b[i] - 0x30) as i128;
        if e > EXP_CAP {
            e = EXP_CAP;
        }
        i += 1;
    }
    assert(i as int == text::digit_end(bs, e0));
    if !any_exp {
        return Err(ParseFixedError::Malformed);
    }
    if eneg {
        Ok((-e, i))
    } else {
        Ok((e, i))
    }
}

/// Parse an ASCII decimal token into an exact i64 mantissa at scale 1e-8.
///
/// Accepted grammar (no whitespace, no trailing bytes):
/// `[+-]? digits? ('.' digits?)? ([eE] [+-]? digits)?` with at least one
/// digit in the integer and fraction parts. Examples: `"63589.64"`, `"-0.5"`,
/// `".25"`, `"5."`, `"1.2e-3"`, `"0.00000001"`.
pub fn parse_fixed(b: &[u8]) -> (r: Result<i64, ParseFixedError>)
    ensures
        r == parse_fixed_spec(b@),
{
    let n: usize = b.len();
    let mut start: usize = 0;
    let mut neg: bool = false;
    if n > 0 {
        if b[0] == 0x2d {
            start = 1;
            neg = true;
        } else if b[0] == 0x2b {
            start = 1;
        }
    }
    let ghost d: Seq<u8> = mant_digits(b@);
    proof {
        lemma_mant_digits(b@);
    }
    let int_end: usize = text::digit_run_end(b, start);
    let mut frac: usize = int_end;
    let mut frac_end: usize = int_end;
    if int_end < n && b[int_end] == 0x2e {
        frac = int_end + 1;
        frac_end = text::digit_run_end(b, frac);
    }
    let spans: Spans = Spans { int: start, int_end, frac, frac_end };
    if spans.count(b) == 0 {
        return Err(ParseFixedError::Malformed);
    }
    let (exp, end): (i128, usize) = match read_exponent(b, frac_end) {
        Ok(x) => x,
        Err(e) => {
            return Err(e);
        },
    };
    if end != n {
        return Err(ParseFixedError::Malformed);
    }
    let eff: i128 = SCALE_EXP as i128 + exp - (frac_end - frac) as i128;
    proof {
        text::lemma_digits_value_bound(d);
        if exp != exponent(b@) {
            lemma_far(text::digits_value(d), d.len(), eff as int, effective(b@), neg, wide(d));
        }
    }
    spans.scale(b, eff, neg)
}

proof fn lemma_mant_digits(b: Seq<u8>)
    ensures
        text::all_digits(mant_digits(b)),
        int_start(b) <= int_end(b) <= frac_start(b) <= frac_end(b) <= b.len(),
{
    text::lemma_digit_end_bounds(b, int_start(b));
    text::lemma_digit_end_bounds(b, frac_start(b));
    let x = b.subrange(int_start(b), int_end(b));
    let y = b.subrange(frac_start(b), frac_end(b));
    assert forall|i: int| 0 <= i < (x + y).len() implies text::is_digit(#[trigger] (x + y)[i]) by {
        if i < x.len() {
            assert((x + y)[i] == b[int_start(b) + i]);
        } else {
            assert((x + y)[i] == b[frac_start(b) + i - x.len()]);
        }
    }
}

proof fn lemma_all_digits_drop_last(d: Seq<u8>)
    requires
        text::all_digits(d),
        d.len() > 0,
    ensures
        text::all_digits(d.drop_last()),
{
    assert forall|i: int| 0 <= i < d.drop_last().len() implies text::is_digit(
        #[trigger] d.drop_last()[i],
    ) by {
        assert(d.drop_last()[i] == d[i]);
    }
}

/// The last `w` decimal digits of `n`, zero-padded.
pub open spec fn padded(n: nat, w: nat) -> Seq<u8>
    decreases w,
{
    if w == 0 {
        Seq::empty()
    } else {
        padded(n / 10, (w - 1) as nat).push((0x30 + n % 10) as u8)
    }
}

/// `s` without its trailing `0` digits.
pub open spec fn strip_zeros(s: Seq<u8>) -> Seq<u8>
    decreases s.len(),
{
    if s.len() > 0 && s.last() == 0x30 {
        strip_zeros(s.drop_last())
    } else {
        s
    }
}

/// The exact decimal form of the mantissa `m`: a sign if it is negative, the
/// integer part, and the fraction without trailing zeros if it has one.
pub open spec fn format_bytes(m: i64) -> Seq<u8> {
    let a: nat = if m < 0 {
        (-m) as nat
    } else {
        m as nat
    };
    let sign: Seq<u8> = if m < 0 {
        seq![0x2du8]
    } else {
        Seq::empty()
    };
    let frac = a % 100_000_000;
    if frac == 0 {
        sign + text::dec_bytes(a / 100_000_000)
    } else {
        sign + text::dec_bytes(a / 100_000_000) + seq![0x2eu8] + strip_zeros(padded(frac, 8))
    }
}

/// Append the last `w` decimal digits of `n`, zero-padded.
fn push_padded(out: &mut Vec<u8>, n: u64, w: u32)
    ensures
        final(out)@ == old(out)@ + padded(n as nat, w as nat),
    decreases w,
{
    if w > 0 {
        push_padded(out, n / 10, w - 1);
        let d: u8 = (n % 10) as u8;
        out.push(0x30 + d);
    }
    assert(out@ =~= old(out)@ + padded(n as nat, w as nat));
}

/// Format a 1e-8 mantissa as an exact decimal string (not hot-path).
pub fn format_fixed(m: i64) -> (r: String)
    ensures
        r@ == text::chars_of(format_bytes(m)),
        encode_utf8(r@) == format_bytes(m),
{
    let a: u64 = if m < 0 {
        (-(m as i128)) as u64
    } else {
        m as u64
    };
    let whole: u64 = a / 100_000_000;
    let frac: u64 = a % 100_000_000;
    let mut out: Vec<u8> = Vec::new();
    if m < 0 {
        out.push(0x2d);
    }
    text::push_dec_bytes(&mut out, whole as u128);
    if frac > 0 {
        out.push(0x2e);
        let mut f: Vec<u8> = Vec::new();
        push_padded(&mut f, frac, 8);
        proof {
            lemma_padded(frac as nat, 8);
        }
        let mut w: usize = f.len();
        assert(f@.take(w as int) =~= f@);
        while w > 0 && f[w - 1] == 0x30
            invariant
                w <= f.len(),
                strip_zeros(f@) == strip_zeros(f@.take(w as int)),
            decreases w,
        {
            assert(f@.take(w as int).drop_last() =~= f@.take(w - 1));
            w -= 1;
        }
        assert(f@.take(w as int) == strip_zeros(f@));
        f.truncate(w);
        out.append(&mut f);
    }
    assert(out@ =~= format_bytes(m));
    proof {
        lemma_format_ascii(m);
        text::lemma_chars_of_utf8(format_bytes(m));
    }
    text::ascii_string(out.as_slice())
}

proof fn lemma_padded(n: nat, w: nat)
    ensures
        padded(n, w).len() == w,
        text::all_digits(padded(n, w)),
        text::digits_value(padded(n, w)) == n % text::pow10(w),
    decreases w,
{
    if w == 0 {
        assert(n % 1 == 0);
    } else {
        lemma_padded(n / 10, (w - 1) as nat);
        let s = padded(n, w);
        let init = padded(n / 10, (w - 1) as nat);
        assert(s.drop_last() =~= init);
        assert forall|i: int| 0 <= i < s.len() implies text::is_digit(#[trigger] s[i]) by {
            if i < s.len() - 1 {
                assert(s[i] == init[i]);
            }
        }
        let p = text::pow10((w - 1) as nat);
        text::lemma_pow10_positive((w - 1) as nat);
        assert(text::pow10(w) == 10 * p);
        assert(n % (10 * p) == ((n / 10) % p) * 10 + n % 10) by {
            vstd::arithmetic::div_mod::lemma_mod_breakdown(n as int, 10, p as int);
        }
    }
}

proof fn lemma_strip_zeros(s: Seq<u8>)
    requires
        text::all_digits(s),
    ensures
        strip_zeros(s).len() <= s.len(),
        text::all_digits(strip_zeros(s)),
        text::digits_value(strip_zeros(s)) * text::pow10((s.len() - strip_zeros(s).len()) as nat)
            == text::digits_value(s),
    decreases s.len(),
{
    if s.len() > 0 && s.last() == 0x30 {
        lemma_all_digits_drop_last(s);
        lemma_strip_zeros(s.drop_last());
        let x = text::digits_value(strip_zeros(s));
        let k = (s.len() - 1 - strip_zeros(s).len()) as nat;
        assert(text::pow10(k + 1) == 10 * text::pow10(k));
        assert(x * (10 * text::pow10(k)) == (x * text::pow10(k)) * 10) by (nonlinear_arith);
        assert((s.len() - strip_zeros(s).len()) as nat == k + 1);
    } else {
        assert(text::digits_value(s) * 1 == text::digits_value(s));
        assert(text::pow10(0) == 1);
    }
}

proof fn lemma_format_ascii(m: i64)
    ensures
        text::all_ascii(format_bytes(m)),
{
    let a: nat = if m < 0 {
        (-m) as nat
    } else {
        m as nat
    };
    let frac = a % 100_000_000;
    text::lemma_dec_bytes(a / 100_000_000);
    lemma_padded(frac, 8);
    lemma_strip_zeros(padded(frac, 8));
    let s = strip_zeros(padded(frac, 8));
    assert forall|i: int| 0 <= i < s.len() implies #[trigger] s[i] < 128 by {
        assert(text::is_digit(s[i]));
    }
}

/// Formatting a mantissa and parsing the text gives the mantissa back.
pub proof fn lemma_parse_format_roundtrip(m: i64)
    ensures
        parse_fixed_spec(format_bytes(m)) == Ok::<i64, ParseFixedError>(m),
{
    let b = format_bytes(m);
    let neg = m < 0;
    let a: nat = if neg {
        (-m) as nat
    } else {
        m as nat
    };
    let whole = a / 100_000_000;
    let frac = a % 100_000_000;
    let di = text::dec_bytes(whole);
    let i0: int = if neg {
        1
    } else {
        0
    };
    text::lemma_dec_bytes(whole);
    text::lemma_pow10_values();
    assert(text::is_digit(di[0]));
    assert(b[i0] == di[0]);
    assert(int_start(b) == i0);
    let i1 = i0 + di.len();
    assert forall|k: int| i0 <= k < i1 implies text::is_digit(#[trigger] b[k]) by {
        assert(b[k] == di[k - i0]);
    }
    assert(b.subrange(i0, i1) =~= di);
    if frac == 0 {
        text::lemma_digit_end_is(b, i0, i1);
        assert(mant_digits(b) =~= di);
        assert(whole * 100_000_000 == a);
        if whole > 0 {
            assert(scaled(whole, 8, neg, wide(di)) == Ok::<i64, ParseFixedError>(m));
        }
    } else {
        lemma_padded(frac, 8);
        lemma_strip_zeros(padded(frac, 8));
        let s = strip_zeros(padded(frac, 8));
        assert(frac % 100_000_000 == frac);
        assert(b[i1] == 0x2e);
        text::lemma_digit_end_is(b, i0, i1);
        assert forall|k: int| i1 + 1 <= k < b.len() implies text::is_digit(#[trigger] b[k]) by {
            assert(b[k] == s[k - i1 - 1]);
        }
        text::lemma_digit_end_is(b, i1 + 1, b.len() as int);
        assert(b.subrange(i1 + 1, b.len() as int) =~= s);
        let d = di + s;
        assert(mant_digits(b) =~= d);
        text::lemma_digits_value_concat(di, s);
        lemma_mant_digits(b);
        let k = s.len();
        let e = (8 - k) as nat;
        let mant = text::digits_value(d);
        text::lemma_pow10_sum(k, e);
        assert(text::pow10(k) * text::pow10(e) == 100_000_000);
        let sv = text::digits_value(s);
        let pk = text::pow10(k);
        let pe = text::pow10(e);
        assert((whole * pk + sv) * pe == whole * (pk * pe) + sv * pe) by (nonlinear_arith);
        assert(mant * pe == a);
        text::lemma_pow10_positive(e);
        assert(mant <= mant * pe) by (nonlinear_arith)
            requires
                pe >= 1,
        ;
        assert(mant > 0) by (nonlinear_arith)
            requires
                mant * pe == a,
                a > 0,
                mant >= 0,
        ;
        assert(scaled(mant, e as int, neg, wide(d)) == Ok::<i64, ParseFixedError>(m));
        assert(frac_end(b) == b.len());
        assert(frac_end(b) - frac_start(b) == k);
    }
}

} // verus!
