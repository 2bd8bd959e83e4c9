//! Laws of exact decimals.
use crate::fixed;
use crate::fixed::ParseFixedError;
use crate::laws::digits;
use crate::text;
use vstd::arithmetic::power::*;
use vstd::prelude::*;

verus! {

/// An exponent part: its letter, its sign and its digits.
pub struct Exponent {
    pub letter: u8,
    pub sign: Seq<u8>,
    pub digits: Seq<u8>,
}

/// A decimal token, taken apart.
pub struct Token {
    pub sign: Seq<u8>,
    pub whole: Seq<u8>,
    /// There is a point between the digits.
    pub point: bool,
    pub frac: Seq<u8>,
    pub exp: Option<Exponent>,
}

/// No sign, a plus sign or a minus sign.
pub open spec fn is_sign(s: Seq<u8>) -> bool {
    s == Seq::<u8>::empty() || s == seq![0x2bu8] || s == seq![0x2du8]
}

/// Every byte is one of the digits `0` to `9`.
pub open spec fn digits_only(s: Seq<u8>) -> bool {
    forall|i: int| 0 <= i < s.len() ==> 0x30 <= #[trigger] s[i] <= 0x39
}

impl Exponent {
    /// The letter `e` or `E`, perhaps a sign, and at least one digit.
    pub open spec fn valid(self) -> bool {
        &&& self.letter == 0x65 || self.letter == 0x45
        &&& is_sign(self.sign)
        &&& self.digits.len() > 0
        &&& digits_only(self.digits)
    }

    /// The exponent.
    pub open spec fn value(self) -> int {
        if self.sign == seq![0x2du8] {
            -(text::digits_value(self.digits) as int)
        } else {
            text::digits_value(self.digits) as int
        }
    }

    /// Its text.
    pub open spec fn text(self) -> Seq<u8> {
        seq![self.letter] + self.sign + self.digits
    }
}

impl Token {
    /// Perhaps a sign, digits, perhaps a point and digits behind it, at least
    /// one digit in all, and perhaps an exponent part.
    pub open spec fn valid(self) -> bool {
        &&& is_sign(self.sign)
        &&& digits_only(self.whole)
        &&& digits_only(self.frac)
        &&& self.whole.len() + self.frac.len() > 0
        &&& !self.point ==> self.frac.len() == 0
        &&& self.exp matches Some(e) ==> e.valid()
    }

    /// The text of the token.
    pub open spec fn text(self) -> Seq<u8> {
        self.sign + self.whole + (if self.point {
            seq![0x2eu8]
        } else {
            Seq::empty()
        }) + self.frac + (match self.exp {
            Some(e) => e.text(),
            None => Seq::empty(),
        })
    }

    /// The number of all its digits, read as an integer.
    pub open spec fn number(self) -> int {
        text::digits_value(self.whole + self.frac) as int
    }

    /// The number of the token is its integer times ten to this power, in
    /// units of 1e-8.
    pub open spec fn power(self) -> int {
        8 - self.frac.len() + (match self.exp {
            Some(e) => e.value(),
            None => 0,
        })
    }

    pub open spec fn negative(self) -> bool {
        self.sign == seq![0x2du8]
    }
}

/// How the parser sees the parts of a token.
proof fn lemma_parts(t: Token)
    requires
        t.valid(),
    ensures
        ({
            let b = t.text();
            &&& fixed::mant_digits(b) == t.whole + t.frac
            &&& fixed::tail_ok(b)
            &&& fixed::effective(b) == t.power()
            &&& (b.len() > 0 && b[0] == 0x2d) == t.negative()
        }),
{
    let b = t.text();
    let dot = if t.point {
        seq![0x2eu8]
    } else {
        Seq::<u8>::empty()
    };
    let x = match t.exp {
        Some(e) => e.text(),
        None => Seq::<u8>::empty(),
    };
    let i0 = t.sign.len() as int;
    let i1 = i0 + t.whole.len();
    let f0 = i1 + dot.len();
    let f1 = f0 + t.frac.len();
    assert(b.len() == f1 + x.len());
    assert forall|k: int| i0 <= k < i1 implies text::is_digit(#[trigger] b[k]) by {
        assert(b[k] == t.whole[k - i0]);
    }
    assert forall|k: int| f0 <= k < f1 implies text::is_digit(#[trigger] b[k]) by {
        assert(b[k] == t.frac[k - f0]);
    }
    if x.len() > 0 {
        assert(b[f1] == x[0]);
        assert(x[0] == t.exp->0.letter);
    }
    if t.sign.len() > 0 {
        assert(b[0] == t.sign[0]);
    } else if t.whole.len() > 0 {
        assert(text::is_digit(b[0]));
    } else {
        assert(t.point);
        assert(b[0] == dot[0]);
    }
    assert(fixed::int_start(b) == i0);
    if t.point {
        assert(b[i1] == 0x2e);
    }
    text::lemma_digit_end_is(b, i0, i1);
    assert(fixed::int_end(b) == i1);
    assert(fixed::frac_start(b) == f0);
    if t.point {
        text::lemma_digit_end_is(b, f0, f1);
    }
    assert(fixed::frac_end(b) == f1);
    assert(b.subrange(i0, i1) =~= t.whole);
    assert(b.subrange(f0, f1) =~= t.frac);
    if let Some(e) = t.exp {
        let s = f1 + 1;
        let d = s + e.sign.len();
        assert(e.text().len() == 1 + e.sign.len() + e.digits.len());
        assert forall|k: int| d <= k < b.len() implies text::is_digit(#[trigger] b[k]) by {
            assert(b[k] == e.text()[k - f1]);
            assert(e.text()[k - f1] == e.digits[k - d]);
        }
        if e.sign.len() > 0 {
            assert(b[s] == e.text()[1]);
            assert(e.text()[1] == e.sign[0]);
        } else {
            assert(text::is_digit(b[s]));
        }
        assert(fixed::exp_start(b) == d);
        text::lemma_digit_end_is(b, d, b.len() as int);
        assert(b.subrange(d, b.len() as int) =~= e.digits) by {
            assert forall|k: int| 0 <= k < e.digits.len() implies b.subrange(
                d,
                b.len() as int,
            )[k] == e.digits[k] by {
                assert(b[d + k] == e.text()[d + k - f1]);
            }
        }
    }
}

/// Every token of the grammar denotes a number, and that number is read
/// exactly, or not at all. Where `n` is the integer of its digits, `k` the
/// power of ten that it is scaled by (in units of 1e-8) and `top` the largest
/// magnitude of its sign:
/// with `k` not negative the result is `n * 10^k`, an overflow where that is
/// more than `top`; with `k` negative it is the quotient by `10^-k` where
/// that is whole and no more than `top`, an overflow where it is whole and
/// more, and a loss of precision where it is not whole and no more.
pub proof fn lemma_token_value(t: Token)
    requires
        t.valid(),
    ensures
        ({
            let r = fixed::parse_fixed_spec(t.text());
            let n = t.number();
            let k = t.power();
            let top: int = if t.negative() {
                0x8000_0000_0000_0000
            } else {
                0x7fff_ffff_ffff_ffff
            };
            &&& k >= 0 ==> {
                let v = n * pow(10, k as nat);
                &&& v <= top ==> r is Ok && r->Ok_0 == (if t.negative() {
                    -v
                } else {
                    v
                })
                &&& v > top ==> r == Err::<i64, ParseFixedError>(ParseFixedError::Overflow)
            }
            &&& k < 0 ==> {
                let p = pow(10, (-k) as nat);
                &&& n % p == 0 && n <= top * p ==> r is Ok && r->Ok_0 * p == (if t.negative() {
                    -n
                } else {
                    n
                })
                &&& n % p == 0 && n > top * p ==> r == Err::<i64, ParseFixedError>(
                    ParseFixedError::Overflow,
                )
                &&& n % p != 0 && n <= top * p ==> r == Err::<i64, ParseFixedError>(
                    ParseFixedError::PrecisionLoss,
                )
                &&& n % p != 0 ==> r is Err && r->Err_0 != ParseFixedError::Malformed
            }
        }),
{
    lemma_parts(t);
    let n = t.number();
    let k = t.power();
    let top: int = if t.negative() {
        0x8000_0000_0000_0000
    } else {
        0x7fff_ffff_ffff_ffff
    };
    if k >= 0 {
        digits::lemma_power_of_ten(k as nat);
        assert(n * pow(10, k as nat) == (n as nat) * text::pow10(k as nat));
        assert(n * pow(10, k as nat) >= 0) by (nonlinear_arith)
            requires
                n >= 0,
                pow(10, k as nat) == text::pow10(k as nat) as int,
        ;
    } else {
        digits::lemma_power_of_ten((-k) as nat);
        text::lemma_pow10_positive((-k) as nat);
        let p = pow(10, (-k) as nat);
        let q = n / p;
        vstd::arithmetic::div_mod::lemma_fundamental_div_mod(n, p);
        vstd::arithmetic::div_mod::lemma_mod_bound(n, p);
        assert(n % p == 0 ==> (q <= top <==> n <= top * p)) by (nonlinear_arith)
            requires
                n == p * q + n % p,
                p > 0,
        ;
        assert(n % p == 0 ==> q * p == n && (-q) * p == -n) by (nonlinear_arith)
            requires
                n == p * q + n % p,
        ;
        assert(q >= 0) by (nonlinear_arith)
            requires
                n == p * q + n % p,
                n >= 0,
                0 <= n % p < p,
        ;
    }
}

/// What is read at all is a token of the grammar: anything else is malformed.
pub proof fn lemma_only_tokens(b: Seq<u8>)
    requires
        fixed::parse_fixed_spec(b) != Err::<i64, ParseFixedError>(ParseFixedError::Malformed),
    ensures
        exists|t: Token| #[trigger] t.valid() && t.text() == b,
{
    let i0 = fixed::int_start(b);
    let i1 = fixed::int_end(b);
    let f0 = fixed::frac_start(b);
    let f1 = fixed::frac_end(b);
    text::lemma_digit_end_bounds(b, i0);
    if f0 > i1 {
        text::lemma_digit_end_bounds(b, f0);
    }
    let sign = b.take(i0);
    let whole = b.subrange(i0, i1);
    let frac = b.subrange(f0, f1);
    let exp = if fixed::has_exp(b) {
        let d = fixed::exp_start(b);
        Some(
            Exponent {
                letter: b[f1],
                sign: b.subrange(f1 + 1, d),
                digits: b.subrange(d, b.len() as int),
            },
        )
    } else {
        None
    };
    let t = Token { sign, whole, point: f0 > i1, frac, exp };
    if i0 == 1 {
        assert(sign =~= seq![b[0]]);
    } else {
        assert(sign =~= Seq::<u8>::empty());
    }
    assert forall|k: int| 0 <= k < whole.len() implies 0x30 <= #[trigger] whole[k] <= 0x39 by {
        assert(text::is_digit(b[i0 + k]));
    }
    assert forall|k: int| 0 <= k < frac.len() implies 0x30 <= #[trigger] frac[k] <= 0x39 by {
        assert(text::is_digit(b[f0 + k]));
    }
    if fixed::has_exp(b) {
        let d = fixed::exp_start(b);
        let e = exp->0;
        text::lemma_digit_end_bounds(b, d);
        assert forall|k: int| 0 <= k < e.digits.len() implies 0x30 <= #[trigger] e.digits[k]
            <= 0x39 by {
            assert(text::is_digit(b[d + k]));
        }
        if d == f1 + 2 {
            assert(e.sign =~= seq![b[f1 + 1]]);
        } else {
            assert(e.sign =~= Seq::<u8>::empty());
        }
        assert(e.valid());
        assert(e.text() =~= b.skip(f1));
    } else {
        assert(b.skip(f1) =~= Seq::<u8>::empty());
    }
    assert(t.valid());
    let dot = if t.point {
        seq![0x2eu8]
    } else {
        Seq::<u8>::empty()
    };
    assert(b.subrange(i1, f0) =~= dot);
    assert(t.text() =~= b.take(i0) + b.subrange(i0, i1) + b.subrange(i1, f0) + b.subrange(f0, f1)
        + b.skip(f1));
    assert(t.text() =~= b);
}

/// The text of a mantissa has a minus sign exactly where it is negative, a
/// point exactly where it is no whole number, then no zero at its end, and
/// no zero in front of another digit.
pub proof fn lemma_format_is_canonical(m: i64)
    ensures
        ({
            let b = fixed::format_bytes(m);
            let s: int = if m < 0 {
                1
            } else {
                0
            };
            &&& b.len() > s
            &&& (m < 0 <==> b[0] == 0x2d)
            &&& (b.contains(0x2e) <==> m as int % 100_000_000 != 0)
            &&& b.contains(0x2e) ==> 0x31 <= b.last() <= 0x39
            &&& b[s] == 0x30 ==> b.len() == s + 1 || b[s + 1] == 0x2e
        }),
{
    let b = fixed::format_bytes(m);
    let neg = m < 0;
    let a: nat = if neg {
        (-m) as nat
    } else {
        m as nat
    };
    let sign: Seq<u8> = if neg {
        seq![0x2du8]
    } else {
        Seq::empty()
    };
    let s = sign.len() as int;
    let whole = a / 100_000_000;
    let frac = a % 100_000_000;
    let di = text::dec_bytes(whole);
    digits::lemma_decimal_form(whole);
    assert(b[s] == di[0]);
    assert forall|k: int| 0 <= k < di.len() implies 0x30 <= #[trigger] b[s + k] <= 0x39 by {
        assert(b[s + k] == di[k]);
    }
    if whole == 0 {
        assert(di =~= seq![0x30u8]);
    }
    if frac == 0 {
        assert(m as int % 100_000_000 == 0);
        assert(b =~= sign + di);
        assert(!b.contains(0x2e)) by {
            if b.contains(0x2e) {
                let k = choose|k: int| 0 <= k < b.len() && b[k] == 0x2e;
                if k >= s {
                    assert(b[s + (k - s)] == 0x2e);
                }
            }
        }
    } else {
        assert(m as int % 100_000_000 != 0);
        let f = fixed::strip_zeros(fixed::padded(frac, 8));
        lemma_padded_digits(frac, 8);
        lemma_stripped(fixed::padded(frac, 8));
        assert(b[s + di.len()] == 0x2e);
        if f.len() == 0 {
            lemma_all_zeros(fixed::padded(frac, 8));
            assert(pow(10, 8) == 100_000_000) by {
                digits::lemma_power_of_ten(8);
                text::lemma_pow10_values();
            }
        }
        assert(b.last() == f.last());
        if whole == 0 {
            assert(b[s + 1] == 0x2e);
        }
    }
}

proof fn lemma_padded_digits(n: nat, w: nat)
    ensures
        fixed::padded(n, w).len() == w,
        digits_only(fixed::padded(n, w)),
        text::digits_value(fixed::padded(n, w)) == n as int % pow(10, w),
    decreases w,
{
    reveal(pow);
    if w > 0 {
        lemma_padded_digits(n / 10, (w - 1) as nat);
        let s = fixed::padded(n, w);
        let p = pow(10, (w - 1) as nat);
        assert(s.drop_last() =~= fixed::padded(n / 10, (w - 1) as nat));
        digits::lemma_power_of_ten((w - 1) as nat);
        text::lemma_pow10_positive((w - 1) as nat);
        assert(pow(10, w) == 10 * p);
        vstd::arithmetic::div_mod::lemma_mod_breakdown(n as int, 10, p);
        assert forall|i: int| 0 <= i < s.len() implies 0x30 <= #[trigger] s[i] <= 0x39 by {
            if i < s.len() - 1 {
                assert(s[i] == s.drop_last()[i]);
            }
        }
    }
}

proof fn lemma_stripped(s: Seq<u8>)
    requires
        digits_only(s),
    ensures
        digits_only(fixed::strip_zeros(s)),
        fixed::strip_zeros(s).len() > 0 ==> fixed::strip_zeros(s).last() != 0x30,
    decreases s.len(),
{
    if s.len() > 0 && s.last() == 0x30 {
        lemma_stripped(s.drop_last());
    }
}

proof fn lemma_all_zeros(s: Seq<u8>)
    requires
        fixed::strip_zeros(s).len() == 0,
    ensures
        text::digits_value(s) == 0,
    decreases s.len(),
{
    if s.len() > 0 {
        lemma_all_zeros(s.drop_last());
    }
}

} // verus!
