//! Laws of decimal digits and of the digits that Kraken's checksum covers.
use crate::kraken_crc;
use crate::text;
use vstd::arithmetic::power::*;
use vstd::prelude::*;

verus! {

/// A power of ten is a product of tens.
pub proof fn lemma_power_of_ten(e: nat)
    ensures
        text::pow10(e) == pow(10, e),
    decreases e,
{
    reveal(pow);
    if e > 0 {
        lemma_power_of_ten((e - 1) as nat);
    }
}

/// A run of digits denotes the sum of its digits, each times ten to the
/// number of digits behind it: one digit in front of a run adds that much.
pub proof fn lemma_digit_in_front(c: u8, s: Seq<u8>)
    requires
        0x30 <= c <= 0x39,
        forall|i: int| 0 <= i < s.len() ==> 0x30 <= #[trigger] s[i] <= 0x39,
    ensures
        text::digits_value(Seq::empty()) == 0,
        text::digits_value(seq![c]) == c - 0x30,
        text::digits_value(seq![c] + s) == (c - 0x30) * pow(10, s.len()) + text::digits_value(s),
        text::digits_value(s) < pow(10, s.len()),
{
    assert(seq![c].drop_last() =~= Seq::<u8>::empty());
    assert(text::digits_value(Seq::<u8>::empty()) == 0);
    text::lemma_digits_value_concat(seq![c], s);
    text::lemma_digits_value_bound(s);
    lemma_power_of_ten(s.len());
}

/// The decimal form of a number consists of digits, denotes the number, and
/// starts with a zero for zero alone.
pub proof fn lemma_decimal_form(n: nat)
    ensures
        text::dec_bytes(n).len() >= 1,
        forall|i: int|
            0 <= i < text::dec_bytes(n).len() ==> 0x30 <= #[trigger] text::dec_bytes(n)[i] <= 0x39,
        text::digits_value(text::dec_bytes(n)) == n,
        text::dec_bytes(n)[0] == 0x30 <==> n == 0,
    decreases n,
{
    if n < 10 {
        let c = (0x30 + n) as u8;
        assert(text::dec_bytes(n) =~= seq![c]);
        lemma_digit_in_front(c, Seq::empty());
    } else {
        lemma_decimal_form(n / 10);
        let c = (0x30 + n % 10) as u8;
        let d = text::dec_bytes(n);
        assert(d.drop_last() =~= text::dec_bytes(n / 10));
        assert(d.last() == c);
        assert(d[0] == text::dec_bytes(n / 10)[0]);
    }
}

/// The digits of a positive mantissa `m` at `dec` decimals denote `m` divided
/// by `10^(8 - dec)` and rounded down, for every mantissa; they are digits,
/// and the first is no zero. There are none exactly where that number is 0.
pub proof fn lemma_scaled_digits_floor(m: i64, dec: u32)
    requires
        m > 0,
        dec <= 8,
    ensures
        ({
            let s = kraken_crc::scaled_digits(m, dec);
            let d = text::digits_value(s) as int;
            let p = pow(10, (8 - dec) as nat);
            &&& d * p <= m < (d + 1) * p
            &&& forall|i: int| 0 <= i < s.len() ==> 0x30 <= #[trigger] s[i] <= 0x39
            &&& s.len() > 0 ==> s[0] != 0x30
            &&& (s.len() == 0 <==> m < p)
        }),
{
    let e = (8 - dec) as nat;
    let p = text::pow10(e) as int;
    let v = kraken_crc::scaled_value(m, dec) as int;
    lemma_power_of_ten(e);
    text::lemma_pow10_positive(e);
    vstd::arithmetic::div_mod::lemma_fundamental_div_mod(m as int, p);
    vstd::arithmetic::div_mod::lemma_mod_bound(m as int, p);
    assert(v == m as int / p);
    assert(v * p <= m < (v + 1) * p) by (nonlinear_arith)
        requires
            m == p * (m as int / p) + m as int % p,
            v == m as int / p,
            0 <= m as int % p < p,
    ;
    assert(v == 0 <==> m < p) by (nonlinear_arith)
        requires
            v * p <= m < (v + 1) * p,
            m > 0,
            p > 0,
    ;
    assert(v >= 0);
    lemma_decimal_form(v as nat);
    if v == 0 {
        assert(kraken_crc::scaled_digits(m, dec) =~= Seq::<u8>::empty());
        assert(text::digits_value(Seq::<u8>::empty()) == 0);
    }
}

/// More than eight decimals count as eight, and nothing that is not positive
/// has digits.
pub proof fn lemma_scaled_digits_ends(m: i64, dec: u32)
    ensures
        dec >= 8 ==> kraken_crc::scaled_digits(m, dec) == kraken_crc::scaled_digits(m, 8),
        m <= 0 ==> kraken_crc::scaled_digits(m, dec).len() == 0,
{
}

/// Two mantissas have the same digits exactly where they are the same number
/// at that many decimals.
pub proof fn lemma_scaled_digits_tell_apart(m: i64, k: i64, dec: u32)
    requires
        m > 0,
        k > 0,
        dec <= 8,
    ensures
        kraken_crc::scaled_digits(m, dec) == kraken_crc::scaled_digits(k, dec) <==> m as int / pow(
            10,
            (8 - dec) as nat,
        ) == k as int / pow(10, (8 - dec) as nat),
{
    let e = (8 - dec) as nat;
    lemma_power_of_ten(e);
    text::lemma_pow10_positive(e);
    lemma_decimal_form(kraken_crc::scaled_value(m, dec));
    lemma_decimal_form(kraken_crc::scaled_value(k, dec));
}

/// The digits of one level: its price, then its quantity.
pub open spec fn level(l: (i64, i64), price_dec: u32, qty_dec: u32) -> Seq<u8> {
    kraken_crc::scaled_digits(l.0, price_dec) + kraken_crc::scaled_digits(l.1, qty_dec)
}

/// The digits that the checksum covers are those of the asks in order, then
/// those of the bids in order, the first ten of each: one ask in front of the
/// others comes first, one bid in front of the others comes behind the asks.
pub proof fn lemma_checksum_order(
    l: (i64, i64),
    asks: Seq<(i64, i64)>,
    bids: Seq<(i64, i64)>,
    price_dec: u32,
    qty_dec: u32,
)
    ensures
        kraken_crc::book_digits(asks, bids, price_dec, qty_dec) == kraken_crc::book_digits(
            asks,
            Seq::empty(),
            price_dec,
            qty_dec,
        ) + kraken_crc::book_digits(Seq::empty(), bids, price_dec, qty_dec),
        asks.len() < 10 ==> kraken_crc::book_digits(seq![l] + asks, bids, price_dec, qty_dec)
            == level(l, price_dec, qty_dec) + kraken_crc::book_digits(
            asks,
            bids,
            price_dec,
            qty_dec,
        ),
        bids.len() < 10 ==> kraken_crc::book_digits(
            Seq::empty(),
            seq![l] + bids,
            price_dec,
            qty_dec,
        ) == level(l, price_dec, qty_dec) + kraken_crc::book_digits(
            Seq::empty(),
            bids,
            price_dec,
            qty_dec,
        ),
{
    let none = Seq::<(i64, i64)>::empty();
    let nothing = Seq::<u8>::empty();
    let ad = kraken_crc::level_digits(asks, kraken_crc::counted(asks), price_dec, qty_dec);
    let bd = kraken_crc::level_digits(bids, kraken_crc::counted(bids), price_dec, qty_dec);
    let nd = kraken_crc::level_digits(none, kraken_crc::counted(none), price_dec, qty_dec);
    assert(nd =~= nothing);
    assert(ad + bd =~= (ad + nothing) + (nothing + bd));
    lemma_level_in_front(l, asks, asks.len() as int, price_dec, qty_dec);
    lemma_level_in_front(l, bids, bids.len() as int, price_dec, qty_dec);
    if asks.len() < 10 {
        assert(kraken_crc::book_digits(seq![l] + asks, bids, price_dec, qty_dec) =~= level(
            l,
            price_dec,
            qty_dec,
        ) + kraken_crc::book_digits(asks, bids, price_dec, qty_dec));
    }
    if bids.len() < 10 {
        assert(kraken_crc::book_digits(none, seq![l] + bids, price_dec, qty_dec) =~= level(
            l,
            price_dec,
            qty_dec,
        ) + kraken_crc::book_digits(none, bids, price_dec, qty_dec));
    }
}

proof fn lemma_level_in_front(
    l: (i64, i64),
    levels: Seq<(i64, i64)>,
    n: int,
    price_dec: u32,
    qty_dec: u32,
)
    requires
        0 <= n <= levels.len(),
    ensures
        kraken_crc::level_digits(seq![l] + levels, n + 1, price_dec, qty_dec) == level(
            l,
            price_dec,
            qty_dec,
        ) + kraken_crc::level_digits(levels, n, price_dec, qty_dec),
    decreases n,
{
    let t = seq![l] + levels;
    if n == 0 {
        assert(t[0] == l);
        assert(kraken_crc::level_digits(t, 0, price_dec, qty_dec) =~= Seq::<u8>::empty());
        assert(kraken_crc::level_digits(t, 1, price_dec, qty_dec) =~= level(
            l,
            price_dec,
            qty_dec,
        ) + kraken_crc::level_digits(levels, 0, price_dec, qty_dec));
    } else {
        lemma_level_in_front(l, levels, n - 1, price_dec, qty_dec);
        assert(t[n] == levels[n - 1]);
        assert(kraken_crc::level_digits(t, n + 1, price_dec, qty_dec) =~= level(
            l,
            price_dec,
            qty_dec,
        ) + kraken_crc::level_digits(levels, n, price_dec, qty_dec));
    }
}

/// What lies behind the tenth level of a side does not count, and what lies
/// before it does.
pub proof fn lemma_checksum_top_ten(
    levels: Seq<(i64, i64)>,
    more: Seq<(i64, i64)>,
    bids: Seq<(i64, i64)>,
    price_dec: u32,
    qty_dec: u32,
)
    requires
        levels.len() == 10,
    ensures
        kraken_crc::book_digits(levels + more, bids, price_dec, qty_dec) == kraken_crc::book_digits(
            levels,
            bids,
            price_dec,
            qty_dec,
        ),
        kraken_crc::book_digits(bids, levels + more, price_dec, qty_dec) == kraken_crc::book_digits(
            bids,
            levels,
            price_dec,
            qty_dec,
        ),
{
    kraken_crc::lemma_only_top_ten(levels + more, bids, price_dec, qty_dec);
    kraken_crc::lemma_only_top_ten(levels, bids, price_dec, qty_dec);
    kraken_crc::lemma_only_top_ten(bids, levels + more, price_dec, qty_dec);
    kraken_crc::lemma_only_top_ten(bids, levels, price_dec, qty_dec);
    assert((levels + more).take(10) =~= levels);
    assert(levels.take(10) =~= levels);
}

} // verus!
