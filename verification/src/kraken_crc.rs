//! Kraken v2 book checksum (CRC32) - the venue-provided correctness oracle
//! for the book engine.
//!
//! Kraken's documented algorithm (spot WS v2 book channel): take the top 10
//! ask levels (ascending by price), then the top 10 bid levels (descending
//! by price). For each level, format the price to the pair's price-precision
//! decimal places, remove the decimal point, strip leading zeros, and append
//! the digits; then do the same for the quantity at the pair's
//! quantity-precision. The checksum is CRC32 (IEEE) over the concatenated
//! ASCII digits.
use crate::crc;
use crate::text;
use vstd::prelude::*;

verus! {

/// The value of a mantissa at `dec` decimals, truncated; nothing negative is
/// left of it.
pub open spec fn scaled_value(m: i64, dec: u32) -> nat {
    let div = text::pow10(
        if dec < 8 {
            (8 - dec) as nat
        } else {
            0
        },
    );
    if m <= 0 {
        0
    } else {
        m as nat / div
    }
}

/// The digits of a mantissa at `dec` decimals, without the decimal point and
/// without leading zeros: none at all for zero.
pub open spec fn scaled_digits(m: i64, dec: u32) -> Seq<u8> {
    if scaled_value(m, dec) == 0 {
        Seq::empty()
    } else {
        text::dec_bytes(scaled_value(m, dec))
    }
}

/// The digits of the first `n` levels, price and quantity by turns.
pub open spec fn level_digits(
    levels: Seq<(i64, i64)>,
    n: int,
    price_dec: u32,
    qty_dec: u32,
) -> Seq<u8>
    decreases n,
{
    if n <= 0 {
        Seq::empty()
    } else {
        level_digits(levels, n - 1, price_dec, qty_dec) + scaled_digits(
            levels[n - 1].0,
            price_dec,
        ) + scaled_digits(levels[n - 1].1, qty_dec)
    }
}

/// How many of the levels count.
pub open spec fn counted(levels: Seq<(i64, i64)>) -> int {
    if levels.len() < 10 {
        levels.len() as int
    } else {
        10
    }
}

/// The digits that the checksum covers.
pub open spec fn book_digits(
    asks: Seq<(i64, i64)>,
    bids: Seq<(i64, i64)>,
    price_dec: u32,
    qty_dec: u32,
) -> Seq<u8> {
    level_digits(asks, counted(asks), price_dec, qty_dec) + level_digits(
        bids,
        counted(bids),
        price_dec,
        qty_dec,
    )
}

/// The power of ten `10^e`.
fn power_of_ten(e: u32) -> (r: u64)
    requires
        e <= 8,
    ensures
        r == text::pow10(e as nat),
{
    let mut r: u64 = 1;
    let mut i: u32 = 0;
    proof {
        text::lemma_pow10_values();
    }
    while i < e
        invariant
            i <= e <= 8,
            r == text::pow10(i as nat),
        decreases e - i,
    {
        proof {
            text::lemma_pow10_values();
            text::lemma_pow10_monotone(i as nat, 8);
        }
        r = r * 10;
        i += 1;
    }
    r
}

/// Append the ASCII digits of a 1e-8 mantissa formatted at `dec` decimal
/// places with the decimal point removed and leading zeros stripped.
///
/// Stripping every leading zero means a zero value contributes no bytes at
/// all - exactly what Kraken's algorithm produces for `0.00000000`.
///
/// A mantissa that is not representable at `dec` decimals (not divisible by
/// `10^(8-dec)`) is a contract violation: the caller fed a price/qty finer
/// than the pair's precision. It is truncated, which keeps the function total
/// but will produce a checksum mismatch downstream - the desired failure mode
/// for corrupt input.
fn update_scaled(out: &mut Vec<u8>, m: i64, dec: u32)
    ensures
        final(out)@ == old(out)@ + scaled_digits(m, dec),
{
    let e: u32 = if dec < 8 {
        8 - dec
    } else {
        0
    };
    proof {
        text::lemma_pow10_positive(e as nat);
    }
    let div: u64 = power_of_ten(e);
    let v: u64 = if m <= 0 {
        0
    } else {
        m as u64 / div
    };
    if v > 0 {
        text::push_dec_bytes(out, v as u128);
    }
    assert(out@ =~= old(out)@ + scaled_digits(m, dec));
}

/// Append the digits of the top levels.
fn update_levels(out: &mut Vec<u8>, levels: &[(i64, i64)], price_dec: u32, qty_dec: u32)
    ensures
        final(out)@ == old(out)@ + level_digits(
            levels@,
            counted(levels@),
            price_dec,
            qty_dec,
        ),
{
    let mut i: usize = 0;
    assert(out@ =~= old(out)@ + level_digits(levels@, 0, price_dec, qty_dec));
    while i < levels.len() && i < 10
        invariant
            i <= counted(levels@),
            out@ == old(out)@ + level_digits(levels@, i as int, price_dec, qty_dec),
        decreases levels@.len() - i,
    {
        let l: (i64, i64) = levels[i];
        update_scaled(out, l.0, price_dec);
        update_scaled(out, l.1, qty_dec);
        i += 1;
        assert(out@ =~= old(out)@ + level_digits(levels@, i as int, price_dec, qty_dec));
    }
}

/// Compute Kraken's v2 book checksum over the top-10 levels of each side.
///
/// `asks` must be the best (lowest-price-first) ask levels and `bids` the
/// best (highest-price-first) bid levels; entries beyond the first 10 per
/// side are ignored, matching the venue (the checksum always covers only the
/// top 10 regardless of subscription depth). `(price, qty)` are exact i64
/// mantissas at the global 1e-8 scale. `price_dec` / `qty_dec` are the
/// pair's venue precisions (see [`crate::kraken::pairs::pair_decimals`]).
#[must_use]
pub fn kraken_book_crc32(
    asks: &[(i64, i64)],
    bids: &[(i64, i64)],
    price_dec: u32,
    qty_dec: u32,
) -> (r: u32)
    ensures
        r == crc::crc32_of(book_digits(asks@, bids@, price_dec, qty_dec)),
{
    let digits: Vec<u8> = checksum_digits(asks, bids, price_dec, qty_dec);
    crc::crc32(digits.as_slice())
}

/// The ASCII digits that the checksum of a book covers.
pub fn checksum_digits(
    asks: &[(i64, i64)],
    bids: &[(i64, i64)],
    price_dec: u32,
    qty_dec: u32,
) -> (r: Vec<u8>)
    ensures
        r@ == book_digits(asks@, bids@, price_dec, qty_dec),
{
    let mut out: Vec<u8> = Vec::new();
    update_levels(&mut out, asks, price_dec, qty_dec);
    update_levels(&mut out, bids, price_dec, qty_dec);
    assert(out@ =~= book_digits(asks@, bids@, price_dec, qty_dec));
    out
}

/// The checksum of a book without levels is zero.
pub proof fn lemma_empty_book(price_dec: u32, qty_dec: u32)
    ensures
        crc::crc32_of(book_digits(Seq::empty(), Seq::empty(), price_dec, qty_dec)) == 0,
{
    let none = Seq::<(i64, i64)>::empty();
    assert(book_digits(none, none, price_dec, qty_dec) =~= Seq::<u8>::empty());
    crc::lemma_crc_of_nothing();
}

/// Only the top 10 levels of each side count.
pub proof fn lemma_only_top_ten(
    asks: Seq<(i64, i64)>,
    bids: Seq<(i64, i64)>,
    price_dec: u32,
    qty_dec: u32,
)
    ensures
        book_digits(asks, bids, price_dec, qty_dec) == book_digits(
            asks.take(counted(asks)),
            bids.take(counted(bids)),
            price_dec,
            qty_dec,
        ),
{
    lemma_digits_of_prefix(asks, counted(asks), counted(asks), price_dec, qty_dec);
    lemma_digits_of_prefix(bids, counted(bids), counted(bids), price_dec, qty_dec);
}

proof fn lemma_digits_of_prefix(
    levels: Seq<(i64, i64)>,
    n: int,
    k: int,
    price_dec: u32,
    qty_dec: u32,
)
    requires
        0 <= n <= k <= levels.len(),
    ensures
        level_digits(levels, n, price_dec, qty_dec) == level_digits(
            levels.take(k),
            n,
            price_dec,
            qty_dec,
        ),
    decreases n,
{
    if n > 0 {
        lemma_digits_of_prefix(levels, n - 1, k, price_dec, qty_dec);
    }
}

} // verus!
