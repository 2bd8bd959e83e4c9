//! Laws of reading payloads: tokens, integers and timestamps.
use crate::laws::digits;
use crate::scan;
use crate::text;
use vstd::arithmetic::power::*;
use vstd::prelude::*;

verus! {

/// The whitespace of JSON, and the bytes of a number token.
pub proof fn lemma_byte_classes(c: u8)
    ensures
        scan::is_ws(c) <==> seq![0x20u8, 0x09u8, 0x0au8, 0x0du8].contains(c),
        text::is_digit(c) <==> 0x30 <= c <= 0x39,
        scan::is_num(c) <==> 0x30 <= c <= 0x39 || seq![
            0x2du8,
            0x2bu8,
            0x2eu8,
            0x65u8,
            0x45u8,
        ].contains(c),
{
    let w = seq![0x20u8, 0x09u8, 0x0au8, 0x0du8];
    assert(w[0] == 0x20 && w[1] == 0x09 && w[2] == 0x0a && w[3] == 0x0d);
    let n = seq![0x2du8, 0x2bu8, 0x2eu8, 0x65u8, 0x45u8];
    assert(n[0] == 0x2d && n[1] == 0x2b && n[2] == 0x2e && n[3] == 0x65 && n[4] == 0x45);
}

/// Whitespace is skipped as far as it reaches and no further.
pub proof fn lemma_skip_whitespace(b: Seq<u8>, i: int)
    requires
        0 <= i <= b.len(),
    ensures
        ({
            let e = scan::ws_end(b, i);
            &&& i <= e <= b.len()
            &&& forall|k: int| i <= k < e ==> scan::is_ws(#[trigger] b[k])
            &&& e < b.len() ==> !scan::is_ws(b[e])
        }),
    decreases b.len() - i,
{
    if i < b.len() && scan::is_ws(b[i]) {
        lemma_skip_whitespace(b, i + 1);
    }
}

/// A number token is the longest run of the bytes of numbers, and there is
/// none where it would be empty.
pub proof fn lemma_number_token(b: Seq<u8>, i: int)
    requires
        0 <= i <= b.len(),
    ensures
        ({
            let e = scan::num_end(b, i);
            &&& i <= e <= b.len()
            &&& forall|k: int| i <= k < e ==> scan::is_num(#[trigger] b[k])
            &&& e < b.len() ==> !scan::is_num(b[e])
            &&& (scan::num_at(b, i) is Some <==> i < b.len() && scan::is_num(b[i]))
            &&& scan::num_at(b, i) matches Some(x) ==> x.0 == b.subrange(i, x.1) && x.1 == e
        }),
    decreases b.len() - i,
{
    if i < b.len() && scan::is_num(b[i]) {
        lemma_number_token(b, i + 1);
    }
}

/// A string token is what stands between a quote at `i` and the next quote,
/// as long as no backslash stands there: for an inner text without quotes and
/// backslashes it is found, whatever follows it.
pub proof fn lemma_string_token(before: Seq<u8>, inner: Seq<u8>, after: Seq<u8>)
    requires
        !inner.contains(0x22),
        !inner.contains(0x5c),
    ensures
        scan::str_at(before + seq![0x22u8] + inner + seq![0x22u8] + after, before.len() as int)
            == Some((inner, before.len() as int + inner.len() + 2)),
{
    let b = before + seq![0x22u8] + inner + seq![0x22u8] + after;
    let i = before.len() as int;
    let n = inner.len() as int;
    assert(b[i] == 0x22);
    let rest = b.skip(i + 1);
    assert(rest =~= inner + seq![0x22u8] + after);
    let q = seq![0x22u8];
    assert(rest.subrange(n, n + 1) =~= q);
    assert(scan::occurs_at(rest, q, n));
    assert forall|j: int| 0 <= j < n implies !#[trigger] scan::occurs_at(rest, q, j) by {
        assert(rest.subrange(j, j + 1)[0] == inner[j]);
        assert(inner.contains(inner[j]));
    }
    scan::lemma_find_is(rest, q, n);
    assert(b.subrange(i + 1, i + 1 + n) =~= inner);
}

/// What a string token holds has neither a quote nor a backslash in it, and a
/// quote on either side.
pub proof fn lemma_string_token_only(b: Seq<u8>, i: int)
    ensures
        scan::str_at(b, i) matches Some((inner, e)) ==> {
            &&& 0 <= i && i + 2 <= e <= b.len()
            &&& b[i] == 0x22 && b[e - 1] == 0x22
            &&& inner == b.subrange(i + 1, e - 1)
            &&& !inner.contains(0x22) && !inner.contains(0x5c)
        },
{
    if let Some((inner, e)) = scan::str_at(b, i) {
        let rest = b.skip(i + 1);
        let q = seq![0x22u8];
        scan::lemma_find(rest, q);
        let n = scan::find(rest, q)->0;
        assert(rest.subrange(n, n + 1)[0] == 0x22);
        if inner.contains(0x22) {
            let j = choose|j: int| 0 <= j < inner.len() && inner[j] == 0x22;
            assert(rest.subrange(j, j + 1) =~= q);
            assert(scan::occurs_at(rest, q, j));
        }
    }
}

/// A search finds the first place at which the needle stands, and finds none
/// only where it stands nowhere.
pub proof fn lemma_search(h: Seq<u8>, n: Seq<u8>)
    ensures
        match scan::find(h, n) {
            Some(i) => {
                &&& 0 <= i && i + n.len() <= h.len()
                &&& h.subrange(i, i + n.len()) == n
                &&& forall|j: int|
                    0 <= j < i ==> #[trigger] h.subrange(j, j + n.len()) != n
            },
            None => forall|j: int|
                0 <= j && j + n.len() <= h.len() ==> #[trigger] h.subrange(j, j + n.len()) != n,
        },
{
    scan::lemma_find(h, n);
    match scan::find(h, n) {
        Some(i) => {
            assert forall|j: int| 0 <= j < i implies #[trigger] h.subrange(j, j + n.len()) != n by {
                assert(!scan::occurs_at(h, n, j));
            }
        },
        None => {
            assert forall|j: int| 0 <= j && j + n.len() <= h.len() implies #[trigger] h.subrange(
                j,
                j + n.len(),
            ) != n by {
                assert(!scan::occurs_at(h, n, j));
            }
        },
    }
}

/// An integer is read whole, up to the first byte that is no digit, exactly
/// where it fits 64 bits.
pub proof fn lemma_integer(before: Seq<u8>, d: Seq<u8>, after: Seq<u8>)
    requires
        d.len() > 0,
        forall|i: int| 0 <= i < d.len() ==> 0x30 <= #[trigger] d[i] <= 0x39,
        after.len() > 0 ==> !(0x30 <= after[0] <= 0x39),
    ensures
        ({
            let r = scan::u64_at(before + d + after, before.len() as int);
            &&& text::digits_value(d) <= u64::MAX ==> r == (
                Some(text::digits_value(d) as u64),
                before.len() as int + d.len(),
            )
            &&& text::digits_value(d) > u64::MAX ==> r.0 is None
        }),
{
    let b = before + d + after;
    assert(b[before.len() as int] == d[0]);
    lemma_integer_from(before, d, after, 0);
    assert(d.take(0) =~= Seq::<u8>::empty());
}

proof fn lemma_integer_from(before: Seq<u8>, d: Seq<u8>, after: Seq<u8>, k: int)
    requires
        0 <= k <= d.len(),
        forall|i: int| 0 <= i < d.len() ==> 0x30 <= #[trigger] d[i] <= 0x39,
        after.len() > 0 ==> !(0x30 <= after[0] <= 0x39),
        text::digits_value(d.take(k)) <= u64::MAX,
    ensures
        ({
            let r = scan::u64_scan(
                before + d + after,
                before.len() as int + k,
                text::digits_value(d.take(k)),
            );
            &&& text::digits_value(d) <= u64::MAX ==> r == (
                Some(text::digits_value(d) as u64),
                before.len() as int + d.len(),
            )
            &&& text::digits_value(d) > u64::MAX ==> r.0 is None
        }),
    decreases d.len() - k,
{
    let b = before + d + after;
    let j = before.len() as int + k;
    if k < d.len() {
        assert(b[j] == d[k]);
        assert(d.take(k + 1).drop_last() =~= d.take(k));
        assert(d.take(k + 1).last() == d[k]);
        text::lemma_digits_value_prefix(d, k + 1);
        if text::digits_value(d.take(k + 1)) <= u64::MAX {
            lemma_integer_from(before, d, after, k + 1);
        }
    } else {
        assert(d.take(k) =~= d);
        if after.len() > 0 {
            assert(b[j] == after[0]);
        }
    }
}

/// The calendar: how long a year and its months are.
pub proof fn lemma_calendar(y: int)
    ensures
        scan::is_leap(y) <==> y % 4 == 0 && !(y % 100 == 0 && y % 400 != 0),
        scan::month_days(y, 1) == 31,
        scan::month_days(y, 2) == (if scan::is_leap(y) {
            29int
        } else {
            28
        }),
        scan::month_days(y, 3) == 31,
        scan::month_days(y, 4) == 30,
        scan::month_days(y, 5) == 31,
        scan::month_days(y, 6) == 30,
        scan::month_days(y, 7) == 31,
        scan::month_days(y, 8) == 31,
        scan::month_days(y, 9) == 30,
        scan::month_days(y, 10) == 31,
        scan::month_days(y, 11) == 30,
        scan::month_days(y, 12) == 31,
        scan::days_before_month(y, 1) == 0,
        scan::days_before_month(y, 12) + 31 == (if scan::is_leap(y) {
            366int
        } else {
            365
        }),
{
    reveal_with_fuel(scan::days_before_month, 13);
}

/// The days before a month, by the table.
pub proof fn lemma_days_before_month(y: int, m: int)
    requires
        1 <= m <= 12,
    ensures
        scan::days_before_month(y, m) == seq![0int, 31, 59, 90, 120, 151, 181, 212, 243, 273, 304, 334][m
            - 1] + (if m > 2 && scan::is_leap(y) {
            1int
        } else {
            0
        }),
{
    reveal_with_fuel(scan::days_before_month, 13);
}

/// A quotient grows by one exactly where the number becomes a multiple.
proof fn lemma_quotient_step(x: int, n: int)
    requires
        n > 1,
        x > 0,
    ensures
        x / n == (x - 1) / n + (if x % n == 0 {
            1int
        } else {
            0
        }),
{
    let q = x / n;
    let r = x % n;
    vstd::arithmetic::div_mod::lemma_fundamental_div_mod(x, n);
    vstd::arithmetic::div_mod::lemma_mod_bound(x, n);
    if r == 0 {
        assert(x - 1 == (q - 1) * n + (n - 1)) by (nonlinear_arith)
            requires
                x == n * q + r,
                r == 0,
        ;
        vstd::arithmetic::div_mod::lemma_fundamental_div_mod_converse(x - 1, n, q - 1, n - 1);
    } else {
        assert(x - 1 == q * n + (r - 1)) by (nonlinear_arith)
            requires
                x == n * q + r,
        ;
        vstd::arithmetic::div_mod::lemma_fundamental_div_mod_converse(x - 1, n, q, r - 1);
    }
}

/// A leap year counts one: every fourth does, less every hundredth, and every
/// four-hundredth again.
proof fn lemma_leap_count(x: int)
    ensures
        x % 100 == 0 ==> x % 4 == 0,
        x % 400 == 0 ==> x % 100 == 0,
{
}

/// The days before a year: 365 for each year since 1970 and one more for each
/// leap year among them, which is every fourth, but not every hundredth, but
/// every four-hundredth.
pub proof fn lemma_days_before_year(y: int)
    requires
        y >= 1970,
    ensures
        scan::days_before_year(y) == 365 * (y - 1970) + (y - 1) / 4 - (y - 1) / 100 + (y - 1) / 400
            - 477,
    decreases y,
{
    if y > 1970 {
        let x = y - 1;
        lemma_days_before_year(x);
        lemma_quotient_step(x, 4);
        lemma_quotient_step(x, 100);
        lemma_quotient_step(x, 400);
        lemma_leap_count(x);
    }
}

/// The two digits of `b` at `i` are `n`.
pub open spec fn shows_two(b: Seq<u8>, i: int, n: int) -> bool {
    &&& 0x30 <= b[i] <= 0x39 && 0x30 <= b[i + 1] <= 0x39
    &&& n == 10 * (b[i] - 0x30) + (b[i + 1] - 0x30)
}

/// The text `b` shows a moment: `YYYY-MM-DDTHH:MM:SS`, perhaps a point and
/// one to nine digits `f`, and `Z`, and the date is one of the calendar.
pub open spec fn shows(
    b: Seq<u8>,
    y: int,
    mo: int,
    d: int,
    h: int,
    mi: int,
    s: int,
    f: Seq<u8>,
) -> bool {
    &&& b.len() == (if f.len() == 0 {
        20int
    } else {
        21 + f.len() as int
    })
    &&& f.len() <= 9
    &&& forall|i: int| 0 <= i < f.len() ==> 0x30 <= #[trigger] f[i] <= 0x39
    &&& exists|c: int, u: int| y == 100 * c + u && shows_two(b, 0, c) && shows_two(b, 2, u)
    &&& b[4] == 0x2d && shows_two(b, 5, mo) && b[7] == 0x2d && shows_two(b, 8, d)
    &&& b[10] == 0x54 || b[10] == 0x74
    &&& shows_two(b, 11, h) && b[13] == 0x3a && shows_two(b, 14, mi) && b[16] == 0x3a && shows_two(
        b,
        17,
        s,
    )
    &&& f.len() > 0 ==> b[19] == 0x2e && b.subrange(20, 20 + f.len() as int) == f
    &&& b.last() == 0x5a || b.last() == 0x7a
    &&& y >= 1970 && 1 <= mo <= 12 && 1 <= d <= scan::month_days(y, mo)
    &&& h <= 23 && mi <= 59 && s <= 59
}

/// A moment that `b` shows comes to its nanoseconds since the epoch, where 64
/// bits hold them: its days, hours, minutes and seconds, and its fraction as
/// if padded with zeros to nine digits.
pub proof fn lemma_moment(
    b: Seq<u8>,
    y: int,
    mo: int,
    d: int,
    h: int,
    mi: int,
    s: int,
    f: Seq<u8>,
)
    requires
        shows(b, y, mo, d, h, mi, s, f),
    ensures
        ({
            let leap = y % 4 == 0 && (y % 100 != 0 || y % 400 == 0);
            let days = 365 * (y - 1970) + (y - 1) / 4 - (y - 1) / 100 + (y - 1) / 400 - 477 + seq![
                0int,
                31,
                59,
                90,
                120,
                151,
                181,
                212,
                243,
                273,
                304,
                334,
            ][mo - 1] + (if mo > 2 && leap {
                1int
            } else {
                0
            }) + d - 1;
            let ns = (((days * 24 + h) * 60 + mi) * 60 + s) * 1_000_000_000 + text::digits_value(f)
                * pow(10, (9 - f.len()) as nat);
            &&& ns <= u64::MAX ==> scan::rfc3339_spec(b) == Some(ns as u64)
            &&& ns > u64::MAX ==> scan::rfc3339_spec(b) is None
        }),
{
    let (c, u) = choose|c: int, u: int|
        y == 100 * c + u && shows_two(b, 0, c) && shows_two(b, 2, u);
    assert(scan::rfc3339_year(b) == y);
    assert(scan::two(b, 5) == mo && scan::two(b, 8) == d);
    assert(scan::two(b, 11) == h && scan::two(b, 14) == mi && scan::two(b, 17) == s);
    assert(scan::digits_between(b, 0, 4));
    assert(scan::digits_between(b, 5, 7));
    assert(scan::digits_between(b, 8, 10));
    assert(scan::digits_between(b, 11, 13));
    assert(scan::digits_between(b, 14, 16));
    assert(scan::digits_between(b, 17, 19));
    lemma_days_before_year(y);
    lemma_days_before_month(y, mo);
    digits::lemma_power_of_ten((9 - f.len()) as nat);
    if f.len() > 0 {
        let e = 20 + f.len() as int;
        assert forall|k: int| 20 <= k < e implies text::is_digit(#[trigger] b[k]) by {
            assert(b[k] == f[k - 20]);
        }
        text::lemma_digit_end_is(b, 20, e);
        assert(scan::rfc3339_end(b) == e);
        assert(b.subrange(20, e) =~= f);
    } else {
        assert(b[19] == 0x5a || b[19] == 0x7a);
        assert(text::digits_value(f) == 0);
        assert(0 * pow(10, 9) == 0) by (nonlinear_arith);
    }
    assert(scan::rfc3339_ok(b));
}

/// What is read as a moment shows one.
pub proof fn lemma_only_moments(b: Seq<u8>)
    requires
        scan::rfc3339_spec(b) is Some,
    ensures
        exists|y: int, mo: int, d: int, h: int, mi: int, s: int, f: Seq<u8>|
            shows(b, y, mo, d, h, mi, s, f),
{
    let e = scan::rfc3339_end(b);
    let f = if scan::byte_at(b, 19, 0x2e) {
        b.subrange(20, e)
    } else {
        Seq::<u8>::empty()
    };
    if scan::byte_at(b, 19, 0x2e) {
        text::lemma_digit_end_bounds(b, 20);
        assert forall|i: int| 0 <= i < f.len() implies 0x30 <= #[trigger] f[i] <= 0x39 by {
            assert(text::is_digit(b[20 + i]));
        }
    }
    let y = scan::rfc3339_year(b);
    assert(text::is_digit(b[0]) && text::is_digit(b[1]) && text::is_digit(b[2]) && text::is_digit(
        b[3],
    ));
    assert(text::is_digit(b[5]) && text::is_digit(b[6]) && text::is_digit(b[8]) && text::is_digit(
        b[9],
    ));
    assert(text::is_digit(b[11]) && text::is_digit(b[12]) && text::is_digit(b[14])
        && text::is_digit(b[15]));
    assert(text::is_digit(b[17]) && text::is_digit(b[18]));
    let c = scan::two(b, 0);
    let u = scan::two(b, 2);
    assert(y == 100 * c + u && shows_two(b, 0, c) && shows_two(b, 2, u));
    assert(shows(
        b,
        y,
        scan::two(b, 5),
        scan::two(b, 8),
        scan::two(b, 11),
        scan::two(b, 14),
        scan::two(b, 17),
        f,
    ));
}

} // verus!
