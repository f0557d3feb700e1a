//! Dates of the Gregorian calendar, counted in days from 1970-01-01.

use crate::number::{decimal, decimal_of};
use crate::text::{pad_left, pad_left_of};
use vstd::prelude::*;

verus! {

/// Whether `y` is a leap year.
pub open spec fn leap(y: int) -> bool {
    (y % 4 == 0 && y % 100 != 0) || y % 400 == 0
}

/// The number of days of the year `y`.
pub open spec fn year_len(y: int) -> int {
    if leap(y) {
        366
    } else {
        365
    }
}

/// The number of days of the month `m` of the year `y`.
pub open spec fn month_len(y: int, m: int) -> int {
    if m == 2 {
        if leap(y) {
            29
        } else {
            28
        }
    } else if m == 4 || m == 6 || m == 9 || m == 11 {
        30
    } else {
        31
    }
}

/// The days from 1970-01-01 to the first day of the year `y`.
pub open spec fn year_start(y: int) -> int
    decreases y,
{
    if y <= 1970 {
        0
    } else {
        year_start(y - 1) + year_len(y - 1)
    }
}

/// The days from the first day of the year `y` to the first day of its month `m`.
pub open spec fn month_start(y: int, m: int) -> int
    decreases m,
{
    if m <= 1 {
        0
    } else {
        month_start(y, m - 1) + month_len(y, m - 1)
    }
}

/// Whether there is a day `d` in the month `m` of the year `y`.
pub open spec fn is_date(y: int, m: int, d: int) -> bool {
    y >= 1970 && 1 <= m <= 12 && 1 <= d <= month_len(y, m)
}

/// The days from 1970-01-01 to a date.
pub open spec fn day_number(y: int, m: int, d: int) -> int {
    year_start(y) + month_start(y, m) + d - 1
}

/// The twelve months make up the year.
pub proof fn lemma_year_of_months(y: int)
    ensures
        month_start(y, 13) == year_len(y),
{
    reveal_with_fuel(month_start, 14);
}

/// Later years and months start later.
proof fn lemma_starts_grow(y: int, a: int, b: int)
    requires
        1 <= a <= b,
    ensures
        month_start(y, a) <= month_start(y, b),
        a < b ==> month_start(y, a) + month_len(y, a) <= month_start(y, b),
    decreases b - a,
{
    if a < b {
        lemma_starts_grow(y, a + 1, b);
    }
}

/// Later years start later.
proof fn lemma_years_grow(a: int, b: int)
    requires
        1970 <= a <= b,
    ensures
        year_start(a) <= year_start(b),
        a < b ==> year_start(a) + year_len(a) <= year_start(b),
    decreases b - a,
{
    if a < b {
        lemma_years_grow(a + 1, b);
    }
}

/// Whether `y` is a leap year.
fn is_leap(y: u64) -> (r: bool)
    ensures
        r == leap(y as int),
{
    (y % 4 == 0 && y % 100 != 0) || y % 400 == 0
}

/// The year, month and day of the date `days` days behind 1970-01-01.
pub fn days_to_ymd(days: u64) -> (r: (u64, u64, u64))
    ensures
        is_date(r.0 as int, r.1 as int, r.2 as int),
        day_number(r.0 as int, r.1 as int, r.2 as int) == days,
{
    let mut rest: u64 = days;
    let mut y: u64 = 1970;
    loop
        invariant
            1970 <= y,
            365 * (y - 1970) <= days - rest,
            rest <= days,
            year_start(y as int) + rest == days,
        ensures
            1970 <= y,
            year_start(y as int) + rest == days,
            rest < year_len(y as int),
        decreases rest,
    {
        let len: u64 = if is_leap(y) {
            366
        } else {
            365
        };
        if rest < len {
            break;
        }
        rest = rest - len;
        y = y + 1;
    }
    let leap_year = is_leap(y);
    let mut m: u64 = 1;
    let ghost before = rest;
    loop
        invariant
            1 <= m <= 12,
            leap_year == leap(y as int),
            month_start(y as int, m as int) + rest == before,
            before < year_len(y as int),
        ensures
            1 <= m <= 12,
            month_start(y as int, m as int) + rest == before,
            rest < month_len(y as int, m as int),
        decreases 12 - m,
    {
        let len: u64 = if m == 2 {
            if leap_year {
                29
            } else {
                28
            }
        } else if m == 4 || m == 6 || m == 9 || m == 11 {
            30
        } else {
            31
        };
        if rest < len {
            break;
        }
        proof {
            lemma_year_of_months(y as int);
            assert(month_start(y as int, m + 1) == month_start(y as int, m as int) + len);
            if m == 12 {
                assert(month_start(y as int, 13) == year_len(y as int));
            }
        }
        rest = rest - len;
        m = m + 1;
    }
    (y, m, rest + 1)
}

/// No two dates have the same number: the date of a number of days is unique,
/// and later dates have larger numbers.
pub proof fn law_dates_are_unique(y: int, m: int, d: int, y2: int, m2: int, d2: int)
    requires
        is_date(y, m, d),
        is_date(y2, m2, d2),
    ensures
        day_number(y, m, d) == day_number(y2, m2, d2) <==> y == y2 && m == m2 && d == d2,
        day_number(y, m, d) < day_number(y2, m2, d2) <==> y < y2 || (y == y2 && (m < m2 || (m == m2
            && d < d2))),
{
    lemma_year_of_months(y);
    lemma_year_of_months(y2);
    lemma_starts_grow(y, m, 13);
    lemma_starts_grow(y2, m2, 13);
    lemma_starts_grow(y, 1, m);
    lemma_starts_grow(y2, 1, m2);
    if y < y2 {
        lemma_years_grow(y, y2);
    } else if y2 < y {
        lemma_years_grow(y2, y);
    } else if m < m2 {
        lemma_starts_grow(y, m, m2);
    } else if m2 < m {
        lemma_starts_grow(y, m2, m);
    }
}

/// `n` in decimal, with zeros in front to at least `width` digits.
pub open spec fn zero_padded(n: nat, width: nat) -> Seq<char> {
    pad_left_of(decimal_of(n), width, '0')
}

/// The text of a date and a time of day, as in `2026-05-29T00:00:00Z`.
pub open spec fn stamp_of(y: nat, mo: nat, d: nat, h: nat, mi: nat, s: nat) -> Seq<char> {
    zero_padded(y, 4) + "-"@ + zero_padded(mo, 2) + "-"@ + zero_padded(d, 2) + "T"@ + zero_padded(
        h,
        2,
    ) + ":"@ + zero_padded(mi, 2) + ":"@ + zero_padded(s, 2) + "Z"@
}

/// `n` in decimal, with zeros in front to at least `width` digits.
pub fn zero_pad(n: u64, width: usize) -> (r: String)
    ensures
        r@ == zero_padded(n as nat, width as nat),
{
    pad_left(decimal(n).as_str(), width, '0')
}

/// Whether `text` is the UTC time `secs` seconds behind 1970-01-01T00:00:00Z.
pub open spec fn is_timestamp(secs: u64, text: Seq<char>) -> bool {
    exists|y: int, m: int, d: int|
        {
            &&& #[trigger] is_date(y, m, d)
            &&& day_number(y, m, d) == secs / 86400
            &&& text == stamp_of(
                y as nat,
                m as nat,
                d as nat,
                (secs % 86400 / 3600) as nat,
                (secs % 3600 / 60) as nat,
                (secs % 60) as nat,
            )
        }
}

/// The UTC time `secs` seconds behind 1970-01-01T00:00:00Z.
pub fn utc_timestamp(secs: u64) -> (r: String)
    ensures
        is_timestamp(secs, r@),
{
    let days: u64 = secs / 86_400;
    let rem: u64 = secs % 86_400;
    let h: u64 = rem / 3600;
    let rem2: u64 = rem % 3600;
    let mi: u64 = rem2 / 60;
    let s: u64 = rem2 % 60;
    assert(rem2 == secs % 3600) by (nonlinear_arith)
        requires
            rem == secs % 86400,
            rem2 == rem % 3600,
    ;
    assert(s == secs % 60) by (nonlinear_arith)
        requires
            rem2 == secs % 3600,
            s == rem2 % 60,
    ;
    let (y, mo, d) = days_to_ymd(days);
    assert(is_date(y as int, mo as int, d as int));
    let text = zero_pad(y, 4).concat("-").concat(zero_pad(mo, 2).as_str()).concat("-").concat(
        zero_pad(d, 2).as_str(),
    ).concat("T").concat(zero_pad(h, 2).as_str()).concat(":").concat(
        zero_pad(mi, 2).as_str(),
    ).concat(":").concat(zero_pad(s, 2).as_str()).concat("Z");
    assert(text@ == stamp_of(
        y as nat,
        mo as nat,
        d as nat,
        (secs % 86400 / 3600) as nat,
        (secs % 3600 / 60) as nat,
        (secs % 60) as nat,
    ));
    text
}

} // verus!
