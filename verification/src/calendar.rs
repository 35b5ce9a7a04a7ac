//! The proleptic Gregorian calendar, and timestamps in UTC.

use crate::text::{dec, decimal};
use vstd::prelude::*;

verus! {

pub open spec fn leap(y: int) -> bool {
    y % 4 == 0 && (y % 100 != 0 || y % 400 == 0)
}

pub open spec fn month_days(y: int, m: int) -> int {
    if m == 2 {
        if leap(y) {
            29
        } else {
            28
        }
    } else if m == 4 || m == 6 || m == 9 || m == 11 {
        30
    } else {
        31
    }
}

pub open spec fn valid_date(y: int, m: int, d: int) -> bool {
    1 <= m <= 12 && 1 <= d <= month_days(y, m)
}

/// Days of a year before a month of it.
pub open spec fn days_before_month(y: int, m: int) -> int
    decreases m,
{
    if m <= 1 {
        0
    } else {
        days_before_month(y, m - 1) + month_days(y, m - 1)
    }
}

/// Days from the first of January of the year 1 to that of another.
pub open spec fn days_before_year(y: int) -> int {
    365 * (y - 1) + (y - 1) / 4 - (y - 1) / 100 + (y - 1) / 400
}

/// Days from the first of January 1970 to a date.
pub open spec fn day_number(y: int, m: int, d: int) -> int {
    days_before_year(y) + days_before_month(y, m) + d - 1 - days_before_year(1970)
}

/// A year is as long as its months together: 365 days, or 366 in a leap year.
pub proof fn years_follow_each_other(y: int)
    ensures
        days_before_year(y + 1) == days_before_year(y) + (if leap(y) {
            366int
        } else {
            365int
        }),
        days_before_month(y, 13) == if leap(y) {
            366int
        } else {
            365int
        },
{
    quotients_step(y);
    months_by_table(y);
    assert(days_before_month(y, 13) == days_before_month(y, 12) + 31);
}

proof fn months_by_table(y: int)
    ensures
        days_before_month(y, 1) == 0,
        days_before_month(y, 2) == 31,
        forall|m: int|
            3 <= m <= 12 ==> #[trigger] days_before_month(y, m) == (153 * (m - 3) + 2) / 5 + 59 + (
            if leap(y) {
                1int
            } else {
                0int
            }),
{
    reveal_with_fuel(days_before_month, 14);
    let l: int = if leap(y) {
        1
    } else {
        0
    };
    assert(days_before_month(y, 3) == 59 + l);
    assert(days_before_month(y, 4) == 90 + l);
    assert(days_before_month(y, 5) == 120 + l);
    assert(days_before_month(y, 6) == 151 + l);
    assert(days_before_month(y, 7) == 181 + l);
    assert(days_before_month(y, 8) == 212 + l);
    assert(days_before_month(y, 9) == 243 + l);
    assert(days_before_month(y, 10) == 273 + l);
    assert(days_before_month(y, 11) == 304 + l);
    assert(days_before_month(y, 12) == 334 + l);
    assert forall|m: int| 3 <= m <= 12 implies #[trigger] days_before_month(y, m) == (153 * (m - 3)
        + 2) / 5 + 59 + l by {
        if m == 3 {
        } else if m == 4 {
        } else if m == 5 {
        } else if m == 6 {
        } else if m == 7 {
        } else if m == 8 {
        } else if m == 9 {
        } else if m == 10 {
        } else if m == 11 {
        }
    }
}

/// The year of the four-hundred-year era that a day of it falls in, counting from
/// March, and the day of that year.
proof fn year_of_era(doe: int, yoe: int)
    requires
        0 <= doe < 146_097,
        yoe == (doe - doe / 1460 + doe / 36_524 - doe / 146_096) / 365,
    ensures
        0 <= yoe < 400,
        0 <= doe - (365 * yoe + yoe / 4 - yoe / 100) <= 365,
        doe - (365 * yoe + yoe / 4 - yoe / 100) == 365 ==> leap(yoe + 1),
{
    let c: int = if doe / 36_524 == 4 {
        3
    } else {
        doe / 36_524
    };
    let a = doe - 36_524 * c;
    let q = a / 1461;
    let b = a - 1461 * q;
    let s: int = if b / 365 == 4 {
        3
    } else {
        b / 365
    };
    let r = b - 365 * s;
    assert(0 <= c <= 3 && 0 <= a <= 36_524 && (a == 36_524 ==> c == 3));
    assert(0 <= q <= 24 && 0 <= b <= 1460);
    assert(0 <= s <= 3 && 0 <= r <= 365 && (r == 365 ==> s == 3));
    assert(doe == 36_524 * c + 1461 * q + 365 * s + r);
    let k = 100 * c + 4 * q + s;
    assert(k / 4 == 25 * c + q);
    assert(k / 100 == c);
    assert(365 * k + k / 4 - k / 100 == 36_524 * c + 1461 * q + 365 * s);
    // The formula gives that year back.
    let e = (24 * c + q + 365 * s + r) / 1460;
    assert(doe == 1460 * (25 * c + q) + (24 * c + q + 365 * s + r));
    assert(doe / 1460 == 25 * c + q + e);
    assert(0 <= e <= 1);
    assert(e == 1 ==> r >= 1);
    assert(r == 365 ==> e == 1);
    let last: int = if doe == 146_096 {
        1
    } else {
        0
    };
    assert(doe / 36_524 == c + last);
    assert(doe / 146_096 == last);
    assert(doe - doe / 1460 + doe / 36_524 - doe / 146_096 == 365 * k + (r - e));
    assert(yoe == k);
    assert(r == 365 ==> (q == 24 ==> c == 3));
    assert(r == 365 ==> leap(k + 1));
}

proof fn march_starts(y: int, era: int, yoe: int)
    requires
        0 <= yoe < 400,
        y == yoe + era * 400,
    ensures
        days_before_year(y) + 59 + (if leap(y) {
            1int
        } else {
            0int
        }) == 146_097 * era + 365 * yoe + yoe / 4 - yoe / 100 - 306,
        leap(y + 1) == leap(yoe + 1),
{
    quotients_step(y);
    eras_repeat(yoe, era);
    eras_repeat(yoe + 1, era);
    assert(yoe / 400 == 0);
}

/// A year's quotients, from those of the year before it.
proof fn quotients_step(y: int)
    ensures
        y / 4 - (y - 1) / 4 == (if y % 4 == 0 {
            1int
        } else {
            0int
        }),
        y / 100 - (y - 1) / 100 == (if y % 100 == 0 {
            1int
        } else {
            0int
        }),
        y / 400 - (y - 1) / 400 == (if y % 400 == 0 {
            1int
        } else {
            0int
        }),
        y % 400 == 0 ==> y % 100 == 0,
        y % 100 == 0 ==> y % 4 == 0,
{
}

/// The calendar repeats every four hundred years.
proof fn eras_repeat(year: int, era: int)
    ensures
        (year + era * 400) / 4 == year / 4 + 100 * era,
        (year + era * 400) / 100 == year / 100 + 4 * era,
        (year + era * 400) / 400 == year / 400 + era,
        leap(year + era * 400) == leap(year),
{
    assert((year + era * 400) % 4 == year % 4);
    assert((year + era * 400) % 100 == year % 100);
    assert((year + era * 400) % 400 == year % 400);
}

/// The month and day of a day of a year that starts in March.
proof fn month_of_year(y: int, doy: int, mp: int, first: int)
    requires
        0 <= doy <= 365,
        doy == 365 ==> leap(y + 1),
        mp == (5 * doy + 2) / 153,
        first == (153 * mp + 2) / 5,
    ensures
        0 <= mp <= 11,
        0 <= first <= doy <= first + 30,
        mp < 10 ==> valid_date(y, mp + 3, doy - first + 1),
        mp >= 10 ==> valid_date(y + 1, mp - 9, doy - first + 1),
        mp < 10 ==> days_before_month(y, mp + 3) == first + 59 + (if leap(y) {
            1int
        } else {
            0int
        }),
        mp >= 10 ==> days_before_month(y + 1, mp - 9) == first - 306,
{
    months_by_table(y);
    months_by_table(y + 1);
    assert(0 <= mp <= 11);
    if mp == 0 {
    } else if mp == 1 {
    } else if mp == 2 {
    } else if mp == 3 {
    } else if mp == 4 {
    } else if mp == 5 {
    } else if mp == 6 {
    } else if mp == 7 {
    } else if mp == 8 {
    } else if mp == 9 {
    } else if mp == 10 {
        assert(days_before_month(y + 1, 1) == 0);
    } else {
        assert(days_before_month(y + 1, 2) == 31);
    }
}

/// The four-hundred-year era of a day, and the day of that era.
fn era_of(days: i64) -> (r: (i64, i64))
    requires
        days >= i64::MIN + 719_468,
    ensures
        days == r.0 * 146_097 + r.1,
        0 <= r.1 < 146_097,
{
    let era: i64 = if days >= 0 {
        days / 146_097
    } else {
        -1 - (-1 - days) / 146_097
    };
    assert(0 <= days - era * 146_097 < 146_097);
    (era, days - era * 146_097)
}

/// The year of an era that a day of it falls in, counting from March, and the day of
/// that year.
fn year_in_era(doe: i64) -> (r: (i64, i64))
    requires
        0 <= doe < 146_097,
    ensures
        0 <= r.0 < 400,
        doe == 365 * r.0 + r.0 / 4 - r.0 / 100 + r.1,
        0 <= r.1 <= 365,
        r.1 == 365 ==> leap(r.0 + 1),
{
    let yoe: i64 = (doe - doe / 1460 + doe / 36_524 - doe / 146_096) / 365;
    proof {
        year_of_era(doe as int, yoe as int);
    }
    (yoe, doe - (365 * yoe + yoe / 4 - yoe / 100))
}

/// The month, counting from March, of a day of a year that starts there, and how many
/// days came before that month.
fn month_in_year(doy: i64) -> (r: (i64, i64))
    requires
        0 <= doy <= 365,
    ensures
        r.0 == (5 * doy + 2) / 153,
        r.1 == (153 * r.0 + 2) / 5,
        0 <= r.0 <= 11,
        0 <= r.1 <= doy <= r.1 + 30,
{
    let mp: i64 = (5 * doy + 2) / 153;
    (mp, (153 * mp + 2) / 5)
}

proof fn day_number_of(days: int, era: int, yoe: int, doy: int, mp: int, first: int)
    requires
        0 <= yoe < 400,
        days == era * 146_097 + 365 * yoe + yoe / 4 - yoe / 100 + doy,
        0 <= doy <= 365,
        doy == 365 ==> leap(yoe + 1),
        mp == (5 * doy + 2) / 153,
        first == (153 * mp + 2) / 5,
    ensures
        ({
            let y = yoe + era * 400;
            let d = doy - first + 1;
            &&& mp < 10 ==> valid_date(y, mp + 3, d) && day_number(y, mp + 3, d) == days - 719_468
            &&& mp >= 10 ==> valid_date(y + 1, mp - 9, d) && day_number(y + 1, mp - 9, d) == days
                - 719_468
        }),
{
    let y = yoe + era * 400;
    march_starts(y, era, yoe);
    month_of_year(y, doy, mp, first);
    years_follow_each_other(y);
}

/// The date of a day, counted from the first of January 1970.
pub fn civil_from_days(z: i64) -> (r: (i64, u32, u32))
    requires
        z <= i64::MAX - 719_468,
    ensures
        valid_date(r.0 as int, r.1 as int, r.2 as int),
        day_number(r.0 as int, r.1 as int, r.2 as int) == z,
{
    let (era, doe) = era_of(z + 719_468);
    let (yoe, doy) = year_in_era(doe);
    let (mp, first) = month_in_year(doy);
    proof {
        day_number_of(
            z + 719_468,
            era as int,
            yoe as int,
            doy as int,
            mp as int,
            first as int,
        );
    }
    let y: i64 = yoe + era * 400;
    let d: u32 = (doy - first + 1) as u32;
    if mp < 10 {
        (y, (mp + 3) as u32, d)
    } else {
        (y + 1, (mp - 9) as u32, d)
    }
}

/// A number padded with zeros to a width.
pub open spec fn padded(s: Seq<char>, width: nat) -> Seq<char> {
    if s.len() < width {
        Seq::new((width - s.len()) as nat, |i: int| '0') + s
    } else {
        s
    }
}

pub fn pad(n: u64, width: usize) -> (r: String)
    ensures
        r@ == padded(dec(n as nat), width as nat),
{
    let s = decimal(n);
    let len = s.as_str().unicode_len();
    let mut out = String::new();
    let mut i: usize = len;
    while i < width
        invariant
            len <= i,
            i <= width || i == len,
            out@ == Seq::new((i - len) as nat, |j: int| '0'),
        decreases width - i,
    {
        out.push('0');
        i = i + 1;
        assert(out@ =~= Seq::new((i - len) as nat, |j: int| '0'));
    }
    out.append(s.as_str());
    assert(out@ =~= padded(dec(n as nat), width as nat));
    out
}

/// A moment in the ISO extended form.
pub open spec fn iso(y: nat, mo: nat, d: nat, h: nat, m: nat, s: nat) -> Seq<char> {
    padded(dec(y), 4) + "-"@ + padded(dec(mo), 2) + "-"@ + padded(dec(d), 2) + "T"@ + padded(
        dec(h),
        2,
    ) + ":"@ + padded(dec(m), 2) + ":"@ + padded(dec(s), 2) + "Z"@
}

/// A text is the ISO extended form of a moment, given in seconds since 1970.
pub open spec fn is_timestamp(t: Seq<char>, secs: nat) -> bool {
    exists|y: nat, mo: nat, d: nat| #[trigger] timestamp_on(t, secs, y, mo, d)
}

pub open spec fn timestamp_on(t: Seq<char>, secs: nat, y: nat, mo: nat, d: nat) -> bool {
    &&& valid_date(y as int, mo as int, d as int)
    &&& day_number(y as int, mo as int, d as int) == secs / 86_400
    &&& t == iso(y, mo, d, (secs % 86_400) / 3600, (secs % 3600) / 60, secs % 60)
}

/// A moment, in seconds since 1970, in the ISO extended form the schema and the
/// fingerprint file expect.
pub fn utc_timestamp(secs: u64) -> (r: String)
    ensures
        is_timestamp(r@, secs as nat),
{
    let days: u64 = secs / 86_400;
    let (y, mo, d) = civil_from_days(days as i64);
    proof {
        years_do_not_shrink(y as int, 1969);
        months_fit(y as int, mo as int);
        assert(y >= 1970);
    }
    let mut t = pad(y as u64, 4);
    t.append("-");
    t.append(pad(mo as u64, 2).as_str());
    t.append("-");
    t.append(pad(d as u64, 2).as_str());
    t.append("T");
    t.append(pad((secs % 86_400) / 3600, 2).as_str());
    t.append(":");
    t.append(pad((secs % 3600) / 60, 2).as_str());
    t.append(":");
    t.append(pad(secs % 60, 2).as_str());
    t.append("Z");
    assert(timestamp_on(t@, secs as nat, y as nat, mo as nat, d as nat));
    t
}

/// A moment in a compact form that can stand in a branch's name.
pub open spec fn compact(y: nat, mo: nat, d: nat, h: nat, m: nat, s: nat) -> Seq<char> {
    padded(dec(y), 4) + padded(dec(mo), 2) + padded(dec(d), 2) + "-"@ + padded(dec(h), 2) + padded(
        dec(m),
        2,
    ) + padded(dec(s), 2)
}

pub open spec fn compact_on(t: Seq<char>, secs: nat, y: nat, mo: nat, d: nat) -> bool {
    &&& valid_date(y as int, mo as int, d as int)
    &&& day_number(y as int, mo as int, d as int) == secs / 86_400
    &&& t == compact(y, mo, d, (secs % 86_400) / 3600, (secs % 3600) / 60, secs % 60)
}

/// A moment, in seconds since 1970, as `YYYYMMDD-HHMMSS`.
pub fn chrono_like_timestamp(secs: u64) -> (r: String)
    ensures
        exists|y: nat, mo: nat, d: nat| #[trigger] compact_on(r@, secs as nat, y, mo, d),
{
    let days: u64 = secs / 86_400;
    let (y, mo, d) = civil_from_days(days as i64);
    proof {
        years_do_not_shrink(y as int, 1969);
        months_fit(y as int, mo as int);
        assert(y >= 1970);
    }
    let mut t = pad(y as u64, 4);
    t.append(pad(mo as u64, 2).as_str());
    t.append(pad(d as u64, 2).as_str());
    t.append("-");
    t.append(pad((secs % 86_400) / 3600, 2).as_str());
    t.append(pad((secs % 3600) / 60, 2).as_str());
    t.append(pad(secs % 60, 2).as_str());
    assert(compact_on(t@, secs as nat, y as nat, mo as nat, d as nat));
    t
}

/// A later year starts later.
pub proof fn years_do_not_shrink(a: int, b: int)
    ensures
        a <= b ==> days_before_year(a) <= days_before_year(b),
        a < b ==> days_before_year(a) + 365 <= days_before_year(b),
    decreases b - a,
{
    if a < b {
        years_do_not_shrink(a, b - 1);
        years_follow_each_other(b - 1);
    }
}

/// Every month lies within its year.
pub proof fn months_fit(y: int, m: int)
    requires
        1 <= m <= 12,
    ensures
        0 <= days_before_month(y, m),
        days_before_month(y, m) + month_days(y, m) <= days_before_year(y + 1) - days_before_year(y),
{
    months_by_table(y);
    years_follow_each_other(y);
}

/// A later day has a later date.
pub proof fn later_days_have_later_dates(y: int, m: int, d: int, y2: int, m2: int, d2: int)
    requires
        valid_date(y, m, d),
        valid_date(y2, m2, d2),
        day_number(y, m, d) < day_number(y2, m2, d2),
    ensures
        y < y2 || (y == y2 && (m < m2 || (m == m2 && d < d2))),
{
    months_fit(y, m);
    months_fit(y2, m2);
    years_do_not_shrink(y2 + 1, y);
    if y == y2 && m > m2 {
        months_by_table(y);
    }
}

/// A day has one date.
pub proof fn one_day_one_date(y: int, m: int, d: int, y2: int, m2: int, d2: int)
    requires
        valid_date(y, m, d),
        valid_date(y2, m2, d2),
        day_number(y, m, d) == day_number(y2, m2, d2),
    ensures
        y == y2 && m == m2 && d == d2,
{
    months_fit(y, m);
    months_fit(y2, m2);
    years_do_not_shrink(y2 + 1, y);
    years_do_not_shrink(y + 1, y2);
    if y == y2 && m != m2 {
        months_by_table(y);
    }
}

} // verus!
