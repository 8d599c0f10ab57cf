//! Calendar arithmetic for report timestamps, without a date crate.
use vstd::prelude::*;

use crate::text::{dec_padded, push_dec_padded, push_str};

verus! {

/// Gregorian leap year.
pub open spec fn is_leap(y: int) -> bool {
    (y % 4 == 0 && y % 100 != 0) || y % 400 == 0
}

/// Number of days in month `m` (1–12) of year `y`.
pub open spec fn days_in_month(y: int, m: int) -> int {
    if m == 2 {
        if is_leap(y) {
            29
        } else {
            28
        }
    } else if m == 4 || m == 6 || m == 9 || m == 11 {
        30
    } else {
        31
    }
}

/// `(y, m, d)` names a real day of the proleptic Gregorian calendar.
pub open spec fn valid_date(y: int, m: int, d: int) -> bool {
    1 <= m <= 12 && 1 <= d <= days_in_month(y, m)
}

/// Number of leap years in `[1, y)` (counting backwards for earlier years).
pub open spec fn leaps_before(y: int) -> int {
    (y - 1) / 4 - (y - 1) / 100 + (y - 1) / 400
}

/// Days in the months of year `y` before month `m`.
pub open spec fn days_before_month(y: int, m: int) -> int {
    let base: int = if m <= 1 {
        0
    } else if m == 2 {
        31
    } else if m == 3 {
        59
    } else if m == 4 {
        90
    } else if m == 5 {
        120
    } else if m == 6 {
        151
    } else if m == 7 {
        181
    } else if m == 8 {
        212
    } else if m == 9 {
        243
    } else if m == 10 {
        273
    } else if m == 11 {
        304
    } else {
        334
    };
    base + if m > 2 && is_leap(y) {
        1int
    } else {
        0int
    }
}

/// Days from 1970-01-01 to `(y, m, d)`: negative before the epoch.
pub open spec fn epoch_day(y: int, m: int, d: int) -> int {
    365 * (y - 1970) + leaps_before(y) - leaps_before(1970) + days_before_month(y, m) + d - 1
}

/// Leap-year count shifted to stay non-negative for years of an era (0..=400).
pub open spec fn era_leaps(k: int) -> int {
    (k + 399) / 4 - (k + 399) / 100 + (k + 399) / 400
}

/// Length in days of month `m` when month `mp` counts from March (0) to February (11).
pub open spec fn march_month_len(mp: int) -> int {
    if mp == 11 {
        28
    } else if mp == 1 || mp == 3 || mp == 6 || mp == 8 {
        30
    } else {
        31
    }
}

/// Howard Hinnant's year-of-era step: the year found for a day of the era
/// starts on or before that day, and the day number within it is in range.
proof fn lemma_year_of_era(doe: u32, n1: u32, yoe: u32, doy: u32)
    requires
        doe < 146097,
        n1 == doe - doe / 1460 + doe / 36524 - doe / 146096,
        yoe == n1 / 365,
        doy == doe - (365 * yoe + yoe / 4 - yoe / 100),
    ensures
        yoe < 400,
        doy <= 365,
        doy == 365 ==> is_leap(yoe + 1),
{
    let y1: u32 = (yoe + 1) as u32;
    assert(yoe < 400 && doy <= 365 && (doy == 365 ==> ((y1 % 4 == 0 && y1 % 100 != 0) || y1 % 400
        == 0))) by (bit_vector)
        requires
            y1 == yoe + 1,
            doe < 146097,
            n1 == doe - doe / 1460 + doe / 36524 - doe / 146096,
            yoe == n1 / 365,
            doy == doe - (365 * yoe + yoe / 4 - yoe / 100),
    ;
}

/// The month split of a day counted from March 1.
proof fn lemma_month_of_year(doy: u32, t1: u32, mp: u32, u1: u32, d: u32)
    requires
        doy <= 365,
        t1 == 5 * doy + 2,
        mp == t1 / 153,
        u1 == 153 * mp + 2,
        d == doy - u1 / 5 + 1,
    ensures
        mp <= 11,
        1 <= d <= march_month_len(mp as int) || (mp == 11 && d == 29 && doy == 365),
        u1 / 5 == if mp < 10 {
            days_before_month(1, mp + 3) - 59
        } else {
            days_before_month(1, mp - 9) + 306
        },
{
    let mlen: u32 = march_month_len(mp as int) as u32;
    assert(mp <= 11 && 1 <= d && (d <= mlen || (mp == 11 && d == 29 && doy == 365)))
        by (bit_vector)
        requires
            doy <= 365,
            t1 == 5 * doy + 2,
            mp == t1 / 153,
            u1 == 153 * mp + 2,
            d == doy - u1 / 5 + 1,
            mp == 11 ==> mlen == 28,
            (mp == 1 || mp == 3 || mp == 6 || mp == 8) ==> mlen == 30,
            (mp == 0 || mp == 2 || mp == 4 || mp == 5 || mp == 7 || mp == 9 || mp == 10) ==> mlen
                == 31,
    ;
    let c: u32 = u1 / 5;
    assert(mp == 0 ==> c == 0);
    assert(mp == 1 ==> c == 31);
    assert(mp == 2 ==> c == 61);
    assert(mp == 3 ==> c == 92);
    assert(mp == 4 ==> c == 122);
    assert(mp == 5 ==> c == 153);
    assert(mp == 6 ==> c == 184);
    assert(mp == 7 ==> c == 214);
    assert(mp == 8 ==> c == 245);
    assert(mp == 9 ==> c == 275);
    assert(mp == 10 ==> c == 306);
    assert(mp == 11 ==> c == 337);
}

/// Leap years counted from the start of an era.
proof fn lemma_era_leap_count(yoe: u32, k0: u32, k1: u32)
    requires
        yoe < 400,
        k0 == yoe + 399,
        k1 == yoe + 400,
    ensures
        k0 / 4 - k0 / 100 + k0 / 400 + (if is_leap(yoe as int) {
            1int
        } else {
            0int
        }) == yoe / 4 - yoe / 100 + 97,
        k1 / 4 - k1 / 100 + k1 / 400 == yoe / 4 - yoe / 100 + 97,
{
    let lp: u32 = if is_leap(yoe as int) {
        1
    } else {
        0
    };
    assert(k0 / 4 - k0 / 100 + k0 / 400 + lp == yoe / 4 - yoe / 100 + 97 && k1 / 4 - k1 / 100 + k1
        / 400 == yoe / 4 - yoe / 100 + 97) by (bit_vector)
        requires
            yoe < 400,
            k0 == yoe + 399,
            k1 == yoe + 400,
            ((yoe % 4 == 0 && yoe % 100 != 0) || yoe % 400 == 0) ==> lp == 1,
            !((yoe % 4 == 0 && yoe % 100 != 0) || yoe % 400 == 0) ==> lp == 0,
    ;
}

/// `leaps_before` for a year of era `era` (years `400 * era ..= 400 * era + 400`).
proof fn lemma_leaps_shift(era: int, k: int)
    requires
        0 <= k <= 400,
    ensures
        leaps_before(400 * era + k) == 97 * era + era_leaps(k) - 97,
        is_leap(400 * era + k) == is_leap(k),
{
    let x = k - 1;
    vstd::arithmetic::div_mod::lemma_hoist_over_denominator(x, 100 * era, 4);
    vstd::arithmetic::div_mod::lemma_hoist_over_denominator(x, 4 * era, 100);
    vstd::arithmetic::div_mod::lemma_hoist_over_denominator(x, era, 400);
    vstd::arithmetic::div_mod::lemma_hoist_over_denominator(x, 100, 4);
    vstd::arithmetic::div_mod::lemma_hoist_over_denominator(x, 4, 100);
    vstd::arithmetic::div_mod::lemma_hoist_over_denominator(x, 1, 400);
    assert(x + 100 * era * 4 == 400 * era + k - 1);
    assert(x + 4 * era * 100 == 400 * era + k - 1);
    vstd::arithmetic::div_mod::lemma_mod_multiples_vanish(100 * era, k, 4);
    vstd::arithmetic::div_mod::lemma_mod_multiples_vanish(4 * era, k, 100);
    vstd::arithmetic::div_mod::lemma_mod_multiples_vanish(era, k, 400);
    assert(4 * (100 * era) + k == 400 * era + k);
    assert(100 * (4 * era) + k == 400 * era + k);
}

/// Putting the era, the year of the era and the day of the year back together.
proof fn lemma_civil_assemble(
    days: int,
    era: int,
    doe: int,
    yoe: int,
    doy: int,
    mp: int,
    d: int,
    m: int,
    year: int,
)
    requires
        days + 719_468 == era * 146_097 + doe,
        0 <= doe < 146_097,
        0 <= yoe < 400,
        doy == doe - (365 * yoe + yoe / 4 - yoe / 100),
        0 <= doy <= 365,
        doy == 365 ==> is_leap(yoe + 1),
        0 <= mp <= 11,
        1 <= d <= march_month_len(mp) || (mp == 11 && d == 29 && doy == 365),
        (153 * mp + 2) / 5 == if mp < 10 {
            days_before_month(1, mp + 3) - 59
        } else {
            days_before_month(1, mp - 9) + 306
        },
        d == doy - (153 * mp + 2) / 5 + 1,
        mp < 10 ==> m == mp + 3,
        mp >= 10 ==> m == mp - 9,
        year == yoe + era * 400 + (if m <= 2 {
            1int
        } else {
            0int
        }),
    ensures
        valid_date(year, m, d),
        epoch_day(year, m, d) == days,
{
    let yy: int = if m <= 2 {
        yoe + 1
    } else {
        yoe
    };
    assert(year == 400 * era + yy);
    lemma_leaps_shift(era, yy);
    lemma_era_leap_count(yoe as u32, (yoe + 399) as u32, (yoe + 400) as u32);
    assert(leaps_before(1970) == 477);
    assert(is_leap(year) == is_leap(yy));
    if m > 2 {
        assert(days_before_month(year, m) == days_before_month(1, m) + if is_leap(yoe) {
            1int
        } else {
            0int
        });
    } else {
        assert(days_before_month(year, m) == days_before_month(1, m));
    }
}

/// Floor division of `z` by the days of a 400-year era, with the remainder.
fn era_split(z: i64) -> (r: (i64, i64))
    ensures
        z == r.0 * 146_097 + r.1,
        0 <= r.1 < 146_097,
        z >= 0 ==> r.0 >= 0,
        r.0 * 146_097 <= z,
{
    if z >= 0 {
        let era = z / 146_097;
        proof {
            vstd::arithmetic::div_mod::lemma_fundamental_div_mod(z as int, 146_097);
        }
        let doe = z % 146_097;
        (era, doe)
    } else {
        let w: i64 = -(z + 1);
        let q = w / 146_097;
        let r = w % 146_097;
        proof {
            vstd::arithmetic::div_mod::lemma_fundamental_div_mod(w as int, 146_097);
        }
        (-q - 1, 146_096 - r)
    }
}

/// The year of the era, day of that year, and month and day of a day of an era.
fn era_date(doe: u32) -> (r: (u32, u32, u32, u32, u32))
    requires
        doe < 146_097,
    ensures
        ({
            let (yoe, doy, mp, d, m) = r;
            &&& 0 <= yoe < 400
            &&& doy == doe - (365 * yoe + yoe / 4 - yoe / 100)
            &&& 0 <= doy <= 365
            &&& doy == 365 ==> is_leap(yoe + 1)
            &&& 0 <= mp <= 11
            &&& 1 <= d <= march_month_len(mp as int) || (mp == 11 && d == 29 && doy == 365)
            &&& (153 * mp + 2) / 5 == if mp < 10 {
                days_before_month(1, mp + 3) - 59
            } else {
                days_before_month(1, mp - 9) + 306
            }
            &&& d == doy - (153 * mp + 2) / 5 + 1
            &&& mp < 10 ==> m == mp + 3
            &&& mp >= 10 ==> m == mp - 9
        }),
{
    let n1: u32 = doe - doe / 1460 + doe / 36_524 - doe / 146_096;
    let yoe: u32 = n1 / 365;
    proof {
        let doy0 = (doe - (365 * yoe + yoe / 4 - yoe / 100)) as u32;
        lemma_year_of_era(doe, n1, yoe, doy0);
    }
    let doy: u32 = doe - (365 * yoe + yoe / 4 - yoe / 100);
    let t1: u32 = 5 * doy + 2;
    let mp: u32 = t1 / 153;
    proof {
        let d0 = (doy - (153 * mp + 2) / 5 + 1) as u32;
        lemma_month_of_year(doy, t1, mp, (153 * mp + 2) as u32, d0);
    }
    let u1: u32 = 153 * mp + 2;
    let d: u32 = doy - u1 / 5 + 1;
    let m: u32 = if mp < 10 {
        mp + 3
    } else {
        mp - 9
    };
    (yoe, doy, mp, d, m)
}

/// Howard Hinnant's `civil_from_days`: days since the Unix epoch → `(y, m, d)`.
///
/// The date returned is a real calendar day, and counting the days from
/// 1970-01-01 to it gives back `days`.
pub fn civil_from_days(days: i64) -> (r: (i64, u32, u32))
    requires
        days <= i64::MAX - 719_468,
    ensures
        valid_date(r.0 as int, r.1 as int, r.2 as int),
        epoch_day(r.0 as int, r.1 as int, r.2 as int) == days,
        days >= -719_468 ==> r.0 >= 0,
{
    let z = days + 719_468;
    let (era, doe) = era_split(z);
    let (yoe, doy, mp, d, m) = era_date(doe as u32);
    assert(era <= z / 146_097 + 1 && era >= z / 146_097 - 1) by {
        vstd::arithmetic::div_mod::lemma_fundamental_div_mod(z as int, 146_097);
    }
    let y: i64 = yoe as i64 + era * 400;
    let year: i64 = if m <= 2 {
        y + 1
    } else {
        y
    };
    proof {
        lemma_civil_assemble(
            days as int,
            era as int,
            doe as int,
            yoe as int,
            doy as int,
            mp as int,
            d as int,
            m as int,
            year as int,
        );
    }
    (year, m, d)
}

/// Days in year `y`.
pub open spec fn year_len(y: int) -> int {
    if is_leap(y) {
        366
    } else {
        365
    }
}

/// One more year adds one more leap year exactly when that year is leap.
proof fn lemma_leaps_step(y: int)
    ensures
        leaps_before(y + 1) == leaps_before(y) + if is_leap(y) {
            1int
        } else {
            0int
        },
{
    assert(y / 4 - (y - 1) / 4 == if y % 4 == 0 { 1int } else { 0int });
    assert(y / 100 - (y - 1) / 100 == if y % 100 == 0 { 1int } else { 0int });
    assert(y / 400 - (y - 1) / 400 == if y % 400 == 0 { 1int } else { 0int });
}

/// A year starts one year length after the previous one.
proof fn lemma_year_start_step(y: int)
    ensures
        epoch_day(y + 1, 1, 1) == epoch_day(y, 1, 1) + year_len(y),
{
    lemma_leaps_step(y);
}

/// Every later year starts after the whole of year `y1`.
proof fn lemma_year_start_order(y1: int, y2: int)
    requires
        y1 < y2,
    ensures
        epoch_day(y1, 1, 1) + year_len(y1) <= epoch_day(y2, 1, 1),
    decreases y2 - y1,
{
    lemma_year_start_step(y1);
    if y1 + 1 < y2 {
        lemma_year_start_order(y1 + 1, y2);
        lemma_year_start_step(y1 + 1);
    }
}

/// A real day lies within its year.
proof fn lemma_day_within_year(y: int, m: int, d: int)
    requires
        valid_date(y, m, d),
    ensures
        epoch_day(y, 1, 1) <= epoch_day(y, m, d) < epoch_day(y, 1, 1) + year_len(y),
{
}

/// A real day of an earlier month comes before every day of a later one.
proof fn lemma_month_order(y: int, m1: int, d1: int, m2: int, d2: int)
    requires
        valid_date(y, m1, d1),
        valid_date(y, m2, d2),
        m1 < m2,
    ensures
        epoch_day(y, m1, d1) < epoch_day(y, m2, d2),
{
}

/// Law: distinct calendar days have distinct day numbers, so the date
/// `civil_from_days` (and the one `format_utc` prints) is the only real day
/// with that day number.
pub proof fn law_epoch_day_injective(y1: int, m1: int, d1: int, y2: int, m2: int, d2: int)
    requires
        valid_date(y1, m1, d1),
        valid_date(y2, m2, d2),
        epoch_day(y1, m1, d1) == epoch_day(y2, m2, d2),
    ensures
        y1 == y2 && m1 == m2 && d1 == d2,
{
    lemma_day_within_year(y1, m1, d1);
    lemma_day_within_year(y2, m2, d2);
    if y1 < y2 {
        lemma_year_start_order(y1, y2);
    } else if y2 < y1 {
        lemma_year_start_order(y2, y1);
    } else if m1 < m2 {
        lemma_month_order(y1, m1, d1, m2, d2);
    } else if m2 < m1 {
        lemma_month_order(y1, m2, d2, m1, d1);
    }
}

/// The parts of `secs` seconds since the epoch, as the timestamp shows them.
pub open spec fn utc_text(y: int, mo: int, d: int, secs: int) -> Seq<char> {
    let tod = secs % 86_400;
    dec_padded(y as nat, 4) + "-"@ + dec_padded(mo as nat, 2) + "-"@ + dec_padded(d as nat, 2)
        + " "@ + dec_padded((tod / 3600) as nat, 2) + ":"@ + dec_padded(((tod % 3600) / 60) as nat, 2)
        + ":"@ + dec_padded((tod % 60) as nat, 2) + " UTC"@
}

/// `secs` seconds after the Unix epoch as `YYYY-MM-DD HH:MM:SS UTC`.
pub fn format_utc(secs: u64) -> (s: String)
    ensures
        exists|y: int, mo: int, d: int|
            valid_date(y, mo, d) && epoch_day(y, mo, d) == secs / 86_400 && y >= 0 && s@
                == utc_text(y, mo, d, secs as int),
{
    let days = (secs / 86_400) as i64;
    let tod = secs % 86_400;
    let (year, month, day) = civil_from_days(days);
    let mut s = String::new();
    push_dec_padded(&mut s, year as u64, 4);
    push_str(&mut s, "-");
    push_dec_padded(&mut s, month as u64, 2);
    push_str(&mut s, "-");
    push_dec_padded(&mut s, day as u64, 2);
    push_str(&mut s, " ");
    push_dec_padded(&mut s, tod / 3600, 2);
    push_str(&mut s, ":");
    push_dec_padded(&mut s, (tod % 3600) / 60, 2);
    push_str(&mut s, ":");
    push_dec_padded(&mut s, tod % 60, 2);
    push_str(&mut s, " UTC");
    assert(s@ =~= utc_text(year as int, month as int, day as int, secs as int));
    s
}

} // verus!