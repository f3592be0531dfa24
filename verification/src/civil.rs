//! The calendar date of a day number in constant time, by counting in
//! 400-year eras of years that begin on the first of March.
use vstd::prelude::*;
use crate::dates::{leap, month_days, days_before_year, days_before_month, valid_date, day_number, day_number_injective};

verus! {

/// Days from 1970-01-01 to the first of January of `y`, in closed form.
pub open spec fn days_before_year_closed(y: int) -> int {
    365 * (y - 1970) + (y - 1) / 4 - (y - 1) / 100 + (y - 1) / 400 - 477
}

proof fn lemma_days_before_year_closed(y: int)
    requires
        y >= 1970,
    ensures
        days_before_year(y) == days_before_year_closed(y),
    decreases y - 1970,
{
    if y > 1970 {
        lemma_days_before_year_closed(y - 1);
        assert(leap(y - 1) <==> (y - 1) / 4 - (y - 2) / 4 - ((y - 1) / 100 - (y - 2) / 100) + (y - 1) / 400 - (y - 2)
            / 400 == 1);
    }
}

/// Days from the first of January to the first of month `m`, in closed form.
pub open spec fn days_before_month_closed(y: int, m: int) -> int {
    let base: int = if m == 1 {
        0
    } else if m == 2 {
        31
    } else if m == 3 {
        59
    } else if m == 4 {
        90
    } else if m == 5 {
        120
    } else if m == 6 {
        151
    } else if m == 7 {
        181
    } else if m == 8 {
        212
    } else if m == 9 {
        243
    } else if m == 10 {
        273
    } else if m == 11 {
        304
    } else {
        334
    };
    base + if m > 2 && leap(y) { 1int } else { 0int }
}

proof fn lemma_days_before_month_closed(y: int, m: int)
    requires
        1 <= m <= 12,
    ensures
        days_before_month(y, m) == days_before_month_closed(y, m),
{
    reveal_with_fuel(days_before_month, 13);
}

/// The year of an era (0..=399) that day `doe` of the era (0..=146096) falls in,
/// years beginning on the first of March, with the day's place in that year.
proof fn lemma_year_of_era(doe: int)
    requires
        0 <= doe <= 146096,
    ensures
        ({
            let yoe = (doe - doe / 1460 + doe / 36524 - doe / 146096) / 365;
            let doy = doe - (365 * yoe + yoe / 4 - yoe / 100);
            &&& 0 <= yoe <= 399
            &&& 0 <= doy <= 365
            &&& doy == 365 ==> (yoe + 1) % 4 == 0 && ((yoe + 1) % 100 != 0 || yoe == 399)
        }),
{
    let q4 = doe / 1460;
    let q100 = doe / 36524;
    let q400 = doe / 146096;
    let yoe = (doe - q4 + q100 - q400) / 365;
    assert(0 <= yoe <= 399);
    let doy = doe - (365 * yoe + yoe / 4 - yoe / 100);
    assert(0 <= doy <= 365);
    assert(doy == 365 ==> (yoe + 1) % 4 == 0 && ((yoe + 1) % 100 != 0 || yoe == 399));
}

/// The month (0 = March, ..., 11 = February) that day `doy` of a year
/// beginning on the first of March falls in, where the month starts, and how
/// long it is.
proof fn lemma_month_of_year(doy: int)
    requires
        0 <= doy <= 365,
    ensures
        ({
            let mp = (5 * doy + 2) / 153;
            let start = (153 * mp + 2) / 5;
            &&& 0 <= mp <= 11
            &&& start <= doy
            &&& mp < 10 ==> start + 59 == days_before_month_closed(1, mp + 3)
            &&& mp < 10 ==> doy - start < month_days(1, mp + 3)
            &&& mp == 10 ==> start == 306 && doy - start < 31
            &&& mp == 11 ==> start == 337 && doy - start <= 28
        }),
{
    let mp = (5 * doy + 2) / 153;
    assert(0 <= mp <= 11);
    let start = (153 * mp + 2) / 5;
    if mp == 0 {
        assert(start == 0);
    } else if mp == 1 {
        assert(start == 31);
    } else if mp == 2 {
        assert(start == 61);
    } else if mp == 3 {
        assert(start == 92);
    } else if mp == 4 {
        assert(start == 122);
    } else if mp == 5 {
        assert(start == 153);
    } else if mp == 6 {
        assert(start == 184);
    } else if mp == 7 {
        assert(start == 214);
    } else if mp == 8 {
        assert(start == 245);
    } else if mp == 9 {
        assert(start == 275);
    } else if mp == 10 {
        assert(start == 306);
    } else {
        assert(start == 337);
    }
}

/// Counting days from the first of March of year 0, the first of March of
/// year `400 * era + yoe` is day `146097 * era + 365 * yoe + yoe / 4 - yoe / 100`.
proof fn lemma_march_count(era: int, yoe: int)
    requires
        era >= 0,
        0 <= yoe <= 399,
    ensures
        ({
            let yy = 400 * era + yoe;
            365 * yy + yy / 4 - yy / 100 + yy / 400 == 146097 * era + 365 * yoe + yoe / 4 - yoe / 100
        }),
{
    let yy = 400 * era + yoe;
    assert(yy / 4 == 100 * era + yoe / 4);
    assert(yy / 100 == 4 * era + yoe / 100);
    assert(yy / 400 == era);
}

/// The day `doy` (0..=305) of the March-based year `yy` lies in March to
/// December of `yy`.
proof fn lemma_date_in_spring_to_winter(yy: int, doy: int, days: int)
    requires
        days >= 0,
        0 <= doy <= 365,
        (5 * doy + 2) / 153 < 10,
        365 * yy + yy / 4 - yy / 100 + yy / 400 + doy == days + 719468,
    ensures
        ({
            let mp = (5 * doy + 2) / 153;
            let d = doy - (153 * mp + 2) / 5 + 1;
            valid_date(yy, mp + 3, d) && day_number(yy, mp + 3, d) == days
        }),
{
    lemma_month_of_year(doy);
    let mp = (5 * doy + 2) / 153;
    let m = mp + 3;
    if yy <= 1969 {
        assert(365 * yy + yy / 4 - yy / 100 + yy / 400 <= 365 * 1969 + 477);
        assert(false);
    }
    lemma_days_before_year_closed(yy);
    lemma_days_before_month_closed(yy, m);
    assert(days_before_month_closed(yy, m) == days_before_month_closed(1, m) + if leap(yy) { 1int } else { 0int });
    assert(leap(yy) <==> yy / 4 - (yy - 1) / 4 - (yy / 100 - (yy - 1) / 100) + yy / 400 - (yy - 1) / 400 == 1);
}

/// The day `doy` (306..=365) of the March-based year `yy` lies in January or
/// February of the next year.
proof fn lemma_date_in_new_year(yy: int, doy: int, days: int)
    requires
        days >= 0,
        0 <= doy <= 365,
        doy == 365 ==> leap(yy + 1),
        (5 * doy + 2) / 153 >= 10,
        365 * yy + yy / 4 - yy / 100 + yy / 400 + doy == days + 719468,
    ensures
        ({
            let mp = (5 * doy + 2) / 153;
            let d = doy - (153 * mp + 2) / 5 + 1;
            valid_date(yy + 1, mp - 9, d) && day_number(yy + 1, mp - 9, d) == days
        }),
{
    lemma_month_of_year(doy);
    let mp = (5 * doy + 2) / 153;
    if yy <= 1968 {
        assert(365 * yy + yy / 4 - yy / 100 + yy / 400 <= 365 * 1968 + 477);
        assert(false);
    }
    lemma_days_before_year_closed(yy + 1);
    lemma_days_before_month_closed(yy + 1, mp - 9);
}

/// The year after year `yoe` of an era is a leap year when the era's count
/// says so.
proof fn lemma_next_year_leap(era: int, yoe: int)
    requires
        era >= 0,
        0 <= yoe <= 399,
        (yoe + 1) % 4 == 0 && ((yoe + 1) % 100 != 0 || yoe == 399),
    ensures
        leap(400 * era + yoe + 1),
{
    let yy = 400 * era + yoe;
    assert((yy + 1) % 4 == (yoe + 1) % 4);
    assert((yy + 1) % 100 == (yoe + 1) % 100);
    assert(yoe == 399 ==> (yy + 1) % 400 == 0);
}

/// The calendar date (year, month, day) that lies `days` days after
/// 1970-01-01, computed in constant time.
pub fn days_to_ymd(days: u64) -> (r: (u64, u64, u64))
    requires
        days <= u64::MAX - 719468,
    ensures
        valid_date(r.0 as int, r.1 as int, r.2 as int),
        day_number(r.0 as int, r.1 as int, r.2 as int) == days,
{
    let z = days + 719468;
    let era = z / 146097;
    assert(era * 146097 <= z) by (nonlinear_arith)
        requires
            era == z / 146097,
    ;
    assert(era * 400 <= z) by (nonlinear_arith)
        requires
            era == z / 146097,
    ;
    let doe = z - era * 146097;
    assert(doe <= 146096) by (nonlinear_arith)
        requires
            era == z / 146097,
            doe == z - era * 146097,
    ;
    proof {
        lemma_year_of_era(doe as int);
    }
    let yoe = (doe - doe / 1460 + doe / 36524 - doe / 146096) / 365;
    let y = yoe + era * 400;
    let doy = doe - (365 * yoe + yoe / 4 - yoe / 100);
    proof {
        lemma_month_of_year(doy as int);
        lemma_march_count(era as int, yoe as int);
        let yy = y as int;
        if doy == 365 {
            lemma_next_year_leap(era as int, yoe as int);
        }
        if (5 * doy + 2) / 153 < 10 {
            lemma_date_in_spring_to_winter(yy, doy as int, days as int);
        } else {
            lemma_date_in_new_year(yy, doy as int, days as int);
        }
    }
    let mp = (5 * doy + 2) / 153;
    let d = doy - (153 * mp + 2) / 5 + 1;
    let m = if mp < 10 { mp + 3 } else { mp - 9 };
    let yr = if m <= 2 { y + 1 } else { y };
    (yr, m, d)
}

/// The constant-time count and the year-by-year count of `dates` agree: any
/// two dates that both meet the contract of a day-to-date conversion for the
/// same day number are the same date.
pub proof fn date_conversions_agree(days: int, a: (u64, u64, u64), b: (u64, u64, u64))
    requires
        valid_date(a.0 as int, a.1 as int, a.2 as int),
        day_number(a.0 as int, a.1 as int, a.2 as int) == days,
        valid_date(b.0 as int, b.1 as int, b.2 as int),
        day_number(b.0 as int, b.1 as int, b.2 as int) == days,
    ensures
        a == b,
{
    day_number_injective(a.0 as int, a.1 as int, a.2 as int, b.0 as int, b.1 as int, b.2 as int);
}

} // verus!
