//! Calendar arithmetic and timestamp formatting for the project list.
use vstd::prelude::*;

verus! {

/// Gregorian leap-year rule.
pub open spec fn leap(y: int) -> bool {
    y % 4 == 0 && (y % 100 != 0 || y % 400 == 0)
}

/// Number of days in year `y`.
pub open spec fn year_days(y: int) -> int {
    if leap(y) { 366 } else { 365 }
}

/// Number of days in month `m` (1..=12) of year `y`.
pub open spec fn month_days(y: int, m: int) -> int {
    if m == 2 {
        if leap(y) { 29 } else { 28 }
    } else if m == 4 || m == 6 || m == 9 || m == 11 {
        30
    } else {
        31
    }
}

/// Days from 1970-01-01 to the first day of year `y` (`y >= 1970`).
pub open spec fn days_before_year(y: int) -> int
    decreases y - 1970,
{
    if y <= 1970 { 0 } else { days_before_year(y - 1) + year_days(y - 1) }
}

/// Days from the first of January to the first of month `m` in year `y`.
pub open spec fn days_before_month(y: int, m: int) -> int
    decreases m,
{
    if m <= 1 { 0 } else { days_before_month(y, m - 1) + month_days(y, m - 1) }
}

/// `(y, m, d)` is a calendar date from 1970 on.
pub open spec fn valid_date(y: int, m: int, d: int) -> bool {
    &&& y >= 1970
    &&& 1 <= m <= 12
    &&& 1 <= d <= month_days(y, m)
}

/// Days since 1970-01-01 of the date `(y, m, d)`.
pub open spec fn day_number(y: int, m: int, d: int) -> int {
    days_before_year(y) + days_before_month(y, m) + d - 1
}

/// Whether `y` is a leap year.
pub fn is_leap(y: u64) -> (r: bool)
    ensures
        r == leap(y as int),
{
    y % 4 == 0 && (y % 100 != 0 || y % 400 == 0)
}

fn month_length(y: u64, m: u64) -> (r: u64)
    requires
        1 <= m <= 12,
    ensures
        r == month_days(y as int, m as int),
{
    if m == 2 {
        if is_leap(y) { 29 } else { 28 }
    } else if m == 4 || m == 6 || m == 9 || m == 11 {
        30
    } else {
        31
    }
}

proof fn months_fill_year(y: int)
    ensures
        days_before_month(y, 13) == year_days(y),
{
    reveal_with_fuel(days_before_month, 13);
}

/// The calendar date (year, month, day) that lies `days` days after 1970-01-01.
pub fn days_to_ymd(days: u64) -> (r: (u64, u64, u64))
    ensures
        valid_date(r.0 as int, r.1 as int, r.2 as int),
        day_number(r.0 as int, r.1 as int, r.2 as int) == days,
{
    let mut rest = days;
    let mut year: u64 = 1970;
    loop
        invariant
            1970 <= year,
            rest <= days,
            days_before_year(year as int) + rest == days,
            (year - 1970) * 365 <= days - rest,
        ensures
            1970 <= year,
            rest < year_days(year as int),
            days_before_year(year as int) + rest == days,
        decreases rest,
    {
        let days_in_year: u64 = if is_leap(year) { 366 } else { 365 };
        if rest < days_in_year {
            break;
        }
        rest = rest - days_in_year;
        year = year + 1;
    }
    proof {
        months_fill_year(year as int);
    }
    let mut month: u64 = 1;
    loop
        invariant
            1 <= month <= 12,
            days_before_month(year as int, month as int) + rest < year_days(year as int),
            days_before_year(year as int) + days_before_month(year as int, month as int) + rest == days,
            days_before_month(year as int, 13) == year_days(year as int),
        ensures
            1 <= month <= 12,
            rest < month_days(year as int, month as int),
            days_before_year(year as int) + days_before_month(year as int, month as int) + rest == days,
        decreases 13 - month,
    {
        let md = month_length(year, month);
        if rest < md {
            break;
        }
        if month == 12 {
            assert(days_before_month(year as int, 13) == days_before_month(year as int, 12) + month_days(year as int, 12));
            assert(false);
        }
        rest = rest - md;
        month = month + 1;
    }
    (year, month, rest + 1)
}

// ---------------------------------------------------------------------------
// Decimal text
// ---------------------------------------------------------------------------

/// The decimal digit character for `d` (0..=9).
pub open spec fn digit_char(d: int) -> char {
    if d == 0 {
        '0'
    } else if d == 1 {
        '1'
    } else if d == 2 {
        '2'
    } else if d == 3 {
        '3'
    } else if d == 4 {
        '4'
    } else if d == 5 {
        '5'
    } else if d == 6 {
        '6'
    } else if d == 7 {
        '7'
    } else if d == 8 {
        '8'
    } else {
        '9'
    }
}

/// The decimal representation of `n`, without leading zeros.
pub open spec fn decimal(n: nat) -> Seq<char>
    decreases n,
{
    if n < 10 {
        seq![digit_char(n as int)]
    } else {
        decimal(n / 10) + seq![digit_char((n % 10) as int)]
    }
}

/// `n` in decimal, padded with a leading zero to at least two digits.
pub open spec fn two_digits(n: nat) -> Seq<char> {
    if n < 10 { seq!['0'] + decimal(n) } else { decimal(n) }
}

fn digit_str(d: u64) -> (r: &'static str)
    requires
        d < 10,
    ensures
        r@ == seq![digit_char(d as int)],
{
    proof {
        reveal_strlit("0");
        reveal_strlit("1");
        reveal_strlit("2");
        reveal_strlit("3");
        reveal_strlit("4");
        reveal_strlit("5");
        reveal_strlit("6");
        reveal_strlit("7");
        reveal_strlit("8");
        reveal_strlit("9");
    }
    if d == 0 {
        "0"
    } else if d == 1 {
        "1"
    } else if d == 2 {
        "2"
    } else if d == 3 {
        "3"
    } else if d == 4 {
        "4"
    } else if d == 5 {
        "5"
    } else if d == 6 {
        "6"
    } else if d == 7 {
        "7"
    } else if d == 8 {
        "8"
    } else {
        "9"
    }
}

/// Appends `n` in decimal.
pub fn push_decimal(s: &mut String, n: u64)
    ensures
        final(s)@ == old(s)@ + decimal(n as nat),
    decreases n,
{
    if n >= 10 {
        push_decimal(s, n / 10);
    }
    s.append(digit_str(n % 10));
    assert(final(s)@ =~= old(s)@ + decimal(n as nat)) by {
        if n < 10 {
        }
    }
}

/// Appends `n` in decimal, padded to at least two digits.
pub fn push_two_digits(s: &mut String, n: u64)
    ensures
        final(s)@ == old(s)@ + two_digits(n as nat),
{
    if n < 10 {
        proof {
            reveal_strlit("0");
        }
        s.append("0");
    }
    push_decimal(s, n);
    assert(final(s)@ =~= old(s)@ + two_digits(n as nat));
}

/// Text shown for a file time: `dd.mm.yyyy hh:mm` (UTC) for a time `secs`
/// seconds after the Unix epoch, or a dash for a time before the epoch (`None`).
pub open spec fn timestamp_text(secs: Option<u64>) -> Seq<char> {
    match secs {
        None => "—"@,
        Some(s) => {
            let days = s / 86400;
            let tod = s % 86400;
            let ymd = choose|ymd: (int, int, int)|
                valid_date(ymd.0, ymd.1, ymd.2) && day_number(ymd.0, ymd.1, ymd.2) == days;
            two_digits(ymd.2 as nat) + "."@ + two_digits(ymd.1 as nat) + "."@ + decimal(ymd.0 as nat)
                + " "@ + two_digits((tod / 3600) as nat) + ":"@ + two_digits(((tod % 3600) / 60) as nat)
        },
    }
}

proof fn years_grow(y1: int, y2: int)
    requires
        1970 <= y1 < y2,
    ensures
        days_before_year(y2) >= days_before_year(y1) + year_days(y1),
    decreases y2 - y1,
{
    if y2 - 1 > y1 {
        years_grow(y1, y2 - 1);
    }
}

proof fn months_grow(y: int, m1: int, m2: int)
    requires
        1 <= m1 < m2,
    ensures
        days_before_month(y, m2) >= days_before_month(y, m1) + month_days(y, m1),
    decreases m2 - m1,
{
    if m2 - 1 > m1 {
        months_grow(y, m1, m2 - 1);
    }
}

proof fn day_of_year_bounded(y: int, m: int, d: int)
    requires
        valid_date(y, m, d),
    ensures
        0 <= days_before_month(y, m) + d - 1 < year_days(y),
{
    months_fill_year(y);
    if m < 12 {
        months_grow(y, m, 13);
    }
    assert(days_before_month(y, m) >= 0) by {
        if m > 1 {
            months_grow(y, 1, m);
        }
    }
}

/// Distinct calendar dates have distinct day numbers: a day number names at
/// most one date.
pub proof fn day_number_injective(y1: int, m1: int, d1: int, y2: int, m2: int, d2: int)
    requires
        valid_date(y1, m1, d1),
        valid_date(y2, m2, d2),
        day_number(y1, m1, d1) == day_number(y2, m2, d2),
    ensures
        y1 == y2 && m1 == m2 && d1 == d2,
{
    day_of_year_bounded(y1, m1, d1);
    day_of_year_bounded(y2, m2, d2);
    if y1 < y2 {
        years_grow(y1, y2);
    } else if y2 < y1 {
        years_grow(y2, y1);
    } else {
        if m1 < m2 {
            months_grow(y1, m1, m2);
        } else if m2 < m1 {
            months_grow(y1, m2, m1);
        }
    }
}

/// `days_to_ymd` is the inverse of the day number: it gives back the date
/// that a day number was computed from.
pub proof fn days_to_ymd_inverts_day_number(y: int, m: int, d: int, r: (u64, u64, u64))
    requires
        valid_date(y, m, d),
        valid_date(r.0 as int, r.1 as int, r.2 as int),
        day_number(r.0 as int, r.1 as int, r.2 as int) == day_number(y, m, d),
    ensures
        r.0 == y && r.1 == m && r.2 == d,
{
    day_number_injective(r.0 as int, r.1 as int, r.2 as int, y, m, d);
}

/// The calendar day after `(y, m, d)`.
pub open spec fn next_day(y: int, m: int, d: int) -> (int, int, int) {
    if d < month_days(y, m) {
        (y, m, d + 1)
    } else if m < 12 {
        (y, m + 1, 1)
    } else {
        (y + 1, 1, 1)
    }
}

/// Day 0 is 1970-01-01, and the day after a date is the next calendar day.
pub proof fn day_numbers_count_days(y: int, m: int, d: int)
    requires
        valid_date(y, m, d),
    ensures
        valid_date(1970, 1, 1) && day_number(1970, 1, 1) == 0,
        ({
            let (y2, m2, d2) = next_day(y, m, d);
            valid_date(y2, m2, d2) && day_number(y2, m2, d2) == day_number(y, m, d) + 1
        }),
{
    if d >= month_days(y, m) {
        if m < 12 {
            assert(days_before_month(y, m + 1) == days_before_month(y, m) + month_days(y, m));
        } else {
            months_fill_year(y);
            assert(days_before_month(y, 13) == days_before_month(y, 12) + month_days(y, 12));
            assert(days_before_year(y + 1) == days_before_year(y) + year_days(y));
        }
    }
}

/// A conversion from day numbers to dates meeting the contract of
/// `days_to_ymd` gives 1970-01-01 for day 0 and, for day `n + 1`, the
/// calendar day after the date it gives for day `n`.
pub proof fn days_to_ymd_counts_days(n: int, a: (u64, u64, u64), b: (u64, u64, u64))
    requires
        valid_date(a.0 as int, a.1 as int, a.2 as int),
        day_number(a.0 as int, a.1 as int, a.2 as int) == n,
        valid_date(b.0 as int, b.1 as int, b.2 as int),
        day_number(b.0 as int, b.1 as int, b.2 as int) == n + 1,
    ensures
        n == 0 ==> a == (1970u64, 1u64, 1u64),
        (b.0 as int, b.1 as int, b.2 as int) == next_day(a.0 as int, a.1 as int, a.2 as int),
{
    day_numbers_count_days(a.0 as int, a.1 as int, a.2 as int);
    let (y2, m2, d2) = next_day(a.0 as int, a.1 as int, a.2 as int);
    day_number_injective(y2, m2, d2, b.0 as int, b.1 as int, b.2 as int);
    if n == 0 {
        day_number_injective(1970, 1, 1, a.0 as int, a.1 as int, a.2 as int);
    }
}

/// The text shown for a file's modification time: `dd.mm.yyyy hh:mm` (UTC)
/// for `secs` seconds after the Unix epoch, or a dash when the time lies
/// before the epoch (`None`).
pub fn format_timestamp(secs: Option<u64>) -> (r: String)
    ensures
        r@ == timestamp_text(secs),
{
    match secs {
        None => {
            let r = String::from_str("—");
            r
        },
        Some(s) => {
            let days = s / 86400;
            let tod = s % 86400;
            let hours = tod / 3600;
            let minutes = (tod % 3600) / 60;
            let (year, month, day) = days_to_ymd(days);
            proof {
                reveal_strlit(".");
                reveal_strlit(" ");
                reveal_strlit(":");
                let ymd = choose|ymd: (int, int, int)|
                    valid_date(ymd.0, ymd.1, ymd.2) && day_number(ymd.0, ymd.1, ymd.2) == days;
                assert(valid_date(year as int, month as int, day as int) && day_number(year as int, month as int, day as int) == days);
                day_number_injective(ymd.0, ymd.1, ymd.2, year as int, month as int, day as int);
            }
            let mut out = String::new();
            push_two_digits(&mut out, day);
            out.append(".");
            push_two_digits(&mut out, month);
            out.append(".");
            push_decimal(&mut out, year);
            out.append(" ");
            push_two_digits(&mut out, hours);
            out.append(":");
            push_two_digits(&mut out, minutes);
            assert(out@ =~= timestamp_text(secs));
            out
        },
    }
}

} // verus!
