//! Calendar dates: the day on which a second of the epoch falls in local
//! time, the date of a day, and the text of a date.

use vstd::prelude::*;
use vstd::string::StringExecFns;

verus! {

/// The seconds of a day.
pub const SECONDS_PER_DAY: u64 = 86400;

/// The days of 400 years, after which the calendar repeats.
pub const DAYS_PER_ERA: u64 = 146097;

/// A date of the Gregorian calendar.
#[derive(Clone, Copy, Debug, PartialEq, Eq, Structural)]
pub struct CivilDate {
    pub year: u64,
    pub month: u8,
    pub day: u8,
}

/// The year has a 29th of February.
pub open spec fn is_leap_year(year: int) -> bool {
    year % 4 == 0 && (year % 100 != 0 || year % 400 == 0)
}

/// The days of a year.
pub open spec fn days_in_year(year: int) -> int {
    if is_leap_year(year) {
        366
    } else {
        365
    }
}

/// The days of a month, for a month from 1 to 12.
pub open spec fn days_in_month(year: int, month: int) -> int {
    if month == 2 {
        if is_leap_year(year) {
            29
        } else {
            28
        }
    } else if month == 4 || month == 6 || month == 9 || month == 11 {
        30
    } else {
        31
    }
}

/// The leap years from year 1 through `year`.
pub open spec fn leap_years_through(year: int) -> int {
    year / 4 - year / 100 + year / 400
}

/// The days from the first day of 1970 to the first day of `year`.
pub open spec fn days_before_year(year: int) -> int {
    365 * (year - 1970) + leap_years_through(year - 1) - leap_years_through(1969)
}

/// The days from the first day of a year to the first day of a month.
pub open spec fn days_before_month(year: int, month: int) -> int
    decreases month,
{
    if month <= 1 {
        0
    } else {
        days_before_month(year, month - 1) + days_in_month(year, month - 1)
    }
}

/// The days from the first day of 1970 to a date.
pub open spec fn day_number(date: CivilDate) -> int {
    days_before_year(date.year as int) + days_before_month(date.year as int, date.month as int)
        + date.day - 1
}

/// The month and the day exist in the year.
pub open spec fn is_date(date: CivilDate) -> bool {
    &&& 1 <= date.month <= 12
    &&& 1 <= date.day <= days_in_month(date.year as int, date.month as int)
}

/// The day, counted from the first day of 1970, on which a second of the
/// epoch falls in a place whose clocks stand `utc_offset_seconds` ahead of
/// universal time.
pub open spec fn local_day(t: u64, utc_offset_seconds: i32) -> int {
    (t + utc_offset_seconds) / 86400
}

/// The character of a digit.
pub open spec fn digit_char(d: int) -> char {
    if d == 0 {
        '0'
    } else if d == 1 {
        '1'
    } else if d == 2 {
        '2'
    } else if d == 3 {
        '3'
    } else if d == 4 {
        '4'
    } else if d == 5 {
        '5'
    } else if d == 6 {
        '6'
    } else if d == 7 {
        '7'
    } else if d == 8 {
        '8'
    } else {
        '9'
    }
}

/// A number in decimal digits, without leading zeros.
pub open spec fn decimal(n: nat) -> Seq<char>
    decreases n,
{
    if n < 10 {
        seq![digit_char(n as int)]
    } else {
        decimal(n / 10).push(digit_char((n % 10) as int))
    }
}

/// A number in decimal digits, with leading zeros up to `width` digits.
pub open spec fn padded(n: nat, width: nat) -> Seq<char>
    decreases width,
{
    if decimal(n).len() >= width || width == 0 {
        decimal(n)
    } else {
        seq!['0'] + padded(n, (width - 1) as nat)
    }
}

/// A date as text: the year in at least four digits, the month and the day
/// in two, with a hyphen between them.
pub open spec fn date_text(date: CivilDate) -> Seq<char> {
    padded(date.year as nat, 4) + seq!['-'] + two_digits(date.month as nat) + seq!['-']
        + two_digits(date.day as nat)
}

/// A number below 100 in two digits.
pub open spec fn two_digits(n: nat) -> Seq<char> {
    seq![digit_char((n / 10) as int), digit_char((n % 10) as int)]
}

/// A year is as long as the calendar says.
pub proof fn lemma_next_year(year: int)
    ensures
        days_before_year(year + 1) == days_before_year(year) + days_in_year(year),
{
}

/// After 400 years the calendar repeats.
pub proof fn lemma_era(k: int)
    ensures
        days_before_year(1970 + 400 * k) == 146097 * k,
{
}

/// The first day of a later year lies behind every day of an earlier year.
pub proof fn lemma_years_follow(earlier: int, later: int)
    requires
        earlier < later,
    ensures
        days_before_year(earlier) + days_in_year(earlier) <= days_before_year(later),
    decreases later - earlier,
{
    lemma_next_year(earlier);
    if earlier + 1 < later {
        lemma_years_follow(earlier + 1, later);
    }
}

/// The first day of a later month lies behind every day of an earlier month
/// of the same year, and the last month ends with the year.
pub proof fn lemma_months_follow(year: int, earlier: int, later: int)
    requires
        1 <= earlier < later <= 13,
    ensures
        days_before_month(year, earlier) + days_in_month(year, earlier) <= days_before_month(
            year,
            later,
        ),
        days_before_month(year, 13) == days_in_year(year),
        0 <= days_before_month(year, earlier),
{
    reveal_with_fuel(days_before_month, 14);
}

/// No two dates fall on the same day.
pub proof fn lemma_day_number_is_injective(a: CivilDate, b: CivilDate)
    requires
        is_date(a),
        is_date(b),
        day_number(a) == day_number(b),
    ensures
        a == b,
{
    lemma_months_follow(a.year as int, a.month as int, 13);
    lemma_months_follow(b.year as int, b.month as int, 13);
    if a.year < b.year {
        lemma_years_follow(a.year as int, b.year as int);
    } else if b.year < a.year {
        lemma_years_follow(b.year as int, a.year as int);
    } else if a.month < b.month {
        lemma_months_follow(a.year as int, a.month as int, b.month as int);
    } else if b.month < a.month {
        lemma_months_follow(a.year as int, b.month as int, a.month as int);
    }
}

/// Decides whether a year has a 29th of February.
pub fn leap_year(year: u64) -> (b: bool)
    ensures
        b == is_leap_year(year as int),
{
    year % 4 == 0 && (year % 100 != 0 || year % 400 == 0)
}

/// The days of a year.
pub fn year_length(year: u64) -> (n: u64)
    ensures
        n == days_in_year(year as int),
{
    if leap_year(year) {
        366
    } else {
        365
    }
}

/// The days of a month.
pub fn month_length(year: u64, month: u8) -> (n: u8)
    requires
        1 <= month <= 12,
    ensures
        n == days_in_month(year as int, month as int),
{
    if month == 2 {
        if leap_year(year) {
            29
        } else {
            28
        }
    } else if month == 4 || month == 6 || month == 9 || month == 11 {
        30
    } else {
        31
    }
}

/// The local date of a second of the epoch, in a place whose clocks stand
/// `utc_offset_seconds` ahead of universal time.
pub fn local_date(t: u64, utc_offset_seconds: i32) -> (date: CivilDate)
    ensures
        is_date(date),
        day_number(date) == local_day(t, utc_offset_seconds),
{
    let shifted_day = shifted_local_day(t, utc_offset_seconds);
    date_of_shifted_day(shifted_day)
}

/// The local day of a second of the epoch, counted from the first day of
/// 1570, which lies one era before 1970.
pub fn shifted_local_day(t: u64, utc_offset_seconds: i32) -> (d: u64)
    ensures
        d == local_day(t, utc_offset_seconds) + 146097,
{
    let base: u128 = 12_622_780_800;
    let seconds: u128 = if utc_offset_seconds >= 0 {
        t as u128 + base + utc_offset_seconds as u128
    } else {
        t as u128 + base - ((-(utc_offset_seconds as i64)) as u128)
    };
    assert(seconds == t + utc_offset_seconds + 146097 * 86400);
    let d = seconds / 86400;
    assert(d == (t + utc_offset_seconds) / 86400 + 146097);
    d as u64
}

/// The day, counted from the first day of 1970, on which a second of the
/// epoch falls in local time.
pub fn local_day_number(t: u64, utc_offset_seconds: i32) -> (d: i64)
    ensures
        d == local_day(t, utc_offset_seconds),
        d >= -146097,
{
    let shifted = shifted_local_day(t, utc_offset_seconds);
    let ghost x: int = t + utc_offset_seconds;
    assert(x / 86400 <= 213_503_982_359_457) by (nonlinear_arith)
        requires
            x <= 0x1_0000_0000_8000_0000,
    ;
    shifted as i64 - 146097
}

/// The date of a day that is counted from the first day of 1970 and lies no
/// more than one era before it.
pub fn date_of_day(day: i64) -> (date: CivilDate)
    requires
        day >= -146097,
    ensures
        is_date(date),
        day_number(date) == day,
{
    date_of_shifted_day((day as i128 + 146097) as u64)
}

/// The date of a day that is counted from the first day of 1570.
pub fn date_of_shifted_day(shifted_day: u64) -> (date: CivilDate)
    ensures
        is_date(date),
        day_number(date) == shifted_day - 146097,
{
    let era: u64 = shifted_day / DAYS_PER_ERA;
    let mut rest: u64 = shifted_day % DAYS_PER_ERA;
    let mut year: u64 = 1570 + 400 * era;
    proof {
        lemma_era(era as int - 1);
    }
    let mut steps: u64 = 0;
    while rest >= year_length(year)
        invariant
            rest < 146097,
            steps <= 400,
            year == 1570 + 400 * era + steps,
            era <= u64::MAX / 146097,
            days_before_year(year as int) + rest == shifted_day - 146097,
            rest + days_before_year(year as int) - days_before_year(1570 + 400 * era) < 146097,
        decreases rest,
    {
        proof {
            lemma_next_year(year as int);
            lemma_era(era as int - 1);
            lemma_era(era as int);
            if steps == 400 {
                assert(false);
            }
        }
        rest = rest - year_length(year);
        year = year + 1;
        steps = steps + 1;
    }
    let mut month: u8 = 1;
    while month < 12 && rest >= month_length(year, month) as u64
        invariant
            1 <= month <= 12,
            rest < 366,
            days_before_year(year as int) + days_before_month(year as int, month as int) + rest
                == shifted_day - 146097,
            rest + days_before_month(year as int, month as int) < days_in_year(year as int),
        decreases 12 - month,
    {
        rest = rest - month_length(year, month) as u64;
        month = month + 1;
    }
    proof {
        reveal_with_fuel(days_before_month, 13);
        assert(rest < days_in_month(year as int, month as int));
    }
    CivilDate { year, month, day: (rest + 1) as u8 }
}

/// The text of one digit.
pub fn digit_text(d: u8) -> (s: &'static str)
    requires
        d < 10,
    ensures
        s@ == seq![digit_char(d as int)],
{
    proof {
        reveal_strlit("0");
        reveal_strlit("1");
        reveal_strlit("2");
        reveal_strlit("3");
        reveal_strlit("4");
        reveal_strlit("5");
        reveal_strlit("6");
        reveal_strlit("7");
        reveal_strlit("8");
        reveal_strlit("9");
    }
    let s = if d == 0 {
        "0"
    } else if d == 1 {
        "1"
    } else if d == 2 {
        "2"
    } else if d == 3 {
        "3"
    } else if d == 4 {
        "4"
    } else if d == 5 {
        "5"
    } else if d == 6 {
        "6"
    } else if d == 7 {
        "7"
    } else if d == 8 {
        "8"
    } else {
        "9"
    };
    assert(s@ =~= seq![digit_char(d as int)]);
    s
}

/// Adds a number in decimal digits to a text.
pub fn push_decimal(s: &mut String, n: u64)
    ensures
        final(s)@ == old(s)@ + decimal(n as nat),
    decreases n,
{
    if n >= 10 {
        push_decimal(s, n / 10);
    }
    s.append(digit_text((n % 10) as u8));
    assert(s@ =~= old(s)@ + decimal(n as nat));
}

/// The number of decimal digits of a number.
pub fn decimal_len(n: u64) -> (len: usize)
    ensures
        len == decimal(n as nat).len(),
        1 <= len <= 20,
    decreases n,
{
    if n < 10 {
        1
    } else {
        let inner = decimal_len(n / 10);
        proof {
            lemma_decimal_len_bound(n as nat);
        }
        inner + 1
    }
}

/// A number below `10^k` has at most `k` digits; a 64-bit number has at most
/// 20.
pub proof fn lemma_decimal_len_bound(n: nat)
    requires
        n <= u64::MAX,
    ensures
        decimal(n).len() <= 20,
{
    reveal_with_fuel(decimal, 21);
}

/// The text of a date: the year in at least four digits, the month and the
/// day in two, with a hyphen between them.
pub fn date_string(date: CivilDate) -> (s: String)
    requires
        date.month < 100,
        date.day < 100,
    ensures
        s@ == date_text(date),
{
    let mut s = String::new();
    let len = decimal_len(date.year);
    let mut width: usize = 4;
    proof {
        reveal_strlit("0");
        reveal_strlit("-");
    }
    while width > len
        invariant
            width <= 4,
            len == decimal(date.year as nat).len(),
            s@ + padded(date.year as nat, width as nat) == padded(date.year as nat, 4),
        decreases width,
    {
        proof {
            reveal_strlit("0");
            assert(padded(date.year as nat, width as nat) == seq!['0'] + padded(
                date.year as nat,
                (width - 1) as nat,
            ));
        }
        let ghost before = s@;
        s.append("0");
        assert(s@ + padded(date.year as nat, (width - 1) as nat) =~= before + (seq!['0'] + padded(
            date.year as nat,
            (width - 1) as nat,
        )));
        width = width - 1;
    }
    assert(padded(date.year as nat, width as nat) == decimal(date.year as nat));
    push_decimal(&mut s, date.year);
    assert(s@ == padded(date.year as nat, 4));
    s.append("-");
    s.append(digit_text(date.month / 10));
    s.append(digit_text(date.month % 10));
    s.append("-");
    s.append(digit_text(date.day / 10));
    s.append(digit_text(date.day % 10));
    assert(s@ =~= date_text(date));
    s
}

} // verus!
