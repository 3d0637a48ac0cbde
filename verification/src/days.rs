//! UTC calendar days of nanosecond timestamps.

use vstd::prelude::*;

use crate::text::{dec, decimal};

verus! {

pub open spec fn is_leap(year: int) -> bool {
    year % 4 == 0 && (year % 100 != 0 || year % 400 == 0)
}

/// How many days a month has.
pub open spec fn month_days(year: int, month: int) -> int {
    if month == 2 {
        if is_leap(year) {
            29
        } else {
            28
        }
    } else if month == 4 || month == 6 || month == 9 || month == 11 {
        30
    } else {
        31
    }
}

/// How many days of its year come before a month.
pub open spec fn days_before_month(year: int, month: int) -> int
    decreases month,
{
    if month <= 1 {
        0
    } else {
        days_before_month(year, month - 1) + month_days(year, month - 1)
    }
}

/// How many days come before a year, counted from the first day of year one.
pub open spec fn days_before_year(year: int) -> int {
    365 * (year - 1) + (year - 1) / 4 - (year - 1) / 100 + (year - 1) / 400
}

/// The number of a day, counted from 1970-01-01.
pub open spec fn day_number(year: int, month: int, day: int) -> int {
    days_before_year(year) + days_before_month(year, month) + day - 1 - days_before_year(1970)
}

pub open spec fn is_date(year: int, month: int, day: int) -> bool {
    1 <= month <= 12 && 1 <= day <= month_days(year, month)
}

/// A number filled up with zeros on the left to a width.
pub open spec fn zero_padded(n: nat, width: nat) -> Seq<char> {
    let text = dec(n);
    if text.len() < width {
        Seq::new((width - text.len()) as nat, |i: int| '0') + text
    } else {
        text
    }
}

/// A date as `YYYY-MM-DD`.
pub open spec fn date_text(year: int, month: int, day: int) -> Seq<char> {
    zero_padded(year as nat, 4) + "-"@ + zero_padded(month as nat, 2) + "-"@ + zero_padded(
        day as nat,
        2,
    )
}

/// The date of the day a timestamp falls on, as `YYYY-MM-DD`.
pub open spec fn day_of(start_ns: u64) -> Seq<char> {
    choose|text: Seq<char>| is_day_of(text, start_ns)
}

/// Whether a text is the date of the day a timestamp falls on.
pub open spec fn is_day_of(text: Seq<char>, start_ns: u64) -> bool {
    exists|year: int, month: int, day: int|
        #![trigger is_date(year, month, day)]
        is_date(year, month, day) && 1 <= year && day_number(year, month, day) == start_ns as int
            / 86_400_000_000_000 && text == date_text(year, month, day)
}

fn zero_pad(n: u64, width: usize) -> (r: String)
    ensures
        r@ == zero_padded(n as nat, width as nat),
{
    let text = decimal(n);
    let length: usize = crate::text::chars_of(text.as_str()).len();
    if length >= width {
        return text;
    }
    let mut r = String::new();
    let mut zeros: usize = 0;
    assert(r@ =~= Seq::new(0, |i: int| '0'));
    while zeros < width - length
        invariant
            zeros <= width - length,
            length < width,
            r@ == Seq::new(zeros as nat, |i: int| '0'),
        decreases width - length - zeros,
    {
        r.push('0');
        zeros += 1;
        assert(r@ =~= Seq::new(zeros as nat, |i: int| '0'));
    }
    r.push_str(text.as_str());
    r
}

proof fn lemma_year_of_era(doe: u32)
    by (bit_vector)
    requires
        doe < 146097,
    ensures
        ({
            let yoe = (doe - doe / 1460 + doe / 36524 - doe / 146096) / 365;
            let before = 365 * yoe + yoe / 4 - yoe / 100;
            &&& yoe <= 399
            &&& before <= doe
            &&& doe - before <= 365
            &&& doe - before == 365 ==> (yoe + 1) % 4 == 0 && ((yoe + 1) % 100 != 0 || (yoe + 1)
                % 400 == 0)
        }),
{
}

/// A year counted from March holds its months at fixed places.
proof fn lemma_month(year: int, doy: int)
    requires
        0 <= doy <= 365,
        doy == 365 ==> is_leap(year + 1),
    ensures
        ({
            let mp = (5 * doy + 2) / 153;
            let day = doy - (153 * mp + 2) / 5 + 1;
            let month = if mp < 10 {
                mp + 3
            } else {
                mp - 9
            };
            let civil = if month <= 2 {
                year + 1
            } else {
                year
            };
            &&& 0 <= mp <= 11
            &&& 0 <= (153 * mp + 2) / 5 <= doy
            &&& is_date(civil, month, day)
            &&& days_before_month(civil, month) + day - 1 == if month <= 2 {
                doy - 306
            } else {
                doy + 59 + if is_leap(year) {
                    1int
                } else {
                    0int
                }
            }
        }),
{
    reveal_with_fuel(days_before_month, 13);
    let mp = (5 * doy + 2) / 153;
    assert(0 <= mp <= 11);
    if mp == 0 {
    } else if mp == 1 {
    } else if mp == 2 {
    } else if mp == 3 {
    } else if mp == 4 {
    } else if mp == 5 {
    } else if mp == 6 {
    } else if mp == 7 {
    } else if mp == 8 {
    } else if mp == 9 {
    } else if mp == 10 {
    } else {
    }
}

/// The year that begins with a January has its leap day counted by the next.
proof fn lemma_next_year(year: int)
    requires
        0 <= year,
    ensures
        days_before_year(year + 1) == 365 * year + year / 4 - year / 100 + year / 400,
        year >= 1 ==> days_before_year(year + 1) == days_before_year(year) + if is_leap(year) {
            366int
        } else {
            365int
        },
{
}

/// The number of a day is that of the March it comes after.
proof fn lemma_day_number(year: int, doy: int)
    requires
        0 <= doy <= 365,
        0 <= year,
        doy == 365 ==> is_leap(year + 1),
    ensures
        ({
            let mp = (5 * doy + 2) / 153;
            let day = doy - (153 * mp + 2) / 5 + 1;
            let month = if mp < 10 {
                mp + 3
            } else {
                mp - 9
            };
            let civil = if month <= 2 {
                year + 1
            } else {
                year
            };
            &&& is_date(civil, month, day)
            &&& day_number(civil, month, day) == 365 * year + year / 4 - year / 100 + year / 400
                + doy - 719_468
        }),
{
    lemma_month(year, doy);
    lemma_next_year(year);
    if year == 0 {
        assert(days_before_year(0) == -366);
        assert(is_leap(0));
    }
    assert(days_before_year(1970) == 719_162);
}

/// The date of the day with the given number.
fn civil_from_days(days: u64) -> (r: (u64, u64, u64))
    requires
        days <= 300_000,
    ensures
        is_date(r.0 as int, r.1 as int, r.2 as int),
        1 <= r.0,
        day_number(r.0 as int, r.1 as int, r.2 as int) == days,
{
    let z: u64 = days + 719_468;
    let era: u64 = z / 146_097;
    let doe: u64 = z % 146_097;
    proof {
        lemma_year_of_era(doe as u32);
    }
    let yoe: u64 = (doe - doe / 1_460 + doe / 36_524 - doe / 146_096) / 365;
    let year: u64 = yoe + era * 400;
    let doy: u64 = doe - (365 * yoe + yoe / 4 - yoe / 100);
    proof {
        lemma_leap_in_era(yoe as int, era as int);
        lemma_month(year as int, doy as int);
        lemma_day_number(year as int, doy as int);
        assert(z == era * 146_097 + doe);
    }
    let mp: u64 = (5 * doy + 2) / 153;
    let day: u64 = doy - (153 * mp + 2) / 5 + 1;
    let month: u64 = if mp < 10 {
        mp + 3
    } else {
        mp - 9
    };
    let civil: u64 = if month <= 2 {
        year + 1
    } else {
        year
    };
    (civil, month, day)
}

/// The UTC calendar day of a nanosecond timestamp, as `YYYY-MM-DD`.
pub fn day_bucket(start_ns: u64) -> (r: String)
    ensures
        r@ == day_of(start_ns),
        is_day_of(r@, start_ns),
{
    let days: u64 = start_ns / 1_000_000_000 / 86_400;
    assert(days == start_ns as int / 86_400_000_000_000);
    let (year, month, day) = civil_from_days(days);
    let mut r = zero_pad(year, 4);
    r.push_str("-");
    r.push_str(zero_pad(month, 2).as_str());
    r.push_str("-");
    r.push_str(zero_pad(day, 2).as_str());
    proof {
        assert(is_date(year as int, month as int, day as int));
        assert(is_day_of(r@, start_ns));
        lemma_one_text(r@, day_of(start_ns), start_ns);
    }
    r
}

proof fn lemma_one_text(a: Seq<char>, b: Seq<char>, start_ns: u64)
    requires
        is_day_of(a, start_ns),
        is_day_of(b, start_ns),
    ensures
        a == b,
{
    let number = start_ns as int / 86_400_000_000_000;
    let (year, month, day): (int, int, int) = choose|year: int, month: int, day: int|
        #![trigger is_date(year, month, day)]
        is_date(year, month, day) && 1 <= year && day_number(year, month, day) == number && a
            == date_text(year, month, day);
    let (y, m, d): (int, int, int) = choose|year: int, month: int, day: int|
        #![trigger is_date(year, month, day)]
        is_date(year, month, day) && 1 <= year && day_number(year, month, day) == number && b
            == date_text(year, month, day);
    law_a_day_has_one_date(year, month, day, y, m, d);
}

/// Eras of four hundred years repeat the leap years.
proof fn lemma_leap_in_era(yoe: int, era: int)
    requires
        0 <= yoe <= 399,
        0 <= era,
    ensures
        ({
            let year = yoe + era * 400;
            &&& is_leap(year + 1) == ((yoe + 1) % 4 == 0 && ((yoe + 1) % 100 != 0 || (yoe + 1) % 400
                == 0))
            &&& year / 4 == yoe / 4 + 100 * era
            &&& year / 100 == yoe / 100 + 4 * era
            &&& year / 400 == era
        }),
{
}

// ----------------------------------------------------------------------- laws

/// A day has one date: no two dates have the same number.
pub proof fn law_a_day_has_one_date(
    year: int,
    month: int,
    day: int,
    other_year: int,
    other_month: int,
    other_day: int,
)
    requires
        is_date(year, month, day),
        is_date(other_year, other_month, other_day),
        1 <= year,
        1 <= other_year,
        day_number(year, month, day) == day_number(other_year, other_month, other_day),
    ensures
        year == other_year && month == other_month && day == other_day,
{
    lemma_day_in_year(year, month, day);
    lemma_day_in_year(other_year, other_month, other_day);
    if year < other_year {
        lemma_years_grow(year + 1, other_year);
        lemma_next_year(year);
    }
    if other_year < year {
        lemma_years_grow(other_year + 1, year);
        lemma_next_year(other_year);
    }
    if month < other_month {
        lemma_months_grow(year, month + 1, other_month);
    }
    if other_month < month {
        lemma_months_grow(year, other_month + 1, month);
    }
}

proof fn lemma_day_in_year(year: int, month: int, day: int)
    requires
        is_date(year, month, day),
    ensures
        0 <= days_before_month(year, month) + day - 1 < if is_leap(year) {
            366int
        } else {
            365int
        },
{
    reveal_with_fuel(days_before_month, 13);
}

proof fn lemma_years_grow(from: int, to: int)
    requires
        1 <= from <= to,
    ensures
        days_before_year(from) <= days_before_year(to),
    decreases to - from,
{
    if from < to {
        lemma_years_grow(from, to - 1);
        lemma_next_year(to - 1);
    }
}

proof fn lemma_months_grow(year: int, from: int, to: int)
    requires
        1 <= from <= to <= 12,
    ensures
        days_before_month(year, from) <= days_before_month(year, to),
    decreases to - from,
{
    if from < to {
        lemma_months_grow(year, from, to - 1);
    }
}

/// Days follow one another: within a month the next number is the next day,
/// after the last day of a month the first of the next, and after December the
/// first of January; 1970-01-01 is day zero.
pub proof fn law_days_follow_one_another(year: int, month: int, day: int)
    requires
        is_date(year, month, day),
        1 <= year,
    ensures
        day_number(1970, 1, 1) == 0,
        is_date(year, month, day + 1) ==> day_number(year, month, day + 1) == day_number(
            year,
            month,
            day,
        ) + 1,
        day == month_days(year, month) && month < 12 ==> day_number(year, month + 1, 1)
            == day_number(year, month, day) + 1,
        day == month_days(year, month) && month == 12 ==> day_number(year + 1, 1, 1) == day_number(
            year,
            month,
            day,
        ) + 1,
{
    reveal_with_fuel(days_before_month, 13);
    lemma_next_year(year);
}

/// The calendar: thirty days have April, June, September and November, February
/// has 28, and 29 every fourth year but for three of four centuries, and all
/// other months have 31.
pub proof fn law_the_calendar(year: int)
    ensures
        month_days(year, 1) == 31 && month_days(year, 3) == 31 && month_days(year, 5) == 31,
        month_days(year, 7) == 31 && month_days(year, 8) == 31 && month_days(year, 10) == 31,
        month_days(year, 12) == 31,
        month_days(year, 4) == 30 && month_days(year, 6) == 30 && month_days(year, 9) == 30,
        month_days(year, 11) == 30,
        year % 400 == 0 ==> month_days(year, 2) == 29,
        year % 100 == 0 && year % 400 != 0 ==> month_days(year, 2) == 28,
        year % 4 == 0 && year % 100 != 0 ==> month_days(year, 2) == 29,
        year % 4 != 0 ==> month_days(year, 2) == 28,
{
}

/// The day of a timestamp is written as year, month and day with dashes, the
/// year in four digits and the others in two, and it is the day that many whole
/// days after 1970-01-01.
pub proof fn law_the_day_of_a_timestamp(start_ns: u64, year: int, month: int, day: int)
    requires
        is_date(year, month, day),
        1000 <= year <= 9999,
        day_number(year, month, day) == start_ns as int / 86_400_000_000_000,
    ensures
        ({
            let text = day_of(start_ns);
            &&& text.len() == 10
            &&& text.take(4) == dec(year as nat)
            &&& text[4] == '-' && text[7] == '-'
            &&& text[5] as u32 - 48 == month / 10 && text[6] as u32 - 48 == month % 10
            &&& text[8] as u32 - 48 == day / 10 && text[9] as u32 - 48 == day % 10
        }),
{
    let text = date_text(year, month, day);
    assert(is_day_of(text, start_ns));
    assert(is_day_of(day_of(start_ns), start_ns));
    lemma_one_text(text, day_of(start_ns), start_ns);
    reveal_strlit("-");
    reveal_with_fuel(dec, 5);
    lemma_two_digits(month as nat);
    lemma_two_digits(day as nat);
    assert(dec(year as nat).len() == 4);
    let y = zero_padded(year as nat, 4);
    let m = zero_padded(month as nat, 2);
    let d = zero_padded(day as nat, 2);
    assert(text =~= y + "-"@ + m + "-"@ + d);
    assert(text.take(4) =~= y);
    assert(text[5] == m[0] && text[6] == m[1] && text[8] == d[0] && text[9] == d[1]);
}

proof fn lemma_two_digits(n: nat)
    requires
        n < 100,
    ensures
        zero_padded(n, 2).len() == 2,
        zero_padded(n, 2)[0] as u32 == 48 + n / 10,
        zero_padded(n, 2)[1] as u32 == 48 + n % 10,
{
    reveal_with_fuel(dec, 3);
}

} // verus!
