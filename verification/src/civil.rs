//! Days of the calendar.
use vstd::prelude::*;

verus! {

/// A day of the proleptic Gregorian calendar.
#[derive(Clone, Copy, PartialEq, Eq, Structural, Debug)]
pub struct Day {
    pub year: i16,
    pub month: i8,
    pub day: i8,
}

#[derive(Clone, Copy, PartialEq, Eq, Structural, Debug)]
pub enum Weekday {
    Monday,
    Tuesday,
    Wednesday,
    Thursday,
    Friday,
    Saturday,
    Sunday,
}

pub open spec fn leap(year: int) -> bool {
    year % 4 == 0 && (year % 100 != 0 || year % 400 == 0)
}

pub open spec fn month_len(year: int, month: int) -> int {
    if month == 2 {
        if leap(year) {
            29
        } else {
            28
        }
    } else if month == 4 || month == 6 || month == 9 || month == 11 {
        30
    } else {
        31
    }
}

/// The days before a year, counted from the year 1.
pub open spec fn days_before_year(year: int) -> int {
    let n = year - 1;
    365 * n + n / 4 - n / 100 + n / 400
}

/// The days of a year before a month.
pub open spec fn days_before_month(year: int, month: int) -> int
    decreases month,
{
    if month <= 1 {
        0
    } else {
        days_before_month(year, month - 1) + month_len(year, month - 1)
    }
}

impl Day {
    pub open spec fn valid(self) -> bool {
        &&& -9999 <= self.year <= 9999
        &&& 1 <= self.month <= 12
        &&& 1 <= self.day <= month_len(self.year as int, self.month as int)
    }

    /// The day's number: the first day of the year 1 is 1.
    pub open spec fn number(self) -> int {
        days_before_year(self.year as int) + days_before_month(
            self.year as int,
            self.month as int,
        ) + self.day
    }
}

pub open spec fn first_number() -> int {
    (Day { year: -9999i16, month: 1, day: 1 }).number()
}

pub open spec fn last_number() -> int {
    (Day { year: 9999, month: 12, day: 31 }).number()
}

/// Monday is 0, Sunday 6.
pub open spec fn weekday_index(weekday: Weekday) -> int {
    match weekday {
        Weekday::Monday => 0,
        Weekday::Tuesday => 1,
        Weekday::Wednesday => 2,
        Weekday::Thursday => 3,
        Weekday::Friday => 4,
        Weekday::Saturday => 5,
        Weekday::Sunday => 6,
    }
}

/// The weekday of a day's number: the first day of the year 1 was a Monday.
pub open spec fn weekday_of(number: int) -> int {
    (number - 1) % 7
}

/// The ISO year that the day of that number falls in, which is that of its
/// week's Thursday, given the calendar year.
pub open spec fn iso_year(number: int, year: int) -> int {
    let thursday = number - weekday_of(number) + 3;
    if thursday <= days_before_year(year) {
        year - 1
    } else if thursday > days_before_year(year + 1) {
        year + 1
    } else {
        year
    }
}

/// The ISO week of a day: weeks start on Monday, and the first week of a year
/// is the one with its first Thursday.
pub open spec fn iso_week_of(day: Day) -> int {
    let thursday = day.number() - weekday_of(day.number()) + 3;
    (thursday - days_before_year(iso_year(day.number(), day.year as int)) - 1) / 7 + 1
}

/// `jiff::civil::Date::weekday`: weeks of seven days have gone by without a
/// break.
#[verifier::external_body]
pub(crate) fn weekday(day: Day) -> (r: Weekday)
    requires
        day.valid(),
    ensures
        weekday_index(r) == weekday_of(day.number()),
{
    match jiff::civil::date(day.year, day.month, day.day).weekday() {
        jiff::civil::Weekday::Monday => Weekday::Monday,
        jiff::civil::Weekday::Tuesday => Weekday::Tuesday,
        jiff::civil::Weekday::Wednesday => Weekday::Wednesday,
        jiff::civil::Weekday::Thursday => Weekday::Thursday,
        jiff::civil::Weekday::Friday => Weekday::Friday,
        jiff::civil::Weekday::Saturday => Weekday::Saturday,
        jiff::civil::Weekday::Sunday => Weekday::Sunday,
    }
}

/// `jiff::civil::Date::checked_add` of a span of days: the day so many days
/// later, where jiff's calendar reaches that far.
#[verifier::external_body]
pub(crate) fn add_days(day: Day, days: i32) -> (r: Option<Day>)
    requires
        day.valid(),
        -7_304_484 <= days <= 7_304_484,
    ensures
        match r {
            Some(other) => other.valid() && other.number() == day.number() + days,
            None => day.number() + days < first_number() || day.number() + days > last_number(),
        },
{
    let date = jiff::civil::date(day.year, day.month, day.day);
    let other = date.checked_add(jiff::Span::new().days(days)).ok()?;
    Some(Day { year: other.year(), month: other.month(), day: other.day() })
}

/// `jiff::civil::Date::checked_add` of a span of months: the same day of the
/// month so many months later, or the last of a shorter month, where jiff's
/// calendar reaches that far.
#[verifier::external_body]
pub(crate) fn add_months(day: Day, months: i32) -> (r: Option<Day>)
    requires
        day.valid(),
        -239_976 <= months <= 239_976,
    ensures
        ({
            let total = day.year * 12 + day.month - 1 + months;
            let (year, month) = (total / 12, total % 12 + 1);
            match r {
                Some(other) => {
                    &&& other.year == year
                    &&& other.month == month
                    &&& other.day == if day.day <= month_len(year, month) {
                        day.day as int
                    } else {
                        month_len(year, month)
                    }
                    &&& -9999 <= year <= 9999
                },
                None => year < -9999 || year > 9999,
            }
        }),
{
    let date = jiff::civil::date(day.year, day.month, day.day);
    let other = date.checked_add(jiff::Span::new().months(months)).ok()?;
    Some(Day { year: other.year(), month: other.month(), day: other.day() })
}

/// `jiff::civil::Date::duration_since`, in whole hours: from `earlier` to
/// `later`, of which each day has 24.
#[verifier::external_body]
fn hours_between(later: Day, earlier: Day) -> (r: i64)
    requires
        later.valid(),
        earlier.valid(),
    ensures
        r == 24 * (later.number() - earlier.number()),
{
    let later = jiff::civil::date(later.year, later.month, later.day);
    let earlier = jiff::civil::date(earlier.year, earlier.month, earlier.day);
    later.duration_since(earlier).as_hours()
}

/// The days from `earlier` to `later`.
pub fn days_between(later: Day, earlier: Day) -> (r: i64)
    requires
        later.valid(),
        earlier.valid(),
    ensures
        r == later.number() - earlier.number(),
{
    hours_between(later, earlier) / 24
}

/// `jiff::civil::DateWith::build` of a date with another day: there is one
/// where the month has that day.
#[verifier::external_body]
pub(crate) fn with_day(day: Day, n: i8) -> (r: Option<Day>)
    requires
        day.valid(),
    ensures
        r == if 1 <= n <= month_len(day.year as int, day.month as int) {
            Some(Day { day: n, ..day })
        } else {
            None
        },
{
    let date = jiff::civil::date(day.year, day.month, day.day);
    let other = date.with().day(n).build().ok()?;
    Some(Day { year: other.year(), month: other.month(), day: other.day() })
}

/// `jiff::civil::Date::iso_week_date`, its week.
#[verifier::external_body]
pub(crate) fn iso_week(day: Day) -> (r: i8)
    requires
        day.valid(),
    ensures
        r == iso_week_of(day),
{
    jiff::civil::date(day.year, day.month, day.day).iso_week_date().week()
}

/// `jiff::civil::Date::new`: there is a date exactly for the years, months and
/// days that the calendar has.
#[verifier::external_body]
fn is_date(year: i16, month: i8, day: i8) -> (r: bool)
    ensures
        r == (Day { year, month, day }).valid(),
{
    jiff::civil::Date::new(year, month, day).is_ok()
}

impl Day {
    /// The day of that year, month and day, where there is one.
    pub fn new(year: i16, month: i8, day: i8) -> (r: Option<Day>)
        ensures
            r == if (Day { year, month, day }).valid() {
                Some(Day { year, month, day })
            } else {
                None
            },
    {
        if is_date(year, month, day) {
            Some(Day { year, month, day })
        } else {
            None
        }
    }

    pub fn weekday(self) -> (r: Weekday)
        requires
            self.valid(),
        ensures
            weekday_index(r) == weekday_of(self.number()),
    {
        weekday(self)
    }
}

/// A year is 365 days long, and 366 where it is a leap year.
pub proof fn lemma_year_step(year: int)
    ensures
        days_before_year(year + 1) == days_before_year(year) + if leap(year) {
            366int
        } else {
            365
        },
{
    lemma_fourth(year);
    lemma_hundredth(year);
    lemma_four_hundredth(year);
    assert(year % 100 == 0 ==> year % 4 == 0);
    assert(year % 400 == 0 ==> year % 100 == 0) by {
        if year % 400 == 0 {
            assert(year == 400 * (year / 400));
        }
    }
}

proof fn lemma_fourth(year: int)
    ensures
        year / 4 == (year - 1) / 4 + if year % 4 == 0 {
            1int
        } else {
            0
        },
{
}

proof fn lemma_hundredth(year: int)
    ensures
        year / 100 == (year - 1) / 100 + if year % 100 == 0 {
            1int
        } else {
            0
        },
{
}

proof fn lemma_four_hundredth(year: int)
    ensures
        year / 400 == (year - 1) / 400 + if year % 400 == 0 {
            1int
        } else {
            0
        },
{
}

proof fn lemma_year_grows(a: int, b: int)
    requires
        a <= b,
    ensures
        days_before_year(a) <= days_before_year(b),
    decreases b - a,
{
    if a < b {
        lemma_year_step(a);
        lemma_year_grows(a + 1, b);
    }
}

proof fn lemma_month_grows(year: int, a: int, b: int)
    requires
        1 <= a <= b,
    ensures
        a < b ==> days_before_month(year, a) + month_len(year, a) <= days_before_month(year, b),
        days_before_month(year, a) <= days_before_month(year, b),
        days_before_month(year, a) >= 0,
    decreases b,
{
    if a < b {
        lemma_month_grows(year, a, b - 1);
    } else if a > 1 {
        lemma_month_grows(year, a - 1, a - 1);
    }
}

/// The months make up the year.
pub proof fn lemma_months_of_year(year: int)
    ensures
        days_before_month(year, 12) + 31 == if leap(year) {
            366int
        } else {
            365
        },
        days_before_month(year, 13) == days_before_month(year, 12) + 31,
{
    reveal_with_fuel(days_before_month, 14);
}

/// Later days have larger numbers.
pub proof fn law_days_are_counted_in_order(a: Day, b: Day)
    requires
        a.valid(),
        b.valid(),
    ensures
        a.number() < b.number() <==> a.year < b.year || (a.year == b.year && (a.month < b.month || (
        a.month == b.month && a.day < b.day))),
        a.number() == b.number() <==> a == b,
        first_number() <= a.number() <= last_number(),
{
    lemma_earlier(a, b);
    lemma_earlier(b, a);
    let first = Day { year: -9999i16, month: 1, day: 1 };
    let last = Day { year: 9999, month: 12, day: 31 };
    lemma_earlier(first, a);
    lemma_earlier(a, last);
}

proof fn lemma_earlier(a: Day, b: Day)
    requires
        a.valid(),
        b.valid(),
    ensures
        a.year < b.year || (a.year == b.year && (a.month < b.month || (a.month == b.month && a.day
            < b.day))) ==> a.number() < b.number(),
{
    let (ya, yb) = (a.year as int, b.year as int);
    let (ma, mb) = (a.month as int, b.month as int);
    if ya < yb {
        lemma_year_step(ya);
        lemma_year_grows(ya + 1, yb);
        lemma_months_of_year(ya);
        lemma_month_grows(ya, ma, 13);
        lemma_month_grows(yb, 1, mb);
    } else if ya == yb && ma < mb {
        lemma_month_grows(ya, ma, mb);
    }
}

/// How many days the calendar has.
pub proof fn lemma_calendar_length()
    ensures
        last_number() - first_number() < 7_304_484,
{
    lemma_months_of_year(9999);
    assert(days_before_month(-9999, 1) == 0);
}

/// The day before the first of a month is the last of the month before.
pub proof fn lemma_last_of_month(year: int, month: int, next: Day, last: Day)
    requires
        -9999 <= year <= 9999,
        1 <= month <= 12,
        next.valid(),
        next.day == 1,
        next.year == if month == 12 {
            year + 1
        } else {
            year
        },
        next.month == if month == 12 {
            1
        } else {
            month + 1
        },
        last.valid(),
        last.number() == next.number() - 1,
    ensures
        last.year == year,
        last.month == month,
        last.day == month_len(year, month),
{
    let day = Day { year: year as i16, month: month as i8, day: month_len(year, month) as i8 };
    assert(day.valid());
    lemma_year_step(year);
    lemma_months_of_year(year);
    assert(days_before_month(year + 1, 1) == 0);
    assert(day.number() == next.number() - 1) by {
        if month < 12 {
            assert(days_before_month(year, month + 1) == days_before_month(year, month)
                + month_len(year, month));
        }
    }
    law_days_are_counted_in_order(day, last);
}

} // verus!
