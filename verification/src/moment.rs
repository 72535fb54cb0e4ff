//! Moments as the wall clock shows them.
use crate::civil::{law_days_are_counted_in_order, weekday_of, Day};
use crate::number::{two, two_digits};
use crate::text::concat3;
use vstd::prelude::*;
use vstd::string::*;

verus! {

/// A moment in local time.
#[derive(Clone, Copy, PartialEq, Eq, Structural, Debug)]
pub struct Moment {
    pub year: i16,
    pub month: i8,
    pub day: i8,
    /// Monday is 1, Sunday 7.
    pub weekday: i8,
    pub hour: i8,
    pub minute: i8,
}

impl Moment {
    /// Whether a clock and a calendar can show it.
    pub open spec fn valid(self) -> bool {
        &&& 1 <= self.month <= 12
        &&& 1 <= self.day <= 31
        &&& 1 <= self.weekday <= 7
        &&& 0 <= self.hour < 24
        &&& 0 <= self.minute < 60
    }

    /// The day it falls on.
    pub open spec fn date(self) -> Day {
        Day { year: self.year, month: self.month, day: self.day }
    }

    /// Whether two moments fall on the same day.
    pub open spec fn same_day(self, other: Moment) -> bool {
        self.year == other.year && self.month == other.month && self.day == other.day
    }
}

/// Whether epoch milliseconds are near enough to have a date.
pub open spec fn has_date(ms: int) -> bool {
    -377_705_023_201_000 <= ms <= 253_402_207_200_000
}

/// The furthest that local time is from universal time, in seconds.
pub const MAX_OFFSET: i32 = 93_599;

/// Whether local time can be so many seconds ahead of universal time.
pub open spec fn is_offset(offset: i32) -> bool {
    -MAX_OFFSET <= offset <= MAX_OFFSET
}

/// The number of the first day of 1970.
pub open spec fn epoch() -> int {
    719_163
}

/// Whether a moment is what the wall clock shows that many seconds after the
/// start of 1970, as the wall clock counts them.
pub open spec fn shows(moment: Moment, second: int) -> bool {
    let day = moment.date();
    &&& day.valid()
    &&& day.number() == epoch() + second / 86_400
    &&& moment.weekday == weekday_of(day.number()) + 1
    &&& moment.hour == second % 86_400 / 3_600
    &&& moment.minute == second % 3_600 / 60
}

/// What the wall clock shows that many seconds after the start of 1970.
pub open spec fn shown_at(second: int) -> Moment {
    choose|moment: Moment| shows(moment, second)
}

/// The local time at an epoch millisecond, so many seconds ahead of universal
/// time; none where it has no date.
pub open spec fn local_at(ms: int, offset: i32) -> Option<Moment> {
    if has_date(ms) && is_offset(offset) {
        Some(shown_at(ms / 1000 + offset))
    } else {
        None
    }
}

/// `jiff::Timestamp::from_millisecond`, then `jiff::tz::Offset::to_datetime`:
/// there is a moment exactly for the milliseconds jiff's timestamps reach and
/// for the offsets it knows, and it is the day and the time of day that many
/// seconds from the start of 1970, moved by the offset.
#[verifier::external_body]
fn datetime(ms: i64, offset: i32) -> (r: Option<Moment>)
    ensures
        r is Some == (has_date(ms as int) && is_offset(offset)),
        r matches Some(moment) ==> shows(moment, ms as int / 1000 + offset),
{
    let at = jiff::Timestamp::from_millisecond(ms).ok()?;
    let at = jiff::tz::Offset::from_seconds(offset).ok()?.to_datetime(at);
    Some(Moment {
        year: at.year(),
        month: at.month(),
        day: at.day(),
        weekday: at.weekday().to_monday_one_offset(),
        hour: at.hour(),
        minute: at.minute(),
    })
}

/// The wall clock shows one moment at a time, and one that exists.
pub proof fn law_the_wall_clock_shows_one_moment(a: Moment, second: int)
    requires
        shows(a, second),
    ensures
        shown_at(second) == a,
        a.valid(),
{
    let b = shown_at(second);
    assert(shows(b, second));
    law_days_are_counted_in_order(a.date(), b.date());
}

/// The local time at an epoch millisecond, so many seconds ahead of universal
/// time.
pub fn local(ms: i64, offset: i32) -> (r: Option<Moment>)
    ensures
        r == local_at(ms as int, offset),
        r matches Some(moment) ==> moment.valid(),
{
    let r = datetime(ms, offset);
    proof {
        if let Some(moment) = r {
            law_the_wall_clock_shows_one_moment(moment, ms as int / 1000 + offset);
        }
    }
    r
}

/// The first three letters of a weekday's name.
pub open spec fn weekday_short(weekday: int) -> Seq<char> {
    if weekday == 1 {
        "Mon"@
    } else if weekday == 2 {
        "Tue"@
    } else if weekday == 3 {
        "Wed"@
    } else if weekday == 4 {
        "Thu"@
    } else if weekday == 5 {
        "Fri"@
    } else if weekday == 6 {
        "Sat"@
    } else {
        "Sun"@
    }
}

pub fn short_weekday(weekday: i8) -> (r: &'static str)
    ensures
        r@ == weekday_short(weekday as int),
{
    if weekday == 1 {
        "Mon"
    } else if weekday == 2 {
        "Tue"
    } else if weekday == 3 {
        "Wed"
    } else if weekday == 4 {
        "Thu"
    } else if weekday == 5 {
        "Fri"
    } else if weekday == 6 {
        "Sat"
    } else {
        "Sun"
    }
}

/// The first three letters of a month's name.
pub open spec fn month_short(month: int) -> Seq<char> {
    if month == 1 {
        "Jan"@
    } else if month == 2 {
        "Feb"@
    } else if month == 3 {
        "Mar"@
    } else if month == 4 {
        "Apr"@
    } else if month == 5 {
        "May"@
    } else if month == 6 {
        "Jun"@
    } else if month == 7 {
        "Jul"@
    } else if month == 8 {
        "Aug"@
    } else if month == 9 {
        "Sep"@
    } else if month == 10 {
        "Oct"@
    } else if month == 11 {
        "Nov"@
    } else {
        "Dec"@
    }
}

pub fn short_month(month: i8) -> (r: &'static str)
    ensures
        r@ == month_short(month as int),
{
    if month == 1 {
        "Jan"
    } else if month == 2 {
        "Feb"
    } else if month == 3 {
        "Mar"
    } else if month == 4 {
        "Apr"
    } else if month == 5 {
        "May"
    } else if month == 6 {
        "Jun"
    } else if month == 7 {
        "Jul"
    } else if month == 8 {
        "Aug"
    } else if month == 9 {
        "Sep"
    } else if month == 10 {
        "Oct"
    } else if month == 11 {
        "Nov"
    } else {
        "Dec"
    }
}

/// `14:02`.
pub open spec fn time_of_day(moment: Moment) -> Seq<char> {
    two_digits(moment.hour as nat) + ":"@ + two_digits(moment.minute as nat)
}

/// `14:02` on the day of `today`, `Mon 14:02` on another; nothing where either
/// has no date.
pub open spec fn clock_text(at: Option<Moment>, today: Option<Moment>) -> Seq<char> {
    match (at, today) {
        (Some(at), Some(today)) => if at.same_day(today) {
            time_of_day(at)
        } else {
            weekday_short(at.weekday as int) + " "@ + time_of_day(at)
        },
        _ => Seq::empty(),
    }
}

pub fn clock_at(at: Option<Moment>, today: Option<Moment>) -> (r: String)
    requires
        at matches Some(moment) ==> moment.valid(),
    ensures
        r@ == clock_text(at, today),
{
    match (at, today) {
        (Some(at), Some(today)) => {
            let hour = two(at.hour as u64);
            let minute = two(at.minute as u64);
            let time = concat3(hour.as_str(), ":", minute.as_str());
            if at.year == today.year && at.month == today.month && at.day == today.day {
                time
            } else {
                concat3(short_weekday(at.weekday), " ", time.as_str())
            }
        },
        _ => String::new(),
    }
}

/// When something happened, as epoch milliseconds: `14:02` today,
/// `Mon 14:02` before, which does not need a clock ticking the way `12m ago`
/// would. The offsets are how far local time was ahead of universal time then,
/// and is now.
pub fn clock(ms: i64, offset: i32, now: i64, now_offset: i32) -> (r: String)
    ensures
        r@ == clock_text(local_at(ms as int, offset), local_at(now as int, now_offset)),
{
    let at = local(ms, offset);
    let today = local(now, now_offset);
    clock_at(at, today)
}

} // verus!
