//! What holds of the calendar: its days, its months and what is shown of them.
use crate::calendar::{
    clock_text as agenda_clock, events_of, falls_on, is_listed, query_text, stamp_text, time_text,
    title_of, Listed, Occurrence, Window,
};
use crate::civil::{
    days_before_month, days_before_year, iso_week_of, iso_year, last_number, leap, lemma_months_of_year,
    lemma_year_step, month_len, weekday_index, weekday_of, Day, Weekday,
};
use crate::modules::date::{
    after, grid_day, grid_start, grid_weeks, is_offset, month_days, month_text, numeric_of, picked,
    relative_of, shifted, status_of, synced, weekday_name, Calendar, Event, State,
};
use crate::moment::{clock_text, epoch, month_short, shows, weekday_short, Moment};
use crate::number::{decimal, two_digits};
use crate::order::{in_line, law_sorting_sorts, orders_by_key, Ranked};
use crate::text::{lemma_text_order_total, lemma_text_order_transitive, text_before};
use vstd::prelude::*;
use vstd::string::*;

verus! {

/// A year is as long as its months, a day longer every fourth year but for three
/// in four hundred.
pub proof fn law_a_year_is_as_long_as_its_months(year: int)
    ensures
        days_before_year(year + 1) - days_before_year(year) == if leap(year) {
            366
        } else {
            365int
        },
        month_len(year, 1) + month_len(year, 2) + month_len(year, 3) + month_len(year, 4)
            + month_len(year, 5) + month_len(year, 6) + month_len(year, 7) + month_len(year, 8)
            + month_len(year, 9) + month_len(year, 10) + month_len(year, 11) + month_len(year, 12)
            == days_before_year(year + 1) - days_before_year(year),
        days_before_year(year + 400) - days_before_year(year) == 146_097,
        year % 4 != 0 ==> !leap(year),
        year % 4 == 0 && year % 100 != 0 ==> leap(year),
        year % 100 == 0 ==> (leap(year) <==> year % 400 == 0),
        month_len(year, 2) == 29 <==> leap(year),
        month_len(year, 1) == 31 && month_len(year, 3) == 31 && month_len(year, 4) == 30
            && month_len(year, 5) == 31 && month_len(year, 6) == 30 && month_len(year, 7) == 31
            && month_len(year, 8) == 31 && month_len(year, 9) == 30 && month_len(year, 10) == 31
            && month_len(year, 11) == 30 && month_len(year, 12) == 31,
{
    lemma_year_step(year);
    lemma_four_centuries(year);
}

proof fn lemma_four_centuries(year: int)
    ensures
        days_before_year(year + 400) - days_before_year(year) == 146_097,
{
    let n = year - 1;
    assert((n + 400) / 4 == n / 4 + 100);
    assert((n + 400) / 100 == n / 100 + 4);
    assert((n + 400) / 400 == n / 400 + 1);
}

/// The day after a day is the next one: of the month, or the first of the next
/// month, or the first of the next year.
pub proof fn law_days_follow_each_other(a: Day, b: Day)
    requires
        a.valid(),
        b.valid(),
        (a.year == b.year && a.month == b.month && b.day == a.day + 1) || (a.year == b.year
            && b.month == a.month + 1 && b.day == 1 && a.day == month_len(
            a.year as int,
            a.month as int,
        )) || (b.year == a.year + 1 && a.month == 12 && a.day == 31 && b.month == 1 && b.day == 1),
    ensures
        b.number() == a.number() + 1,
        weekday_of(b.number()) == (weekday_of(a.number()) + 1) % 7,
{
    if a.year != b.year {
        lemma_year_step(a.year as int);
        lemma_months_of_year(a.year as int);
    }
    assert(b.number() == a.number() + 1);
}

/// Days are counted from the first of January of the first year, a Monday, and
/// the epoch is the first of January of 1970, a Thursday.
pub proof fn law_days_are_counted_from_a_monday(weekday: Weekday)
    ensures
        (Day { year: 1, month: 1, day: 1 }).number() == 1,
        weekday_of(1) == weekday_index(Weekday::Monday),
        (Day { year: 1970, month: 1, day: 1 }).number() == epoch(),
        weekday_of(epoch()) == weekday_index(Weekday::Thursday),
        weekday == Weekday::Monday ==> weekday_name(weekday) == "Monday"@ && weekday_index(weekday)
            == 0,
        weekday == Weekday::Tuesday ==> weekday_name(weekday) == "Tuesday"@ && weekday_index(
            weekday,
        ) == 1,
        weekday == Weekday::Wednesday ==> weekday_name(weekday) == "Wednesday"@ && weekday_index(
            weekday,
        ) == 2,
        weekday == Weekday::Thursday ==> weekday_name(weekday) == "Thursday"@ && weekday_index(
            weekday,
        ) == 3,
        weekday == Weekday::Friday ==> weekday_name(weekday) == "Friday"@ && weekday_index(weekday)
            == 4,
        weekday == Weekday::Saturday ==> weekday_name(weekday) == "Saturday"@ && weekday_index(
            weekday,
        ) == 5,
        weekday == Weekday::Sunday ==> weekday_name(weekday) == "Sunday"@ && weekday_index(weekday)
            == 6,
{
    reveal_with_fuel(days_before_month, 2);
}

/// A week goes by the year that its Thursday is in, and the fourth of January is
/// in the first.
pub proof fn law_the_fourth_of_january_is_in_the_first_week(year: i16)
    requires
        -9999 <= year <= 9999,
    ensures
        iso_week_of(Day { year, month: 1, day: 4 }) == 1,
{
    reveal_with_fuel(days_before_month, 2);
    lemma_year_step(year as int);
    lemma_year_step(year - 1);
}

/// Days of one week are in one week, and the week after it is the next, but for
/// the turn of the year.
pub proof fn law_weeks_run_from_monday_to_sunday(a: Day, b: Day)
    requires
        a.valid(),
        b.valid(),
        a.year == b.year,
        a.month == b.month,
        5 <= a.day <= 21,
        b.day == a.day + 7,
        2 <= a.month <= 11,
    ensures
        iso_week_of(b) == iso_week_of(a) + 1,
{
    lemma_year_step(a.year as int);
    lemma_month_starts(a.year as int, a.month as int);
    let y = a.year as int;
    let n = a.number();
    assert(b.number() == n + 7);
    lemma_week_on(n);
    let thursday = n - weekday_of(n) + 3;
    assert(iso_year(n, y) == y && iso_year(n + 7, y) == y);
    lemma_sevenths(thursday - days_before_year(y) - 1);
}

proof fn lemma_month_starts(year: int, month: int)
    requires
        1 <= month,
    ensures
        28 * (month - 1) <= days_before_month(year, month) <= 31 * (month - 1),
    decreases month,
{
    if month > 1 {
        lemma_month_starts(year, month - 1);
    }
}

proof fn lemma_week_on(n: int)
    ensures
        weekday_of(n + 7) == weekday_of(n),
        0 <= weekday_of(n) < 7,
{
}

proof fn lemma_sevenths(n: int)
    ensures
        (n + 7) / 7 == n / 7 + 1,
{
}

/// A move by months goes that many months on, to the first of it; a move back
/// comes back to the month it started from.
pub proof fn law_months_are_moved_by_as_many(date: Day, months: int)
    requires
        date.valid(),
        -9999 <= (date.year * 12 + date.month - 1 + months) / 12 <= 9999,
    ensures
        ({
            let there = shifted(date, months);
            &&& there.valid()
            &&& there.year * 12 + there.month == date.year * 12 + date.month + months
            &&& there.day == 1
            &&& shifted(there, -months).year == date.year
            &&& shifted(there, -months).month == date.month
        }),
{
    let total = date.year * 12 + date.month - 1 + months;
    let there = shifted(date, months);
    assert(total / 12 * 12 + total % 12 == total);
    assert(there.year * 12 + there.month - 1 == total);
}

/// The arrows move by one month, back and on, and keep the day as far as the
/// month has it.
pub proof fn law_arrows_move_by_one_month(s: State)
    requires
        s.valid(),
        -9999 < s.calendar.visible.year < 9999,
    ensures
        ({
            let v = s.calendar.visible;
            let on = after(s, Event::NextMonth).calendar.visible;
            let back = after(s, Event::PrevMonth).calendar.visible;
            let day = s.calendar.selected.day;
            &&& on.year * 12 + on.month == v.year * 12 + v.month + 1
            &&& back.year * 12 + back.month == v.year * 12 + v.month - 1
            &&& on.day <= day && back.day <= day
            &&& day <= 28 ==> on.day == day && back.day == day
            &&& after(s, Event::NextMonth).calendar.selected == on
            &&& after(s, Event::PrevMonth).calendar.selected == back
            &&& after(s, Event::NextMonth).error == s.error
            &&& !after(s, Event::NextMonth).follows_selected_day
            &&& !after(s, Event::PrevMonth).follows_visible_day
            &&& after(s, Event::NextMonth).copied is None
        }),
{
    let v = s.calendar.visible;
    let (up, down) = (v.year * 12 + v.month - 1 + 1, v.year * 12 + v.month - 1 - 1);
    assert(up / 12 * 12 + up % 12 == up);
    assert(down / 12 * 12 + down % 12 == down);
}

/// What was picked is selected, and shown where it is of another month; what was
/// copied or opened stays as it was selected.
pub proof fn law_picks_are_selected(s: State, event: Event)
    ensures
        event matches Event::Select(date) ==> {
            let t = after(s, event);
            &&& t.calendar.selected == date
            &&& t.calendar.visible.year == date.year && t.calendar.visible.month == date.month
            &&& t.calendar.visible == s.calendar.visible || t.calendar.visible == date
            &&& t.copied is None && !t.follows_selected_day && !t.follows_visible_day
            &&& t.error == s.error
        },
        event matches Event::Today(today) ==> {
            let t = after(s, event);
            &&& t.calendar.selected == today && t.calendar.visible == today
            &&& t.follows_selected_day && t.follows_visible_day
            &&& t.copied is None && t.error == s.error
        },
        event matches Event::Copy(date) ==> after(s, event) == (State { copied: Some(date), ..s }),
        event is Open ==> after(s, event) == (State { error: None, ..s }),
        event matches Event::Opened(Ok(_)) ==> after(s, event) == s,
        event matches Event::Opened(Err(error)) ==> after(s, event) == (State {
            error: Some(error),
            ..s
        }),
{
}

/// What follows the day goes with it, and what does not stays.
pub proof fn law_only_what_follows_the_day_goes_with_it(s: State, today: Day)
    ensures
        s.follows_selected_day ==> synced(s, today).calendar.selected == today,
        !s.follows_selected_day ==> synced(s, today).calendar.selected == s.calendar.selected,
        s.follows_visible_day ==> synced(s, today).calendar.visible == today,
        !s.follows_visible_day ==> synced(s, today).calendar.visible == s.calendar.visible,
        synced(s, today).copied == s.copied,
        synced(s, today).error == s.error,
        synced(s, today).follows_selected_day == s.follows_selected_day,
        synced(s, today).follows_visible_day == s.follows_visible_day,
{
}

/// The grid of a month starts with a Monday, at most six days before the month
/// does, and its weeks hold all of the month and not one more.
pub proof fn law_the_grid_holds_its_month(visible: Day)
    requires
        visible.valid(),
        visible.year < 9999,
    ensures
        ({
            let first = Day { day: 1, ..visible };
            let len = month_len(visible.year as int, visible.month as int);
            let end = grid_start(visible) + 7 * grid_weeks(visible);
            &&& weekday_of(grid_start(visible)) == 0
            &&& grid_start(visible) <= first.number() < grid_start(visible) + 7
            &&& first.number() + len <= end
            &&& end < first.number() + len + 7
        }),
{
}

/// A day of the grid is marked for what it is.
pub proof fn law_days_are_marked_for_what_they_are(date: Day, calendar: Calendar, today: Day)
    ensures
        ({
            let d = grid_day(date, calendar, today);
            &&& d.date == date
            &&& d.in_month <==> date.year == calendar.visible.year && date.month
                == calendar.visible.month
            &&& d.selected <==> date == calendar.selected
            &&& d.today <==> date == today
        }),
{
}

/// A day of the month is picked as it is where the month has it, else the last.
pub proof fn law_a_day_is_picked_within_its_month(month: Day, day: i8)
    requires
        month.valid(),
        month.year < 9999,
        day >= 1,
    ensures
        ({
            let len = month_len(month.year as int, month.month as int);
            &&& picked(month, day).year == month.year && picked(month, day).month == month.month
            &&& day <= len ==> picked(month, day).day == day
            &&& day > len ==> picked(month, day).day == len
            &&& month_days(month) == len
        }),
{
}

/// Days are told by how far they are, in the right direction.
pub proof fn law_days_are_told_by_how_far_they_are(days: int)
    ensures
        days == 0 ==> relative_of(days) == "today"@,
        days == 1 ==> relative_of(days) == "tomorrow"@,
        days == -1 ==> relative_of(days) == "yesterday"@,
        days > 1 ==> relative_of(days) == "in "@ + decimal(days as nat) + " days"@,
        days < -1 ==> relative_of(days) == decimal((-days) as nat) + " days ago"@,
{
}

/// Months are told by their own names.
pub proof fn law_months_have_their_own_names(month: int)
    ensures
        month == 1 ==> month_text(month) == "January"@ && month_short(month) == "Jan"@,
        month == 2 ==> month_text(month) == "February"@ && month_short(month) == "Feb"@,
        month == 3 ==> month_text(month) == "March"@ && month_short(month) == "Mar"@,
        month == 4 ==> month_text(month) == "April"@ && month_short(month) == "Apr"@,
        month == 5 ==> month_text(month) == "May"@ && month_short(month) == "May"@,
        month == 6 ==> month_text(month) == "June"@ && month_short(month) == "Jun"@,
        month == 7 ==> month_text(month) == "July"@ && month_short(month) == "Jul"@,
        month == 8 ==> month_text(month) == "August"@ && month_short(month) == "Aug"@,
        month == 9 ==> month_text(month) == "September"@ && month_short(month) == "Sep"@,
        month == 10 ==> month_text(month) == "October"@ && month_short(month) == "Oct"@,
        month == 11 ==> month_text(month) == "November"@ && month_short(month) == "Nov"@,
        month == 12 ==> month_text(month) == "December"@ && month_short(month) == "Dec"@,
{
}

/// A day in numbers is the day, the month and the year, in that order.
pub proof fn law_dates_are_told_by_day_month_and_year(date: Day)
    requires
        date.valid(),
        date.year >= 1000,
    ensures
        numeric_of(date).len() == 10,
        numeric_of(date).take(2) == two_digits(date.day as nat),
        numeric_of(date).subrange(3, 5) == two_digits(date.month as nat),
        numeric_of(date).skip(6) == decimal(date.year as nat),
        numeric_of(date)[2] == '-' && numeric_of(date)[5] == '-',
{
    reveal_strlit("-");
    let (d, m, y) = (
        two_digits(date.day as nat),
        two_digits(date.month as nat),
        decimal(date.year as nat),
    );
    lemma_two(date.day as nat);
    lemma_two(date.month as nat);
    lemma_four(date.year as nat);
    assert(numeric_of(date) =~= d + "-"@ + m + "-"@ + y);
    assert(numeric_of(date).take(2) =~= d);
    assert(numeric_of(date).subrange(3, 5) =~= m);
    assert(numeric_of(date).skip(6) =~= y);
}

proof fn lemma_two(n: nat)
    requires
        n < 100,
    ensures
        two_digits(n).len() == 2,
{
    reveal_with_fuel(decimal, 3);
}

proof fn lemma_four(n: nat)
    requires
        1000 <= n < 10_000,
    ensures
        decimal(n).len() == 4,
{
    reveal_with_fuel(decimal, 5);
}

/// What is said of the selected day: that it was copied where it was that day,
/// else how far it is.
pub proof fn law_the_status_tells_of_the_selected_day(s: State, today: Day)
    ensures
        s.copied == Some(s.calendar.selected) ==> "copied to clipboard"@.is_prefix_of(
            status_of(s, today),
        ),
        s.copied is None ==> relative_of(
            s.calendar.selected.number() - today.number(),
        ).is_prefix_of(status_of(s, today)),
{
    let told = relative_of(s.calendar.selected.number() - today.number());
    let text = status_of(s, today);
    if s.copied is None {
        assert(text.take(told.len() as int) =~= told);
    }
    if s.copied == Some(s.calendar.selected) {
        assert(text.take("copied to clipboard"@.len() as int) =~= "copied to clipboard"@);
    }
}

/// The wall clock shows the hour and the minute of its second, and a day later
/// the same ones.
pub proof fn law_the_wall_clock_shows_its_second(moment: Moment, second: int)
    requires
        shows(moment, second),
    ensures
        moment.date().valid(),
        0 <= moment.hour < 24,
        0 <= moment.minute < 60,
        0 <= second - (moment.date().number() - epoch()) * 86_400 - moment.hour * 3_600
            - moment.minute * 60 < 60,
        moment.weekday == weekday_of(moment.date().number()) + 1,
{
    lemma_clock(second);
}

proof fn lemma_clock(second: int)
    ensures
        ({
            let (day, hour, minute) = (
                second / 86_400,
                second % 86_400 / 3_600,
                second % 3_600 / 60,
            );
            &&& 0 <= hour < 24
            &&& 0 <= minute < 60
            &&& 0 <= second - day * 86_400 - hour * 3_600 - minute * 60 < 60
        }),
{
    vstd::arithmetic::div_mod::lemma_mod_mod(second, 3_600, 24);
    let left = second % 86_400;
    let over = left % 3_600;
    assert(second == second / 86_400 * 86_400 + left);
    assert(left == left / 3_600 * 3_600 + over);
    assert(over == over / 60 * 60 + over % 60);
}

/// A time of today is told by the clock alone, another with its weekday.
pub proof fn law_times_are_told_with_their_day(at: Moment, today: Moment)
    ensures
        at.year == today.year && at.month == today.month && at.day == today.day ==> clock_text(
            Some(at),
            Some(today),
        ) == two_digits(at.hour as nat) + ":"@ + two_digits(at.minute as nat),
        !(at.year == today.year && at.month == today.month && at.day == today.day) ==> clock_text(
            Some(at),
            Some(today),
        ) == weekday_short(at.weekday as int) + " "@ + (two_digits(at.hour as nat) + ":"@
            + two_digits(at.minute as nat)),
        clock_text(None, Some(today)).len() == 0,
        clock_text(Some(at), None).len() == 0,
{
}

/// Weekdays are told by their own short names, Monday first.
pub proof fn law_weekdays_have_their_own_short_names(weekday: int)
    ensures
        weekday == 1 ==> weekday_short(weekday) == "Mon"@,
        weekday == 2 ==> weekday_short(weekday) == "Tue"@,
        weekday == 3 ==> weekday_short(weekday) == "Wed"@,
        weekday == 4 ==> weekday_short(weekday) == "Thu"@,
        weekday == 5 ==> weekday_short(weekday) == "Fri"@,
        weekday == 6 ==> weekday_short(weekday) == "Sat"@,
        weekday == 7 ==> weekday_short(weekday) == "Sun"@,
{
}

/// What overlaps the window is listed and what does not is not; what has no
/// length is listed where it starts within it.
pub proof fn law_listed_is_what_overlaps(o: Occurrence, w: Window)
    requires
        w.start < w.end,
        o.first <= o.last,
    ensures
        o.cancelled || !o.dated ==> !is_listed(o, w),
        o.last < w.start || o.first >= w.end ==> !is_listed(o, w),
        o.first < o.last && o.last <= w.start ==> !is_listed(o, w),
        !o.cancelled && o.dated && w.start <= o.first < w.end ==> is_listed(o, w),
        !o.cancelled && o.dated && o.first < w.start && w.start < o.last ==> is_listed(o, w),
{
}

/// The windows of two days in a row list whatever falls on either, and what has
/// no length on one of them only.
pub proof fn law_days_share_no_moment(first: i64, start: i64, middle: i64, end: i64)
    requires
        start <= middle <= end,
    ensures
        !(falls_on(first, first, start, middle) && falls_on(first, first, middle, end)),
        start <= first < end ==> falls_on(first, first, start, middle) || falls_on(
            first,
            first,
            middle,
            end,
        ),
{
}

/// A time is told from its start to its end, all day where it is that, and by its
/// start alone where it has no length.
pub proof fn law_times_run_from_start_to_end(o: Occurrence, first: Moment, last: Moment, date: Day)
    ensures
        o.all_day ==> time_text(o, first, last, date) == "All day"@,
        !o.all_day && o.first == o.last ==> time_text(o, first, last, date) == agenda_clock(
            first,
            date,
        ),
        !o.all_day && o.first != o.last ==> time_text(o, first, last, date) == agenda_clock(
            first,
            date,
        ) + "–"@ + agenda_clock(last, date),
        first.date() == date ==> agenda_clock(first, date) == two_digits(first.hour as nat) + ":"@
            + two_digits(first.minute as nat),
        first.date() != date ==> agenda_clock(first, date) == month_short(first.month as int)
            + " "@ + two_digits(first.day as nat) + " "@ + (two_digits(first.hour as nat) + ":"@
            + two_digits(first.minute as nat)),
        o.summary matches Some(summary) ==> title_of(o) == summary@,
        o.summary is None ==> title_of(o) == "Untitled event"@,
{
}

/// What is told of a day comes in the order it happens.
pub proof fn law_what_starts_first_is_told_first(listed: Seq<Listed>, i: int, j: int)
    requires
        0 <= i < j < in_line(listed).len(),
    ensures
        ({
            let (a, b) = (in_line(listed)[i], in_line(listed)[j]);
            &&& a.first <= b.first
            &&& a.first == b.first ==> a.last <= b.last
            &&& events_of(in_line(listed))[i] == a.event
        }),
{
    lemma_listed_order();
    law_sorting_sorts(listed);
    assert(!in_line(listed)[j].precedes(&in_line(listed)[i]));
}

proof fn lemma_listed_order()
    ensures
        orders_by_key::<Listed>(),
{
    assert forall|a: Listed, b: Listed| #[trigger] a.precedes(&b) implies !b.precedes(&a) by {
        lemma_text_order_total(a.event.title@, b.event.title@);
    }
    assert forall|a: Listed, b: Listed, c: Listed|
        #![trigger a.precedes(&b), b.precedes(&c)]
        !a.precedes(&b) && !b.precedes(&c) implies !a.precedes(&c) by {
        let (x, y, z) = (a.event.title@, b.event.title@, c.event.title@);
        lemma_text_order_total(x, y);
        lemma_text_order_total(y, z);
        lemma_text_order_total(x, z);
        if x != y && y != z && text_before(z, y) && text_before(y, x) {
            lemma_text_order_transitive(z, y, x);
        }
    }
}

/// A query asks for what is between its two times, the earlier before the later.
pub proof fn law_queries_ask_from_and_to(from: Seq<char>, to: Seq<char>)
    ensures
        query_text(from, to) == "(occur-in-time-range? (make-time \""@ + from
            + "\") (make-time \""@ + to + "\"))"@,
{
}

/// A stamp is the day and the time of its second: year, month, day, then hour,
/// minute and second.
pub proof fn law_stamps_hold_day_and_time(day: Day, hour: int, minute: int, second: int)
    requires
        day.valid(),
        day.year >= 0,
        0 <= hour < 24,
        0 <= minute < 60,
        0 <= second < 60,
    ensures
        ({
            let stamp = stamp_text(day, hour * 3600 + minute * 60 + second);
            &&& stamp.len() == 16
            &&& stamp.subrange(4, 6) == two_digits(day.month as nat)
            &&& stamp.subrange(6, 8) == two_digits(day.day as nat)
            &&& stamp[8] == 'T' && stamp[15] == 'Z'
            &&& stamp.subrange(9, 11) == two_digits(hour as nat)
            &&& stamp.subrange(11, 13) == two_digits(minute as nat)
            &&& stamp.subrange(13, 15) == two_digits(second as nat)
            &&& stamp.take(2) == two_digits((day.year / 100) as nat)
            &&& stamp.subrange(2, 4) == two_digits((day.year % 100) as nat)
        }),
{
    reveal_strlit("T");
    reveal_strlit("Z");
    let all = hour * 3600 + minute * 60 + second;
    assert(all / 3600 == hour);
    assert(all % 3600 == minute * 60 + second);
    assert((minute * 60 + second) / 60 == minute);
    assert(all % 60 == second);
    lemma_two((day.year / 100) as nat);
    lemma_two((day.year % 100) as nat);
    lemma_two(day.month as nat);
    lemma_two(day.day as nat);
    lemma_two(hour as nat);
    lemma_two(minute as nat);
    lemma_two(second as nat);
    let stamp = stamp_text(day, all);
    assert(stamp.subrange(4, 6) =~= two_digits(day.month as nat));
    assert(stamp.subrange(6, 8) =~= two_digits(day.day as nat));
    assert(stamp.subrange(9, 11) =~= two_digits(hour as nat));
    assert(stamp.subrange(11, 13) =~= two_digits(minute as nat));
    assert(stamp.subrange(13, 15) =~= two_digits(second as nat));
    assert(stamp.take(2) =~= two_digits((day.year / 100) as nat));
    assert(stamp.subrange(2, 4) =~= two_digits((day.year % 100) as nat));
}

/// The last month there is counts its days from the first, or the days before the
/// one it is seen from.
pub proof fn law_the_last_month_is_counted_from_where_it_is_seen(month: Day)
    requires
        month.valid(),
        month.year == 9999,
        month.month == 12,
    ensures
        month.day == 1 ==> month_days(month) == 30,
        month.day > 1 ==> month_days(month) == month.day - 1,
{
}

/// The days of a grid follow each other from its first.
pub proof fn law_days_of_a_grid_follow_each_other(a: Day, b: Day, first: int, offset: int)
    requires
        is_offset(a, first, offset),
        is_offset(b, first, offset + 1),
        first + offset + 1 <= last_number(),
    ensures
        a.valid() && b.valid(),
        a.number() == first + offset,
        b.number() == a.number() + 1,
{
}

/// A week goes by the year that its Thursday is in, and is numbered by how many
/// weeks of it have gone.
pub proof fn law_weeks_go_by_their_thursday(day: Day)
    requires
        day.valid(),
    ensures
        ({
            let n = day.number();
            let thursday = n - weekday_of(n) + 3;
            let year = iso_year(n, day.year as int);
            &&& days_before_year(year) < thursday <= days_before_year(year + 1)
            &&& day.year - 1 <= year <= day.year + 1
            &&& 7 * (iso_week_of(day) - 1) < thursday - days_before_year(year) <= 7 * iso_week_of(
                day,
            )
        }),
{
    let y = day.year as int;
    lemma_year_step(y - 1);
    lemma_year_step(y);
    lemma_year_step(y + 1);
    lemma_months_of_year(y);
    lemma_within_year(y, day.month as int, day.day as int);
    lemma_week_on(day.number());
    let n = day.number();
    let thursday = n - weekday_of(n) + 3;
    let year = iso_year(n, y);
    lemma_counted_in_sevens(thursday - days_before_year(year) - 1);
}

proof fn lemma_counted_in_sevens(n: int)
    ensures
        7 * (n / 7) <= n < 7 * (n / 7) + 7,
{
}

proof fn lemma_within_year(year: int, month: int, day: int)
    requires
        1 <= month <= 12,
        1 <= day <= month_len(year, month),
    ensures
        1 <= days_before_month(year, month) + day <= days_before_month(year, 13),
    decreases 13 - month,
{
    lemma_month_starts(year, month);
    if month < 12 {
        lemma_within_year(year, month + 1, 1);
        assert(days_before_month(year, month + 1) == days_before_month(year, month) + month_len(
            year,
            month,
        ));
    } else {
        lemma_months_of_year(year);
    }
}

} // verus!
