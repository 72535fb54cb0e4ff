//! Date, with a calendar in its popup.
use crate::civil::{
    add_days, add_months, days_between, first_number, iso_week, iso_week_of,
    law_days_are_counted_in_order, last_number, lemma_calendar_length, lemma_last_of_month,
    month_len, weekday_index, weekday_of, with_day, Day, Weekday,
};
use crate::number::{decimal, signed, signed_decimal, two, two_digits, unsigned};
use crate::text::{concat, concat3, concat4, opt_text};
use vstd::prelude::*;
use vstd::string::*;

verus! {

#[derive(Debug)]
pub enum Event {
    PrevMonth,
    NextMonth,
    Select(Day),
    Today(Day),
    Copy(Day),
    Open(Day),
    Opened(Result<(), String>),
}

/// The day that is picked, and a day of the month that is shown.
#[derive(Clone, Copy, PartialEq, Eq, Structural, Debug)]
pub struct Calendar {
    pub selected: Day,
    pub visible: Day,
}

#[derive(Debug, Clone)]
pub struct State {
    pub calendar: Calendar,
    pub follows_selected_day: bool,
    pub follows_visible_day: bool,
    pub copied: Option<Day>,
    pub error: Option<String>,
}

/// What is to be done about an event.
#[derive(Debug, Clone)]
pub enum Effect {
    Nothing,
    /// Put a text on the clipboard.
    Copy(String),
    /// Start the calendar application on a day.
    Open(Day),
    ClosePopup,
}

/// The first of the month so many months later; the date itself where the
/// calendar does not reach that far.
pub open spec fn shifted(date: Day, months: int) -> Day {
    let total = date.year * 12 + date.month - 1 + months;
    let (year, month) = (total / 12, total % 12 + 1);
    if -9999 <= year <= 9999 {
        Day { year: year as i16, month: month as i8, day: 1 }
    } else {
        date
    }
}

pub fn shift_month(date: Day, months: i32) -> (r: Day)
    requires
        date.valid(),
        -239_976 <= months <= 239_976,
    ensures
        r == shifted(date, months as int),
        r.valid(),
{
    let first = match with_day(date, 1) {
        Some(first) => first,
        None => date,
    };
    match add_months(first, months) {
        Some(day) => day,
        None => date,
    }
}

/// The days of a month, taken from the day before the next one starts. The last
/// month of the calendar has none after it, and counts to the day before `month`.
pub open spec fn month_days(month: Day) -> int {
    if month.year < 9999 || month.month < 12 {
        month_len(month.year as int, month.month as int)
    } else if month.day == 1 {
        month_len(9999, 11)
    } else {
        month.day - 1
    }
}

pub fn days_in_month(month: Day) -> (r: usize)
    requires
        month.valid(),
    ensures
        r == month_days(month),
        1 <= r <= 31,
{
    let next = shift_month(month, 1);
    let last = match add_days(next, -1) {
        Some(day) => day,
        None => month,
    };
    proof {
        law_days_are_counted_in_order(next, Day { year: -9999i16, month: 1, day: 1 });
        if month.year < 9999 || month.month < 12 {
            lemma_last_of_month(month.year as int, month.month as int, next, last);
        } else if month.day == 1 {
            lemma_last_of_month(9999, 11, next, last);
        } else {
            law_days_are_counted_in_order(last, Day { day: (month.day - 1) as i8, ..month });
        }
    }
    last.day as usize
}

/// The day of a month, or its last where it is shorter.
pub open spec fn picked(month: Day, day: i8) -> Day {
    let n = if day < month_days(month) {
        day as int
    } else {
        month_days(month)
    };
    if 1 <= n <= month_len(month.year as int, month.month as int) {
        Day { day: n as i8, ..month }
    } else {
        month
    }
}

pub fn select_in_month(month: Day, day: i8) -> (r: Day)
    requires
        month.valid(),
    ensures
        r == picked(month, day),
        r.valid(),
{
    let days: usize = days_in_month(month);
    let n: i8 = if (day as isize) < days as isize {
        day
    } else {
        days as i8
    };
    match with_day(month, n) {
        Some(date) => date,
        None => month,
    }
}

/// Where a month's grid starts, and how many weeks it takes: from the Monday on
/// or before its first, as many weeks as it has days in.
pub open spec fn grid_weeks(visible: Day) -> int {
    let first = Day { day: 1, ..visible };
    (weekday_of(first.number()) + month_days(first) + 6) / 7
}

/// The Monday on or before the first of the month.
pub open spec fn grid_start(visible: Day) -> int {
    let first = Day { day: 1, ..visible };
    first.number() - weekday_of(first.number())
}

fn index_of(weekday: Weekday) -> (r: i32)
    ensures
        r == weekday_index(weekday),
{
    match weekday {
        Weekday::Monday => 0,
        Weekday::Tuesday => 1,
        Weekday::Wednesday => 2,
        Weekday::Thursday => 3,
        Weekday::Friday => 4,
        Weekday::Saturday => 5,
        Weekday::Sunday => 6,
    }
}

/// The first day of a month's grid, which starts on a Monday.
fn calendar_first(first: Day) -> (r: Day)
    requires
        first.valid(),
        first.day == 1,
    ensures
        r.valid(),
        r.number() == first.number() - weekday_of(first.number()),
{
    let back: i32 = index_of(first.weekday());
    proof {
        let start = Day { year: -9999i16, month: 1, day: 1 };
        law_days_are_counted_in_order(first, start);
        assert(weekday_of(first_number()) == 0);
        let number = first.number();
        assert(number - weekday_of(number) >= first_number());
    }
    match add_days(first, -back) {
        Some(day) => day,
        None => first,
    }
}

pub fn month_grid(visible: Day) -> (r: (Day, usize))
    requires
        visible.valid(),
    ensures
        r.0.valid(),
        r.0.number() == grid_start(visible),
        r.1 == grid_weeks(visible),
{
    let first_of_month = match with_day(visible, 1) {
        Some(first) => first,
        None => visible,
    };
    let first = calendar_first(first_of_month);
    let leading: usize = days_between(first_of_month, first) as usize;
    let days: usize = days_in_month(first_of_month);
    (first, (leading + days + 6) / 7)
}

/// A day as the calendar shows it.
#[derive(Clone, Copy, PartialEq, Eq, Structural, Debug)]
pub struct GridDay {
    pub date: Day,
    pub in_month: bool,
    pub selected: bool,
    pub today: bool,
}

pub open spec fn grid_day(date: Day, calendar: Calendar, today: Day) -> GridDay {
    GridDay {
        date,
        in_month: date.month == calendar.visible.month && date.year == calendar.visible.year,
        selected: date == calendar.selected,
        today: date == today,
    }
}

/// Whether `date` is `offset` days after `first`; `first` itself where the
/// calendar ends before.
pub open spec fn is_offset(date: Day, first: int, offset: int) -> bool {
    date.valid() && date.number() == if first + offset <= last_number() {
        first + offset
    } else {
        first
    }
}

/// The full English name of a weekday.
pub open spec fn weekday_name(day: Weekday) -> Seq<char> {
    match day {
        Weekday::Monday => "Monday"@,
        Weekday::Tuesday => "Tuesday"@,
        Weekday::Wednesday => "Wednesday"@,
        Weekday::Thursday => "Thursday"@,
        Weekday::Friday => "Friday"@,
        Weekday::Saturday => "Saturday"@,
        Weekday::Sunday => "Sunday"@,
    }
}

pub fn weekday(day: Weekday) -> (r: &'static str)
    ensures
        r@ == weekday_name(day),
{
    match day {
        Weekday::Monday => "Monday",
        Weekday::Tuesday => "Tuesday",
        Weekday::Wednesday => "Wednesday",
        Weekday::Thursday => "Thursday",
        Weekday::Friday => "Friday",
        Weekday::Saturday => "Saturday",
        Weekday::Sunday => "Sunday",
    }
}

/// The English name of a month.
pub open spec fn month_text(month: int) -> Seq<char> {
    if month <= 1 {
        "January"@
    } else if month == 2 {
        "February"@
    } else if month == 3 {
        "March"@
    } else if month == 4 {
        "April"@
    } else if month == 5 {
        "May"@
    } else if month == 6 {
        "June"@
    } else if month == 7 {
        "July"@
    } else if month == 8 {
        "August"@
    } else if month == 9 {
        "September"@
    } else if month == 10 {
        "October"@
    } else if month == 11 {
        "November"@
    } else {
        "December"@
    }
}

pub fn month(date: Day) -> (r: &'static str)
    requires
        date.valid(),
    ensures
        r@ == month_text(date.month as int),
{
    let month: i8 = date.month;
    if month <= 1 {
        "January"
    } else if month == 2 {
        "February"
    } else if month == 3 {
        "March"
    } else if month == 4 {
        "April"
    } else if month == 5 {
        "May"
    } else if month == 6 {
        "June"
    } else if month == 7 {
        "July"
    } else if month == 8 {
        "August"
    } else if month == 9 {
        "September"
    } else if month == 10 {
        "October"
    } else if month == 11 {
        "November"
    } else {
        "December"
    }
}

/// `August 2026`
pub fn month_name(date: Day) -> (r: String)
    requires
        date.valid(),
    ensures
        r@ == month_text(date.month as int) + " "@ + signed_decimal(date.year as int),
{
    concat3(month(date), " ", signed(date.year as i64).as_str())
}

/// Zeros before the digits of `n`, to a width of at least `width`.
pub open spec fn zero_padded(n: nat, width: int) -> Seq<char> {
    let digits = decimal(n);
    if digits.len() >= width {
        digits
    } else {
        Seq::new((width - digits.len()) as nat, |i: int| '0') + digits
    }
}

/// A year in at least four characters, its sign among them.
pub open spec fn year_text(year: int) -> Seq<char> {
    if year < 0 {
        "-"@ + zero_padded((-year) as nat, 3)
    } else {
        zero_padded(year as nat, 4)
    }
}

fn padded(n: u64, width: usize) -> (r: String)
    ensures
        r@ == zero_padded(n as nat, width as int),
{
    let digits = unsigned(n);
    let len: usize = digits.as_str().unicode_len();
    let mut out = String::new();
    let mut i: usize = len;
    while i < width
        invariant
            len == decimal(n as nat).len(),
            i >= len,
            len < width ==> i <= width,
            len >= width ==> i == len,
            out@ == Seq::new((i - len) as nat, |k: int| '0'),
        decreases width - i,
    {
        out.push('0');
        i += 1;
        assert(out@ =~= Seq::new((i - len) as nat, |k: int| '0'));
    }
    out.append(digits.as_str());
    assert(out@ =~= zero_padded(n as nat, width as int));
    out
}

/// `07-08-2026`
pub open spec fn numeric_of(date: Day) -> Seq<char> {
    two_digits(date.day as nat) + "-"@ + two_digits(date.month as nat) + "-"@ + year_text(
        date.year as int,
    )
}

pub fn numeric_date(date: Day) -> (r: String)
    requires
        date.valid(),
    ensures
        r@ == numeric_of(date),
{
    let year = if date.year < 0 {
        concat("-", padded((-(date.year as i64)) as u64, 3).as_str())
    } else {
        padded(date.year as u64, 4)
    };
    let day = two(date.day as u64);
    let month = two(date.month as u64);
    let start = concat4(day.as_str(), "-", month.as_str(), "-");
    concat(start.as_str(), year.as_str())
}

/// Where a day lies, seen from today.
pub open spec fn relative_of(days: int) -> Seq<char> {
    if days == 0 {
        "today"@
    } else if days == 1 {
        "tomorrow"@
    } else if days == -1 {
        "yesterday"@
    } else if days > 0 {
        "in "@ + decimal(days as nat) + " days"@
    } else {
        decimal((-days) as nat) + " days ago"@
    }
}

pub fn relative_date(date: Day, today: Day) -> (r: String)
    requires
        date.valid(),
        today.valid(),
    ensures
        r@ == relative_of(date.number() - today.number()),
{
    let days: i64 = days_between(date, today);
    proof {
        law_days_are_counted_in_order(date, today);
        law_days_are_counted_in_order(today, date);
        lemma_calendar_length();
    }
    if days == 0 {
        "today".to_owned()
    } else if days == 1 {
        "tomorrow".to_owned()
    } else if days == -1 {
        "yesterday".to_owned()
    } else if days > 0 {
        concat3("in ", unsigned(days as u64).as_str(), " days")
    } else {
        concat(unsigned((-days) as u64).as_str(), " days ago")
    }
}

/// `08-18`: the month and the day, for the bar.
pub fn bar_text(date: Day) -> (r: String)
    requires
        date.valid(),
    ensures
        r@ == two_digits(date.month as nat) + "-"@ + two_digits(date.day as nat),
{
    concat3(two(date.month as u64).as_str(), "-", two(date.day as u64).as_str())
}

/// The calendar with another month shown: its day is the one that was picked,
/// or the month's last.
pub open spec fn moved(calendar: Calendar, months: int) -> Calendar {
    let day = picked(shifted(calendar.visible, months), calendar.selected.day);
    Calendar { selected: day, visible: day }
}

/// The state that the user has taken off the clock.
pub open spec fn chosen(state: State, calendar: Calendar) -> State {
    State {
        calendar,
        follows_selected_day: false,
        follows_visible_day: false,
        copied: None,
        ..state
    }
}

/// The state after an event.
pub open spec fn after(state: State, event: Event) -> State {
    match event {
        Event::PrevMonth => chosen(state, moved(state.calendar, -1)),
        Event::NextMonth => chosen(state, moved(state.calendar, 1)),
        // A day of the month that is shown does not move it.
        Event::Select(date) => chosen(
            state,
            Calendar {
                selected: date,
                visible: if date.month != state.calendar.visible.month || date.year
                    != state.calendar.visible.year {
                    date
                } else {
                    state.calendar.visible
                },
            },
        ),
        Event::Today(today) => State {
            calendar: Calendar { selected: today, visible: today },
            follows_selected_day: true,
            follows_visible_day: true,
            copied: None,
            ..state
        },
        Event::Copy(date) => State { copied: Some(date), ..state },
        Event::Open(_) => State { error: None, ..state },
        Event::Opened(Ok(_)) => state,
        Event::Opened(Err(error)) => State { error: Some(error), ..state },
    }
}

/// The state on another day: what the user has not touched advances with the
/// clock.
pub open spec fn synced(state: State, today: Day) -> State {
    State {
        calendar: Calendar {
            selected: if state.follows_selected_day {
                today
            } else {
                state.calendar.selected
            },
            visible: if state.follows_visible_day {
                today
            } else {
                state.calendar.visible
            },
        },
        ..state
    }
}

pub open spec fn event_valid(event: Event) -> bool {
    match event {
        Event::Select(date) | Event::Today(date) | Event::Copy(date) | Event::Open(
            date,
        ) => date.valid(),
        _ => true,
    }
}

/// The line under the calendar.
pub open spec fn status_of(state: State, today: Day) -> Seq<char> {
    let selected = state.calendar.selected;
    (if state.copied == Some(selected) {
        "copied to clipboard"@
    } else {
        relative_of(selected.number() - today.number())
    }) + " · week "@ + signed_decimal(iso_week_of(selected))
}

/// Whether a name is that of the weekday of that index.
pub open spec fn weekday_at(name: Seq<char>, index: int) -> bool {
    exists|day: Weekday| weekday_index(day) == index && name == #[trigger] weekday_name(day)
}

impl State {
    pub open spec fn valid(self) -> bool {
        self.calendar.selected.valid() && self.calendar.visible.valid()
    }

    pub fn at(today: Day) -> (r: State)
        ensures
            r == (State {
                calendar: Calendar { selected: today, visible: today },
                follows_selected_day: true,
                follows_visible_day: true,
                copied: None,
                error: None,
            }),
    {
        State {
            calendar: Calendar { selected: today, visible: today },
            follows_selected_day: true,
            follows_visible_day: true,
            copied: None,
            error: None,
        }
    }

    /// Advance untouched calendar fields with the wall clock while preserving
    /// any month or day the user deliberately chose.
    pub fn sync_today(&mut self, today: Day)
        ensures
            *final(self) == synced(*old(self), today),
            old(self).valid() && today.valid() ==> final(self).valid(),
    {
        if self.follows_selected_day {
            self.calendar.selected = today;
        }
        if self.follows_visible_day {
            self.calendar.visible = today;
        }
    }

    pub fn update(&mut self, event: Event) -> (effect: Effect)
        requires
            old(self).valid(),
            event_valid(event),
        ensures
            *final(self) == after(*old(self), event),
            final(self).valid(),
            match event {
                Event::Copy(date) => effect matches Effect::Copy(text) && text@ == numeric_of(date),
                Event::Open(date) => effect == Effect::Open(date),
                Event::Opened(Ok(_)) => effect is ClosePopup,
                _ => effect is Nothing,
            },
    {
        match event {
            Event::PrevMonth => {
                self.move_month(-1);
                Effect::Nothing
            },
            Event::NextMonth => {
                self.move_month(1);
                Effect::Nothing
            },
            Event::Select(date) => {
                if date.month != self.calendar.visible.month || date.year
                    != self.calendar.visible.year {
                    self.calendar.visible = date;
                }
                self.calendar.selected = date;
                self.follows_selected_day = false;
                self.follows_visible_day = false;
                self.copied = None;
                Effect::Nothing
            },
            Event::Today(today) => {
                self.calendar.selected = today;
                self.calendar.visible = today;
                self.follows_selected_day = true;
                self.follows_visible_day = true;
                self.copied = None;
                Effect::Nothing
            },
            Event::Copy(date) => {
                self.copied = Some(date);
                Effect::Copy(numeric_date(date))
            },
            Event::Open(date) => {
                self.error = None;
                Effect::Open(date)
            },
            Event::Opened(Ok(_)) => Effect::ClosePopup,
            Event::Opened(Err(error)) => {
                self.error = Some(error);
                Effect::Nothing
            },
        }
    }

    fn move_month(&mut self, months: i32)
        requires
            old(self).valid(),
            -239_976 <= months <= 239_976,
        ensures
            *final(self) == chosen(*old(self), moved(old(self).calendar, months as int)),
            final(self).valid(),
    {
        let month = shift_month(self.calendar.visible, months);
        self.calendar.visible = select_in_month(month, self.calendar.selected.day);
        self.calendar.selected = self.calendar.visible;
        self.follows_selected_day = false;
        self.follows_visible_day = false;
        self.copied = None;
    }

    /// The days that the calendar shows, week by week.
    pub fn grid(&self, today: Day) -> (r: Vec<GridDay>)
        requires
            self.valid(),
        ensures
            r@.len() == 7 * grid_weeks(self.calendar.visible),
            forall|i: int|
                0 <= i < r@.len() ==> {
                    &&& is_offset(
                        (#[trigger] r@[i]).date,
                        grid_start(self.calendar.visible),
                        i,
                    )
                    &&& r@[i] == grid_day(r@[i].date, self.calendar, today)
                },
    {
        let (first, weeks) = month_grid(self.calendar.visible);
        let mut days: Vec<GridDay> = Vec::new();
        let total: usize = weeks * 7;
        let mut i: usize = 0;
        proof {
            law_days_are_counted_in_order(first, first);
        }
        while i < total
            invariant
                i <= total,
                total == 7 * grid_weeks(self.calendar.visible),
                total <= 42,
                first.valid(),
                first.number() == grid_start(self.calendar.visible),
                first_number() <= first.number() <= last_number(),
                days@.len() == i,
                forall|j: int|
                    0 <= j < i ==> {
                        &&& is_offset(
                            (#[trigger] days@[j]).date,
                            grid_start(self.calendar.visible),
                            j,
                        )
                        &&& days@[j] == grid_day(days@[j].date, self.calendar, today)
                    },
            decreases total - i,
        {
            let date = match add_days(first, i as i32) {
                Some(date) => date,
                None => first,
            };
            let visible = self.calendar.visible;
            proof {
                law_days_are_counted_in_order(date, date);
            }
            days.push(
                GridDay {
                    date,
                    in_month: date.month == visible.month && date.year == visible.year,
                    selected: date == self.calendar.selected,
                    today: date == today,
                },
            );
            assert(days@[i as int] == grid_day(date, self.calendar, today));
            i += 1;
        }
        days
    }

    /// What the popup says of the day that is picked.
    pub fn status(&self, today: Day) -> (r: String)
        requires
            self.valid(),
            today.valid(),
        ensures
            r@ == status_of(*self, today),
    {
        let copied = match self.copied {
            Some(date) => date == self.calendar.selected,
            None => false,
        };
        let lead = if copied {
            "copied to clipboard".to_owned()
        } else {
            relative_date(self.calendar.selected, today)
        };
        let week = signed(iso_week(self.calendar.selected) as i64);
        concat3(lead.as_str(), " · week ", week.as_str())
    }
}

/// What the popup shows.
#[derive(Debug, Clone)]
pub struct Popup {
    pub title: String,
    pub weekday: &'static str,
    pub days: Vec<GridDay>,
    pub status: String,
    /// The day as it is copied.
    pub date: String,
    /// Whether there is a way back to today.
    pub away: bool,
    pub error: Option<String>,
}

impl State {
    /// Whether there is a popup: always.
    pub open spec fn pops_up(self) -> bool {
        true
    }

    pub fn has_popup(&self) -> (r: bool)
        ensures
            r == self.pops_up(),
    {
        true
    }

    pub fn popup(&self, today: Day) -> (r: Option<Popup>)
        requires
            self.valid(),
            today.valid(),
        ensures
            r is Some <==> self.pops_up(),
            r matches Some(p) ==> {
                let (selected, visible) = (self.calendar.selected, self.calendar.visible);
                &&& p.title@ == month_text(visible.month as int) + " "@ + signed_decimal(
                    visible.year as int,
                )
                &&& weekday_at(p.weekday@, weekday_of(selected.number()))
                &&& p.days@.len() == 7 * grid_weeks(visible)
                &&& forall|i: int|
                    0 <= i < p.days@.len() ==> {
                        &&& is_offset((#[trigger] p.days@[i]).date, grid_start(visible), i)
                        &&& p.days@[i] == grid_day(p.days@[i].date, self.calendar, today)
                    }
                &&& p.status@ == status_of(*self, today)
                &&& p.date@ == numeric_of(selected)
                &&& p.away == (selected != today)
                &&& opt_text(p.error) == opt_text(self.error)
            },
    {
        let selected = self.calendar.selected;
        let day = selected.weekday();
        let error = match &self.error {
            Some(error) => Some(error.as_str().to_owned()),
            None => None,
        };
        Some(
            Popup {
                title: month_name(self.calendar.visible),
                weekday: weekday(day),
                days: self.grid(today),
                status: self.status(today),
                date: numeric_date(selected),
                away: selected != today,
                error,
            },
        )
    }
}

/// A calendar that nobody has touched follows the clock, and one that the user
/// took elsewhere stays there, until `today` puts it back on the clock.
pub proof fn law_calendar_follows_until_touched(state: State, event: Event, today: Day, later: Day)
    ensures
        state.follows_selected_day && state.follows_visible_day ==> synced(state, later).calendar
            == (Calendar { selected: later, visible: later }),
        event is PrevMonth || event is NextMonth || event is Select ==> synced(
            after(state, event),
            later,
        ) == after(state, event),
        synced(after(state, Event::Today(today)), later).calendar == (Calendar {
            selected: later,
            visible: later,
        }),
{
}

/// Moving to another month shows that month, on the day that was picked or on
/// the last of a shorter month; but for the last month of the calendar, which is
/// not moved to on its last day.
pub proof fn law_month_moves_keep_or_clamp_the_day(calendar: Calendar, months: int)
    requires
        calendar.selected.valid(),
        calendar.visible.valid(),
        -9999 <= (calendar.visible.year * 12 + calendar.visible.month - 1 + months) / 12 <= 9999,
        calendar.visible.year * 12 + calendar.visible.month - 1 + months == 9999 * 12 + 11
            ==> calendar.selected.day < 31,
    ensures
        ({
            let month = shifted(calendar.visible, months);
            let len = month_len(month.year as int, month.month as int);
            let day = moved(calendar, months).visible;
            &&& moved(calendar, months).selected == day
            &&& day.year == month.year && day.month == month.month
            &&& day.day == if calendar.selected.day <= len {
                calendar.selected.day as int
            } else {
                len
            }
        }),
{
}

} // verus!
