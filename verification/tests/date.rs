use cosmicbar::civil::{Day, Weekday};
use cosmicbar::modules::date::{
    bar_text, days_in_month, month_grid, month_name, numeric_date, relative_date, select_in_month,
    weekday, Effect, Event, State,
};

fn day(year: i16, month: i8, day: i8) -> Day {
    Day::new(year, month, day).unwrap()
}

#[test]
fn untouched_calendar_advances_to_current_weekday() {
    let tuesday = day(2026, 8, 18);
    let thursday = day(2026, 8, 20);
    let mut state = State::at(tuesday);

    state.sync_today(thursday);

    assert_eq!(state.calendar.selected, thursday);
    assert_eq!(state.calendar.visible, thursday);
    assert_eq!(state.calendar.visible.weekday(), Weekday::Thursday);
}

#[test]
fn calendar_keeps_dates_chosen_by_the_user() {
    let mut state = State::at(day(2026, 8, 18));
    let selected = day(2026, 7, 12);
    drop(state.update(Event::PrevMonth));
    let visible = state.calendar.visible;
    drop(state.update(Event::Select(selected)));

    state.sync_today(day(2026, 8, 20));

    assert_eq!(state.calendar.selected, selected);
    assert_eq!(state.calendar.visible.month, visible.month);
    assert_eq!(state.calendar.visible.year, visible.year);
}

#[test]
fn selecting_a_date_stops_the_calendar_following_the_clock() {
    let tuesday = day(2026, 8, 18);
    let thursday = day(2026, 8, 20);
    let mut state = State::at(tuesday);
    drop(state.update(Event::Select(tuesday)));

    state.sync_today(thursday);

    assert_eq!(state.calendar.selected, tuesday);
    assert_eq!(state.calendar.visible, tuesday);
}

#[test]
fn today_action_restores_clock_following() {
    let today = day(2026, 8, 18);
    let tomorrow = day(2026, 8, 19);
    let mut state = State::at(today);
    drop(state.update(Event::Select(day(2026, 7, 12))));
    drop(state.update(Event::PrevMonth));

    drop(state.update(Event::Today(today)));
    state.sync_today(tomorrow);

    assert_eq!(state.calendar.selected, tomorrow);
    assert_eq!(state.calendar.visible, tomorrow);
}

#[test]
fn selecting_an_adjacent_month_date_navigates_to_it() {
    let mut state = State::at(day(2026, 8, 18));
    let september = day(2026, 9, 1);

    drop(state.update(Event::Select(september)));

    assert_eq!(state.calendar.selected, september);
    assert_eq!(state.calendar.visible, september);
}

#[test]
fn month_navigation_preserves_or_clamps_the_day() {
    let mut state = State::at(day(2026, 1, 31));

    drop(state.update(Event::NextMonth));

    assert_eq!(state.calendar.selected, day(2026, 2, 28));
    assert_eq!(state.calendar.visible, day(2026, 2, 28));
}

#[test]
fn month_grid_uses_only_the_rows_the_month_needs() {
    let (_, february) = month_grid(day(2026, 2, 1));
    let (_, march) = month_grid(day(2026, 3, 1));

    assert_eq!(february, 5);
    assert_eq!(march, 6);
}

#[test]
fn numeric_date_is_day_month_year() {
    assert_eq!(numeric_date(day(2026, 8, 7)), "07-08-2026");
}

#[test]
fn relative_dates_explain_the_selection() {
    let today = day(2026, 8, 18);

    assert_eq!(relative_date(today, today), "today");
    assert_eq!(relative_date(day(2026, 8, 19), today), "tomorrow");
    assert_eq!(relative_date(day(2026, 8, 15), today), "3 days ago");
}

#[test]
fn days_outside_the_calendar_are_refused() {
    assert!(Day::new(2026, 2, 29).is_none());
    assert!(Day::new(2024, 2, 29).is_some());
    assert!(Day::new(2026, 13, 1).is_none());
    assert!(Day::new(2026, 1, 0).is_none());
}

#[test]
fn the_grid_starts_on_a_monday_and_marks_its_days() {
    let today = day(2026, 8, 18);
    let state = State::at(today);
    let grid = state.grid(today);
    assert_eq!(grid.len(), 42);
    assert_eq!(grid[0].date, day(2026, 7, 27));
    assert!(!grid[0].in_month);
    assert_eq!(grid[22].date, today);
    assert!(grid[22].in_month && grid[22].selected && grid[22].today);
}

#[test]
fn the_popup_names_the_week_and_what_was_copied() {
    let today = day(2026, 8, 18);
    let mut state = State::at(today);
    assert_eq!(state.status(today), "today · week 34");
    match state.update(Event::Copy(today)) {
        Effect::Copy(text) => assert_eq!(text, "18-08-2026"),
        _ => panic!("nothing to copy"),
    }
    assert_eq!(state.status(today), "copied to clipboard · week 34");
    assert_eq!(State::at(day(2027, 1, 1)).status(today), "in 136 days · week 53");
    assert_eq!(relative_date(day(2026, 8, 17), today), "yesterday");
    assert_eq!(month_name(today), "August 2026");
    assert_eq!(weekday(today.weekday()), "Tuesday");
    assert_eq!(bar_text(today), "08-18");
    assert_eq!(numeric_date(day(-7, 1, 2)), "02-01--007");
}

#[test]
fn opening_the_calendar_closes_the_popup_or_says_why_not() {
    let today = day(2026, 8, 18);
    let mut state = State::at(today);
    assert!(matches!(state.update(Event::Open(today)), Effect::Open(date) if date == today));
    assert!(matches!(state.update(Event::Opened(Err("no".into()))), Effect::Nothing));
    assert_eq!(state.error.as_deref(), Some("no"));
    assert!(matches!(state.update(Event::Opened(Ok(()))), Effect::ClosePopup));
}

#[test]
fn every_month_has_its_days() {
    assert_eq!(days_in_month(day(2024, 2, 10)), 29);
    assert_eq!(days_in_month(day(2026, 2, 10)), 28);
    assert_eq!(days_in_month(day(2026, 4, 30)), 30);
    assert_eq!(days_in_month(day(9999, 11, 5)), 30);
    assert_eq!(days_in_month(day(9999, 12, 5)), 4);
    assert_eq!(days_in_month(day(9999, 12, 1)), 30);
    assert_eq!(select_in_month(day(9999, 12, 1), 31), day(9999, 12, 30));
    assert_eq!(select_in_month(day(2026, 2, 1), 31), day(2026, 2, 28));
}

#[test]
fn the_date_popup_offers_a_way_back_to_today() {
    let today = day(2026, 8, 18);
    let mut state = State::at(today);
    let popup = state.popup(today).unwrap();
    assert!(state.has_popup() && !popup.away);
    assert_eq!((popup.title.as_str(), popup.weekday), ("August 2026", "Tuesday"));
    assert_eq!((popup.status.as_str(), popup.date.as_str()), ("today · week 34", "18-08-2026"));
    assert_eq!(popup.days.len(), 42);
    state.update(Event::Select(day(2026, 8, 19)));
    let popup = state.popup(today).unwrap();
    assert!(popup.away && popup.error.is_none());
    assert_eq!((popup.weekday, popup.date.as_str()), ("Wednesday", "19-08-2026"));
    state.update(Event::Opened(Err("no calendar".into())));
    assert_eq!(state.popup(today).unwrap().error.as_deref(), Some("no calendar"));
}
