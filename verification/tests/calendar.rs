use cosmicbar::calendar::{
    collect, is_stale, listed_at, query, query_between, read_reply, reconcile, reply_on, tell,
    tick_delay, AgendaEvent, Listed, Occurrence, Source, Window, BAD_DATE,
};
use cosmicbar::civil::Day;
use cosmicbar::moment::{clock, local, Moment};

fn day() -> Day {
    Day { year: 2026, month: 8, day: 17 }
}

fn window() -> Window {
    Window { date: day(), start: 1_786_924_800, end: 1_787_011_200 }
}

fn occurrence(first: i64, last: i64) -> Occurrence {
    Occurrence {
        cancelled: false,
        dated: true,
        all_day: false,
        first,
        last,
        first_offset: 0,
        last_offset: 0,
        summary: Some("Lunch".into()),
    }
}

fn at(day: i8, hour: i8, minute: i8) -> Moment {
    Moment { year: 2026, month: 8, day, weekday: 1, hour, minute }
}

fn source(uid: &str, enabled: bool, selected: bool) -> Source {
    Source { uid: uid.into(), enabled, selected }
}

fn texts(list: &[&str]) -> Vec<String> {
    list.iter().map(|s| s.to_string()).collect()
}

#[test]
fn the_selected_calendars_are_followed() {
    let known = vec![
        source("work", true, true),
        source("home", true, true),
        source("old", false, true),
        source("tasks", true, false),
        source("work", true, true),
    ];
    let plan = reconcile(&texts(&["gone", "home"]), &known);
    assert_eq!(plan.running, texts(&["home", "work"]));
    assert_eq!((plan.stop, plan.open, plan.changed), (texts(&["gone"]), texts(&["work"]), true));
    let plan = reconcile(&texts(&["home", "work"]), &known);
    assert!(!plan.changed && plan.stop.is_empty() && plan.open.is_empty());
}

#[test]
fn events_are_listed_on_the_days_they_fall_on() {
    let w = window();
    let listed = |first: i64, last: i64| collect(&occurrence(first, last), &w).is_some();
    assert!(listed(w.start, w.start));
    assert!(!listed(w.end, w.end));
    assert!(!listed(w.start - 100, w.start));
    assert!(listed(w.start - 100, w.start + 1));
    assert!(listed(w.end - 1, w.end + 100));
    assert!(!listed(w.start - 1, w.start - 1));
    let mut o = occurrence(w.start, w.end);
    o.cancelled = true;
    assert!(collect(&o, &w).is_none());
    o.cancelled = false;
    o.dated = false;
    assert!(collect(&o, &w).is_none());
    o.dated = true;
    o.all_day = true;
    o.summary = None;
    let event = collect(&o, &w).unwrap().event;
    assert_eq!((event.title.as_str(), event.time.as_str()), ("Untitled event", "All day"));
}

#[test]
fn events_are_told_in_local_time() {
    let w = window();
    let mut o = occurrence(w.start + 34_200, w.start + 37_800);
    assert_eq!(collect(&o, &w).unwrap().event.time, "09:30–10:30");
    o.first_offset = 7_200;
    o.last_offset = 3_600;
    assert_eq!(collect(&o, &w).unwrap().event.time, "11:30–11:30");
    let mut o = occurrence(w.start - 600, w.start + 600);
    assert_eq!(collect(&o, &w).unwrap().event.time, "Aug 16 23:50–00:10");
    o.first_offset = -7_200;
    o.last_offset = -7_200;
    assert_eq!(collect(&o, &w).unwrap().event.time, "Aug 16 21:50–Aug 16 22:10");
}

#[test]
fn times_of_day_are_those_of_the_wall_clock() {
    let noon = 1_786_968_000_000;
    assert_eq!(clock(noon, 0, noon, 0), "12:00");
    assert_eq!(clock(noon - 3_600_000, 7_200, noon, 7_200), "13:00");
    assert_eq!(clock(noon - 86_400_000, 0, noon, 0), "Sun 12:00");
    assert_eq!(clock(-1, 0, -1, 0), "23:59");
    assert_eq!(clock(-1, 0, 0, 0), "Wed 23:59");
    assert_eq!(clock(253_402_207_200_000, 0, noon, 0), "Thu 22:00");
    assert_eq!(clock(253_402_207_200_001, 0, noon, 0), "");
    assert_eq!(clock(-377_705_023_201_001, 0, noon, 0), "");
    assert_eq!(clock(noon, 93_600, noon, 0), "");
    let last = local(253_402_207_200_000, 93_599).unwrap();
    assert_eq!((last.year, last.month, last.day, last.hour, last.minute), (9999, 12, 31, 23, 59));
}

#[test]
fn times_carry_their_date_on_another_day() {
    let o = occurrence(1, 2);
    let listed = listed_at(&o, at(16, 23, 5), at(17, 0, 30), day());
    assert_eq!(listed.event.time, "Aug 16 23:05–00:30");
    let o = occurrence(1, 1);
    assert_eq!(listed_at(&o, at(17, 9, 0), at(17, 9, 0), day()).event.time, "09:00");
}

fn listed(first: i64, last: i64, title: &str) -> Listed {
    Listed { first, last, event: AgendaEvent { title: title.into(), time: String::new() } }
}

#[test]
fn nothing_is_told_twice() {
    let mut told = None;
    let events = || vec![listed(5, 6, "b"), listed(1, 9, "z"), listed(5, 6, "a"), listed(1, 2, "y")];
    assert!(!tell(&mut told, day(), events(), true));
    assert!(told.is_none());
    assert!(tell(&mut told, day(), events(), false));
    let titles: Vec<String> =
        told.as_ref().unwrap().events.iter().map(|event| event.title.clone()).collect();
    assert_eq!(titles, vec!["y", "z", "a", "b"]);
    assert!(!tell(&mut told, day(), events(), false));
    assert!(tell(&mut told, Day { year: 2026, month: 8, day: 18 }, events(), false));
    assert!(tell(&mut told, day(), vec![], false));
}

#[test]
fn replies_are_of_a_day_or_an_error() {
    let (date, events) = read_reply("2026-08-17", Ok(vec![])).unwrap();
    assert_eq!(date, day());
    assert!(events.is_empty());
    assert!(matches!(read_reply("someday", Ok(vec![])), Err(error) if error == BAD_DATE));
    assert!(matches!(read_reply("2026-02-30", Err("down".into())), Err(error) if error == BAD_DATE));
    assert!(matches!(reply_on(Some(day()), Err("down".into())), Err(error) if error == "down"));
}

#[test]
fn queries_reach_a_day_to_either_side() {
    let text = query(&window()).unwrap();
    assert_eq!(
        text,
        "(occur-in-time-range? (make-time \"20260816T000000Z\") (make-time \"20260819T000000Z\"))"
    );
    assert_eq!(text, query_between("20260816T000000Z", "20260819T000000Z"));
    let far = Window { date: day(), start: i64::MAX / 2, end: i64::MAX / 2 + 1 };
    assert!(query(&far).is_none());
}

#[test]
fn the_worker_wakes_past_midnight() {
    assert_eq!(tick_delay(1_000, 31_000), 30_001);
    assert_eq!(tick_delay(0, 86_400_000), 60_000);
    assert_eq!(tick_delay(5, 1), 1);
    let next = Day { year: 2026, month: 8, day: 18 };
    assert!(is_stale(None, day(), next, false));
    assert!(!is_stale(Some(day()), day(), next, false));
    assert!(is_stale(Some(day()), day(), day(), true));
}
