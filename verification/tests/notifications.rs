use cosmicbar::dbus::{Datum, Props};
use cosmicbar::modules::notifications::{
    elide, parse, toggle_dnd, Call, Event, Notification, Snapshot, State, Tone,
};

fn text(s: &str) -> Datum {
    Datum::Str(s.to_string())
}

fn props(entries: Vec<(&str, Datum)>) -> Props {
    Props { entries: entries.into_iter().map(|(name, value)| (name.to_string(), value)).collect() }
}

fn modes(list: &[&str]) -> Vec<String> {
    list.iter().map(|mode| mode.to_string()).collect()
}

fn notification(id: u32, urgency: u8) -> Notification {
    parse(&props(vec![
        ("id", Datum::U32(id)),
        ("app-name", text("mail")),
        ("summary", text("new\nmessage")),
        ("body", Datum::Variant(Box::new(text("hello")))),
        ("urgency", Datum::U8(urgency)),
        (
            "actions",
            Datum::Dict(vec![(text("default"), text("Open")), (text("archive"), text("Archive"))]),
        ),
    ]))
}

fn with(waiting: Vec<Notification>, list: &[&str]) -> State {
    let mut state = State::new();
    state.update(Event::Connected);
    state.update(Event::Snapshot(Snapshot {
        waiting,
        history: vec![notification(9, 1)],
        modes: modes(list),
    }));
    state
}

#[test]
fn a_missing_key_costs_only_its_own_value() {
    let n = notification(7, 2);
    assert_eq!((n.id, n.app_name.as_str(), n.body.as_str(), n.urgency), (7, "mail", "hello", 2));
    assert_eq!(n.actions.len(), 2);
    let n = parse(&props(vec![("id", text("seven")), ("summary", Datum::U8(1))]));
    assert_eq!((n.id, n.summary.as_str(), n.urgency), (0, "", 1));
    assert!(n.actions.is_empty());
}

#[test]
fn long_texts_are_flattened_and_cut() {
    assert_eq!(elide("two\nlines", 64), "two lines");
    assert_eq!(elide("one two three", 4), "one…");
    assert_eq!(elide("one", 3), "one");
}

#[test]
fn toggling_twice_restores_the_modes() {
    let once = toggle_dnd(&modes(&["default", "away"]));
    assert_eq!(once, modes(&["default", "away", "do-not-disturb"]));
    assert_eq!(toggle_dnd(&once), modes(&["default", "away"]));
    assert_eq!(toggle_dnd(&modes(&[])), modes(&["default", "do-not-disturb"]));
    assert_eq!(toggle_dnd(&modes(&["do-not-disturb"])), modes(&["default"]));
    let mixed = modes(&["do-not-disturb", "away"]);
    assert_eq!(toggle_dnd(&toggle_dnd(&mixed)), modes(&["away", "do-not-disturb"]));
}

#[test]
fn calls_need_a_connection() {
    let mut state = with(vec![notification(1, 1)], &["default"]);
    assert!(matches!(state.update(Event::Dismiss(1)).call, Some(Call::Dismiss(1))));
    let effects = state.update(Event::DismissAll);
    assert!(effects.close_popup && matches!(effects.call, Some(Call::DismissAll)));
    let effects = state.update(Event::Invoke { id: 1, action: "archive".into() });
    assert!(effects.close_popup);
    assert!(matches!(effects.call, Some(Call::Invoke { id: 1, action }) if action == "archive"));
    assert!(matches!(state.update(Event::Restore).call, Some(Call::Restore)));
    let call = state.update(Event::ToggleDnd).call;
    assert!(matches!(call, Some(Call::SetModes(m)) if m == modes(&["default", "do-not-disturb"])));
    state.update(Event::Mutated(Err("gone".into())));
    assert_eq!(state.error.as_deref(), Some("gone"));
    state.update(Event::Disconnected);
    assert!(!state.has_popup());
    let effects = state.update(Event::DismissAll);
    assert!(effects.close_popup && effects.call.is_none());
    state.update(Event::Connected);
    assert!(state.error.is_none());
}

#[test]
fn the_bell_says_what_is_waiting() {
    let cell = |state: &State| {
        let cell = state.cell().unwrap();
        (cell.glyph, cell.count, cell.tone)
    };
    let idle = with(vec![], &["default"]);
    assert_eq!(cell(&idle), ("\u{f009c}", String::new(), Tone::Idle));
    let waiting = with(vec![notification(1, 1)], &["default"]);
    assert_eq!(cell(&waiting), ("\u{f116b}", "1".to_string(), Tone::Waiting));
    let critical = with(vec![notification(1, 1), notification(2, 2)], &["default"]);
    assert_eq!(cell(&critical), ("\u{f116b}", "2".to_string(), Tone::Critical));
    let held = with(vec![notification(2, 2)], &["do-not-disturb"]);
    assert_eq!(cell(&held), ("\u{f009b}", "1".to_string(), Tone::Held));
    let quiet = with(vec![], &["do-not-disturb"]);
    assert_eq!(cell(&quiet), ("\u{f0a91}", String::new(), Tone::Held));
    let mut gone = with(vec![], &[]);
    gone.update(Event::Absent);
    assert!(gone.cell().is_none() && gone.popup().is_none());
}

#[test]
fn the_notification_popup_is_the_list() {
    let state = with(vec![notification(1, 2)], &["default", "away", "do-not-disturb"]);
    let popup = state.popup().unwrap();
    assert_eq!(popup.title, "1 waiting");
    assert!(popup.dnd);
    assert_eq!(popup.modes, "mode: away, do-not-disturb");
    let entry = &popup.entries[0];
    assert_eq!((entry.source.as_str(), entry.summary.as_str()), ("mail · critical", "new message"));
    assert_eq!(entry.body.as_deref(), Some("hello"));
    assert!(entry.has_default);
    assert_eq!(entry.actions, vec![("archive".to_string(), "Archive".to_string())]);
    assert_eq!(popup.history, vec!["mail · new message".to_string()]);
    assert_eq!(with(vec![], &["default"]).popup().unwrap().modes, "mode: default");
}
