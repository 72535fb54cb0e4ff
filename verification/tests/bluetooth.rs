use cosmicbar::dbus::{Datum, Props};
use cosmicbar::modules::bluetooth::cell::{next, Gate, Next};
use cosmicbar::modules::bluetooth::merge::{
    device_change, loudest, Change, IF_ADAPTER, IF_BATTERY, IF_DEVICE,
};
use cosmicbar::modules::bluetooth::signal::{merge_order, read_tree, Added, Member, Object, Signal};
use cosmicbar::modules::bluetooth::state::{device_icon, Call, Event, Section, State};
use cosmicbar::modules::bluetooth::tree::{battery_tier, BarKey, Snapshot};

fn props(entries: Vec<(&str, Datum)>) -> Props {
    Props { entries: entries.into_iter().map(|(name, value)| (name.to_string(), value)).collect() }
}

fn text(s: &str) -> Datum {
    Datum::Str(s.to_string())
}

fn object(path: &str, interface: &str, entries: Vec<(&str, Datum)>) -> Object {
    Object { path: path.into(), interface: interface.into(), props: props(entries) }
}

fn tree() -> Snapshot {
    read_tree(vec![
        object("/hci0/dev_1", IF_BATTERY, vec![("Percentage", Datum::U8(30))]),
        object(
            "/hci0/dev_1",
            IF_DEVICE,
            vec![
                ("Address", text("AA:01")),
                ("Alias", text("Headset")),
                ("Connected", Datum::Bool(true)),
                ("Paired", Datum::Bool(true)),
                ("Icon", text("audio-headset")),
            ],
        ),
        object(
            "/hci0/dev_2",
            IF_DEVICE,
            vec![("Address", text("AA:02")), ("RSSI", Datum::I16(-60))],
        ),
        object(
            "/hci0",
            IF_ADAPTER,
            vec![("Powered", Datum::Bool(true)), ("Alias", text("desk")), ("Address", text("00:01"))],
        ),
    ])
}

fn changed(path: &str, interface: &str, entries: Vec<(&str, Datum)>) -> Signal {
    Signal::Changed { path: path.into(), interface: interface.into(), props: props(entries) }
}

#[test]
fn a_battery_finds_its_device_in_any_order() {
    let t = tree();
    assert_eq!(t.devices.len(), 2);
    assert_eq!(t.devices[t.find("/hci0/dev_1").unwrap()].battery, Some(30));
    assert_eq!(t.adapter.as_ref().unwrap().alias, "desk");
    assert!(t.bar_key().is(&BarKey::On { connected: 1, battery: Some((30, 1)) }));
}

#[test]
fn interfaces_are_folded_owners_first() {
    assert_eq!((merge_order(IF_ADAPTER), merge_order(IF_DEVICE), merge_order(IF_BATTERY)), (0, 1, 2));
    let mut t = Snapshot::new();
    let change = t.apply(Signal::Added {
        path: "/hci0/dev_3".into(),
        interfaces: vec![
            Added {
                interface: IF_BATTERY.into(),
                props: props(vec![("Percentage", Datum::U8(90))]),
            },
            Added {
                interface: IF_DEVICE.into(),
                props: props(vec![("Connected", Datum::Bool(true)), ("Name", text("Mouse"))]),
            },
        ],
    });
    assert_eq!(change, Change::Patch);
    assert_eq!(t.devices[0].battery, Some(90));
    assert_eq!(t.devices[0].name, "Mouse");
}

#[test]
fn only_what_the_cell_can_draw_wakes_the_bar() {
    let mut t = tree();
    let key = t.bar_key();
    assert_eq!(
        t.apply(changed("/hci0/dev_1", IF_DEVICE, vec![("RSSI", Datum::I16(-40))])),
        Change::Detail
    );
    assert!(t.bar_key().is(&key));
    assert_eq!(
        t.apply(changed("/hci0/dev_1", IF_DEVICE, vec![("RSSI", Datum::I16(-40))])),
        Change::Ignore
    );
    assert_eq!(
        t.apply(changed("/hci0/dev_2", IF_BATTERY, vec![("Percentage", Datum::U8(5))])),
        Change::Detail
    );
    assert!(t.bar_key().is(&key));
    assert_eq!(
        t.apply(changed("/hci0/dev_2", IF_DEVICE, vec![("Connected", Datum::Bool(true))])),
        Change::Patch
    );
    assert!(t.bar_key().is(&BarKey::On { connected: 2, battery: Some((5, 2)) }));
    assert_eq!(
        t.apply(changed("/hci0", IF_ADAPTER, vec![("Discovering", Datum::Bool(true))])),
        Change::Detail
    );
    assert_eq!(
        t.apply(changed("/hci0", IF_ADAPTER, vec![("Powered", Datum::Bool(false))])),
        Change::Patch
    );
    assert!(t.bar_key().is(&BarKey::Off));
}

#[test]
fn the_first_adapter_is_the_one() {
    let mut t = tree();
    let other = changed("/hci1", IF_ADAPTER, vec![("Powered", Datum::Bool(false))]);
    assert_eq!(t.apply(other), Change::Ignore);
    assert_eq!(t.adapter.as_ref().unwrap().path, "/hci0");
    assert!(t.adapter.as_ref().unwrap().powered);
}

#[test]
fn missing_properties_keep_their_values() {
    let mut t = tree();
    t.apply(changed("/hci0/dev_1", IF_DEVICE, vec![("Paired", Datum::Bool(false))]));
    let d = &t.devices[t.find("/hci0/dev_1").unwrap()];
    assert_eq!((d.name.as_str(), d.connected, d.paired), ("Headset", true, false));
    assert_eq!(d.icon.as_deref(), Some("audio-headset"));
}

#[test]
fn a_name_taken_from_an_address_follows_it() {
    let mut t = tree();
    let i = t.find("/hci0/dev_2").unwrap();
    assert_eq!(t.devices[i].name, "AA:02");
    assert_eq!(
        t.apply(changed("/hci0/dev_2", IF_DEVICE, vec![("Address", text("BB:02"))])),
        Change::Detail
    );
    assert_eq!(t.devices[i].name, "BB:02");
    t.apply(changed("/hci0/dev_2", IF_DEVICE, vec![("Alias", text("Pen"))]));
    t.apply(changed("/hci0/dev_2", IF_DEVICE, vec![("Address", text("CC:02"))]));
    assert_eq!(t.devices[i].name, "Pen");
}

#[test]
fn removals_reach_as_far_as_what_was_removed() {
    let mut t = tree();
    let gone = |path: &str, name: &str| Signal::Removed {
        path: path.into(),
        names: vec![name.to_string()],
    };
    assert_eq!(t.apply(gone("/hci0/dev_2", IF_DEVICE)), Change::Detail);
    assert_eq!(t.apply(gone("/hci0/dev_1", IF_BATTERY)), Change::Patch);
    assert_eq!(t.apply(gone("/hci0/dev_1", IF_BATTERY)), Change::Ignore);
    assert_eq!(t.apply(gone("/hci0/dev_1", IF_DEVICE)), Change::Patch);
    assert_eq!(t.apply(gone("/hci1", IF_ADAPTER)), Change::Ignore);
    assert_eq!(t.apply(gone("/hci0", IF_ADAPTER)), Change::Patch);
    assert!(t.bar_key().is(&BarKey::Hidden));
    assert_eq!(t.apply(Signal::Owner), Change::Restart);
    assert_eq!(t.apply(Signal::Other), Change::Ignore);
}

#[test]
fn one_path_stays_one_device() {
    let mut t = tree();
    for _ in 0..2 {
        t.apply(changed("/hci0/dev_9", IF_DEVICE, vec![("Name", text("Pad"))]));
    }
    assert_eq!(t.devices.iter().filter(|d| d.path == "/hci0/dev_9").count(), 1);
}

#[test]
fn changes_are_ordered_by_what_they_cost() {
    assert_eq!(loudest(Change::Detail, Change::Patch), Change::Patch);
    assert_eq!(loudest(Change::Restart, Change::Patch), Change::Restart);
    assert_eq!((device_change(true), device_change(false)), (Change::Patch, Change::Detail));
    assert_eq!(next(Change::Detail, false), Next::Wait);
    assert_eq!(next(Change::Detail, true), Next::Settle);
    assert_eq!(next(Change::Patch, false), Next::Settle);
    assert_eq!(next(Change::Ignore, true), Next::Wait);
    assert_eq!(next(Change::Restart, true), Next::End);
    assert_eq!(Member::of("InterfacesRemoved"), Member::InterfacesRemoved);
    assert_eq!(Member::of("Other"), Member::Other);
}

#[test]
fn a_tree_that_draws_the_same_cell_is_held_back() {
    let mut gate = Gate::new();
    let mut t = tree();
    assert!(gate.passes(&t, false));
    assert!(!gate.passes(&t, false));
    assert!(gate.passes(&t, true));
    t.devices[0].battery = Some(10);
    t.devices[1].battery = Some(10);
    assert!(gate.passes(&t, false));
}

#[test]
fn devices_stand_connected_first_then_paired_then_strongest() {
    let mut t = tree();
    t.apply(changed("/hci0/dev_3", IF_DEVICE, vec![("Name", text("Zed")), ("Paired", Datum::Bool(true))]));
    t.apply(changed("/hci0/dev_4", IF_DEVICE, vec![("Name", text("beta"))]));
    t.apply(changed("/hci0/dev_5", IF_DEVICE, vec![("Name", text("Alpha"))]));
    t.sort();
    let names: Vec<&str> = t.devices.iter().map(|d| d.name.as_str()).collect();
    assert_eq!(names, vec!["Headset", "Zed", "AA:02", "Alpha", "beta"]);
}

#[test]
fn batteries_are_tiered() {
    assert_eq!((battery_tier(36), battery_tier(35), battery_tier(20)), (0, 1, 2));
}

fn open_state() -> State {
    let mut state = State::new();
    state.update(Event::Snapshot(tree()));
    state
}

#[test]
fn only_its_own_reply_frees_a_row() {
    let mut state = open_state();
    let effects = state.update(Event::Connect("/hci0/dev_2".into()));
    assert_eq!(effects.call.as_ref().unwrap().subject(), "/hci0/dev_2");
    state.update(Event::Done { subject: Some("/hci0".into()), result: Ok(()) });
    assert_eq!(state.busy.as_deref(), Some("/hci0/dev_2"));
    state.update(Event::Done {
        subject: Some("/hci0/dev_2".into()),
        result: Err("no answer".into()),
    });
    assert_eq!((state.busy.as_deref(), state.error.as_deref()), (None, Some("no answer")));
    state.update(Event::Pair("/hci0/dev_2".into()));
    state.update(Event::Done { subject: None, result: Ok(()) });
    assert!(state.busy.is_none() && state.error.is_none());
}

#[test]
fn toggling_power_asks_for_the_other_state() {
    let mut state = open_state();
    let call = state.update(Event::TogglePowered).call;
    assert!(matches!(call, Some(Call::SetPowered { adapter, powered: false }) if adapter == "/hci0"));
    assert_eq!(state.busy.as_deref(), Some("/hci0"));
    let call = state.update(Event::SetDiscovering(true)).call;
    assert!(matches!(call, Some(Call::SetDiscovering { discovering: true, .. })));
    let effects = state.update(Event::Terminal("kitty".into()));
    assert!(effects.close_popup);
    assert_eq!(effects.call.unwrap().subject(), "");
    assert!(State::new().update(Event::TogglePowered).call.is_none());
    assert!(State::new().update(Event::SetPowered(true)).call.is_none());
    let call = state.update(Event::Disconnect("/hci0/dev_1".into())).call;
    assert!(matches!(call, Some(Call::Disconnect(path)) if path == "/hci0/dev_1"));
}

#[test]
fn the_cell_counts_past_the_first_device() {
    let mut state = open_state();
    let cell = state.cell().unwrap();
    assert_eq!((cell.glyph, cell.count.as_str(), cell.lit), ("\u{f00b1}", "", true));
    assert_eq!(cell.battery, Some(("30%".to_string(), 1)));
    state.snapshot.as_mut().unwrap().devices[1].connected = true;
    state.snapshot.as_mut().unwrap().devices[0].connected = true;
    assert_eq!(state.cell().unwrap().count, "2");
    state.snapshot.as_mut().unwrap().adapter.as_mut().unwrap().powered = false;
    assert_eq!(state.cell().unwrap().glyph, "\u{f00b2}");
    assert!(state.popup().unwrap().connected.is_empty());
    state.update(Event::Unavailable);
    assert!(state.cell().is_none() && state.popup().is_none() && !state.has_popup());
}

#[test]
fn the_bluetooth_popup_sorts_devices_into_sections() {
    let mut state = open_state();
    state.busy = Some("/hci0/dev_2".into());
    let popup = state.popup().unwrap();
    assert_eq!((popup.title.as_str(), popup.address.as_deref()), ("desk", Some("00:01")));
    assert_eq!(popup.connected.len(), 1);
    assert_eq!(popup.connected[0].name, "Headset");
    assert_eq!(popup.connected[0].readings, "30%");
    assert_eq!(popup.connected[0].low, Some(1));
    assert_eq!(popup.connected[0].glyph, "\u{f02cb}");
    assert!(popup.connected[0].idle && popup.paired.is_empty());
    assert_eq!(popup.nearby[0].readings, "-60dBm");
    assert!(!popup.nearby[0].idle && popup.idle && !popup.scanning);
    let rows = state.rows(&state.snapshot.as_ref().unwrap().devices, Section::Paired);
    assert!(rows.is_empty());
    let snapshot = state.snapshot.as_mut().unwrap();
    for n in 0..8 {
        snapshot.apply(changed(&format!("/hci0/x{n}"), IF_DEVICE, vec![("Name", text("x"))]));
    }
    assert_eq!((state.popup().unwrap().nearby.len(), state.popup().unwrap().more), (6, 3));
}

#[test]
fn icon_names_become_glyphs() {
    assert_eq!(device_icon("input-mouse"), "\u{f037d}");
    assert_eq!(device_icon("wearable"), "\u{f0589}");
    assert_eq!(device_icon("toaster"), "\u{f00af}");
}

#[test]
fn an_ignored_signal_leaves_the_tree_as_it_was() {
    let mut t = tree();
    let gone = Signal::Removed { path: "/hci1".into(), names: vec![IF_ADAPTER.to_string()] };
    let before = format!("{t:?}");
    for signal in [
        gone,
        changed("/hci1", IF_ADAPTER, vec![("Powered", Datum::Bool(false))]),
        Signal::Other,
    ] {
        assert_eq!(t.apply(signal), Change::Ignore);
        assert_eq!(format!("{t:?}"), before);
    }
}
