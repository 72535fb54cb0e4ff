use cosmicbar::modules::battery::{
    detail, duration, exact, kind_glyph, kind_name, level_name, stale, state_name, take_snapshot,
    Device, Event, Gate, State, CHARGING_GLYPH, UNKNOWN_GLYPH,
};
use cosmicbar::reading::{
    tens, Reading, EIGHTY, FIFTY, FORTY, HUNDRED, NINETY, SEVENTY, SIXTY, TEN, THIRTY, TWENTY,
};

fn reading(value: f64) -> Reading {
    Reading {
        order: value.to_bits() as i64,
        shown: format!("{value:.0}"),
    }
}

fn device(kind: u32, percentage: f64) -> Device {
    Device {
        kind,
        state: 2,
        percentage: reading(percentage),
        battery_level: 0,
        time_to_empty: 0,
        time_to_full: 0,
        watts: None,
        power_supply: false,
        present: true,
        vendor: String::new(),
        model: String::new(),
        updated: 0,
    }
}

#[test]
fn the_tens_are_ordered_as_floats_are() {
    let orders = [
        TEN, TWENTY, THIRTY, FORTY, FIFTY, SIXTY, SEVENTY, EIGHTY, NINETY, HUNDRED,
    ];
    for (i, order) in orders.iter().enumerate() {
        assert_eq!(*order, ((i + 1) as f64 * 10.0).to_bits() as i64);
    }
    for n in 0..=1000 {
        let value = n as f64 / 10.0;
        let step = ((value / 10.0) as usize).min(9);
        assert_eq!(tens(value.to_bits() as i64), step, "{value}");
    }
}

#[test]
fn only_unknown_and_none_are_exact() {
    assert!(exact(0) && exact(1));
    assert!(!exact(2) && !exact(3) && !exact(8));
}

#[test]
fn the_bar_speaks_for_the_machine_and_not_for_a_peripheral() {
    let mut mouse = device(5, 4.0);
    mouse.vendor = "Logi".into();
    mouse.model = "Logi MX".into();
    let mut battery = device(2, 55.0);
    battery.power_supply = true;
    let snapshot = take_snapshot(true, None, vec![battery, mouse, device(1, 100.0), device(6, 0.0)]);
    let names: Vec<String> = snapshot.devices.iter().map(Device::name).collect();
    assert_eq!(names, ["Logi MX", "battery"]);
    let key = snapshot.bar_key().unwrap();
    assert_eq!(key.charge, "55%");
    assert_eq!(key.glyph, "\u{f007f}");
    assert_eq!(key.tier, 3);
    assert!(take_snapshot(false, None, vec![device(5, 4.0)]).bar_key().is_none());
}

#[test]
fn tiers_follow_charge_and_coarse_levels() {
    let mut d = device(5, 10.0);
    assert_eq!(d.tier(), 1);
    d.percentage = reading(20.0);
    assert_eq!(d.tier(), 2);
    d.percentage = reading(20.5);
    assert_eq!(d.tier(), 4);
    d.battery_level = 3;
    assert_eq!(d.tier(), 2);
    d.battery_level = 5;
    assert_eq!(d.tier(), 1);
    assert_eq!(d.charge(), "action");
    d.battery_level = 2;
    assert_eq!(d.tier(), 4);
    d.state = 5;
    assert_eq!(d.tier(), 0);
    d.power_supply = true;
    d.kind = 3;
    assert_eq!(d.glyph(), CHARGING_GLYPH);
}

#[test]
fn a_snapshot_that_draws_the_same_cell_is_held_back() {
    let mut gate = Gate::new();
    let with_mouse = |percentage: f64| take_snapshot(false, None, vec![device(5, percentage)]);
    assert!(gate.passes(&with_mouse(50.0), false));
    assert!(!gate.passes(&with_mouse(49.0), false));
    assert!(gate.passes(&with_mouse(48.0), true));
    let mut battery = device(2, 48.4);
    battery.power_supply = true;
    assert!(gate.passes(&take_snapshot(false, None, vec![battery]), false));
    let mut battery = device(2, 48.3);
    battery.power_supply = true;
    assert!(!gate.passes(&take_snapshot(false, None, vec![battery]), false));
}

#[test]
fn details_read_as_words() {
    let mut d = device(17, 50.0);
    d.time_to_empty = 3900;
    d.watts = Some("1.5".into());
    d.updated = 1_000;
    assert_eq!(
        detail(&d, 1_700_000),
        "discharging · headset · 1 hr 5 min to empty · 1.5 W · updated 11 min ago"
    );
    assert_eq!(duration(59), "0 min");
    assert_eq!(stale(1_000, 1_599_000), None);
    assert_eq!(stale(1_000, 8_200_000).as_deref(), Some("2 hr"));
    assert_eq!(stale(1_000, 173_900_000).as_deref(), Some("2 d"));
    assert_eq!(kind_name(28), "bluetooth device");
    assert_eq!(kind_name(99), "device");
    assert_eq!(kind_glyph(99), UNKNOWN_GLYPH);
    assert_eq!(state_name(4), "fully charged");
    assert_eq!(level_name(3), "low");
    assert_eq!(level_name(4), "critical");
    assert_eq!(level_name(5), "action");
    assert_eq!(level_name(6), "normal");
    assert_eq!(level_name(7), "high");
    assert_eq!(level_name(8), "full");
    assert_eq!(level_name(2), "unknown");
}

#[test]
fn a_service_that_went_away_hides_the_module() {
    let mut state = State { snapshot: None };
    state.update(Event::Snapshot(take_snapshot(false, None, Vec::new())));
    assert!(state.has_popup());
    state.update(Event::Unavailable);
    assert!(!state.has_popup());
}

#[test]
fn the_battery_popup_lists_the_machine_and_then_the_rest() {
    let mut battery = device(2, 55.0);
    battery.power_supply = true;
    let mut mouse = device(5, 4.0);
    mouse.model = "MX".into();
    let snapshot = take_snapshot(true, Some(battery), vec![mouse]);
    let mut state = State { snapshot: None };
    assert!(state.popup(0).is_none() && !state.has_popup());
    state.update(Event::Snapshot(snapshot));
    let cell = state.cell().unwrap();
    assert_eq!((cell.charge.as_str(), cell.tier), ("55%", 3));
    let popup = state.popup(0).unwrap();
    assert_eq!((popup.title, popup.warns), ("on battery", true));
    assert_eq!(popup.charge.as_ref().map(|(text, _)| text.as_str()), Some("55%"));
    let rows: Vec<(&str, &str)> =
        popup.rows.iter().map(|row| (row.name.as_str(), row.charge.as_str())).collect();
    assert_eq!(rows, [("battery", "55%"), ("MX", "4%")]);
    state.update(Event::Snapshot(take_snapshot(false, None, Vec::new())));
    let popup = state.popup(0).unwrap();
    assert_eq!((popup.title, popup.warns), ("on AC power", false));
    assert!(popup.charge.is_none() && popup.rows.is_empty() && state.cell().is_none());
}
