use cosmicbar::modules::brightness::display::{Display, Found, Sink, Target};
use cosmicbar::modules::brightness::level::{from_percent, to_percent};
use cosmicbar::modules::brightness::modes::{file_text, path, Levels, Loaded, Mode, Saves};
use cosmicbar::modules::brightness::popup::{key_event, Key, Listens, ModesRow};
use cosmicbar::modules::brightness::probe::{
    found_monitor, found_panel, read_detect, read_vcp, Unread,
};
use cosmicbar::modules::brightness::state::{Event, State, NUDGE_DEBOUNCE};

fn display(connector: &str, max: u32, percent: u32) -> Display {
    Display {
        found: Found {
            sink: Sink::Ddc {
                bus: connector.len() as u32,
                max,
            },
            label: format!("{connector} monitor"),
            connector: Some(connector.to_string()),
            percent,
        },
        pending: None,
        writing: false,
    }
}

fn mode(name: &str, levels: &[(&str, u32)]) -> Mode {
    let mut all = Levels::new();
    for (key, level) in levels {
        all.insert(key.to_string(), *level);
    }
    Mode {
        name: name.to_string(),
        levels: all,
    }
}

/// Two monitors at 80/70, with `day` (80/70) and `night` (20/15) saved.
fn state() -> State {
    let mut state = State {
        displays: vec![display("DP-1", 100, 80), display("DP-2", 100, 70)],
        ..State::default()
    };
    let _ = state.update(loaded(vec![
        mode("day", &[("DP-1", 80), ("DP-2", 70)]),
        mode("night", &[("DP-1", 20), ("DP-2", 15)]),
    ]), 0);
    state
}

fn loaded(modes: Vec<Mode>) -> Event {
    Event::ModesLoaded(Ok(Loaded {
        modes,
        generation: 0,
    }))
}

fn percents(state: &State) -> Vec<u32> {
    state
        .displays
        .iter()
        .map(|display| display.found.percent)
        .collect()
}

#[test]
fn the_mode_in_effect_is_the_one_every_display_matches() {
    let mut state = state();
    assert_eq!(state.active_mode(), Some(0));
    let _ = state.update(Event::SetLevel(Target::One(0), 81), 0);
    assert_eq!(state.active_mode(), None);
}

#[test]
fn cycling_steps_through_the_modes_and_wraps() {
    let mut state = state();
    let _ = state.update(Event::CycleMode, 0);
    assert_eq!(percents(&state), [20, 15]);
    assert_eq!(state.active_mode(), Some(1));
    let _ = state.update(Event::CycleMode, 0);
    assert_eq!(percents(&state), [80, 70]);
}

#[test]
fn cycling_off_a_mode_continues_from_the_last_one_applied() {
    let mut state = state();
    let _ = state.update(Event::ApplyMode(1), 0);
    let _ = state.update(Event::SetLevel(Target::All, 50), 0);
    let _ = state.update(Event::CycleMode, 0);
    assert_eq!(state.active_mode(), Some(0));
}

#[test]
fn cycling_moves_past_modes_that_share_levels() {
    let mut state = state();
    state.modes.insert(1, mode("work", &[("DP-1", 80), ("DP-2", 70)]));
    state.modes.push(mode("left", &[("DP-1", 80)]));
    let mut seen = Vec::new();
    for _ in 0..4 {
        let _ = state.update(Event::CycleMode, 0);
        seen.push(state.active_mode());
    }
    assert_eq!(seen, [Some(1), Some(2), Some(3), Some(0)]);
}

#[test]
fn an_unchanged_reload_keeps_the_editor_and_the_cycle() {
    let mut state = state();
    let _ = state.update(Event::ApplyMode(1), 0);
    let _ = state.update(Event::SetLevel(Target::All, 50), 0);
    let _ = state.update(Event::EditMode(0), 0);
    let modes = state.modes.clone();
    let _ = state.update(loaded(modes), 0);
    assert!(state.editor.is_some());
    let _ = state.update(Event::CancelEdit, 0);
    let _ = state.update(Event::SetLevel(Target::All, 50), 0);
    let _ = state.update(Event::CycleMode, 0);
    assert_eq!(state.active_mode(), Some(1));
    // A changed file may have moved the mode being edited.
    let _ = state.update(Event::EditMode(1), 0);
    let _ = state.update(loaded(vec![mode("dusk", &[("DP-1", 40)])]), 0);
    assert!(state.editor.is_none());
    assert_eq!(state.modes.len(), 1);
}

#[test]
fn a_load_older_than_an_edit_is_ignored() {
    let mut state = state();
    let _ = state.update(Event::NewMode, 0);
    let _ = state.update(Event::Typed("dusk".into()), 0);
    let _ = state.update(Event::SaveMode, 0);
    // Read before the save above ran.
    let _ = state.update(loaded(vec![mode("day", &[("DP-1", 80)])]), 0);
    assert_eq!(state.modes.len(), 3);
    // Read after it.
    let _ = state.update(Event::ModesLoaded(Ok(Loaded {
        modes: vec![mode("day", &[("DP-1", 80)])],
        generation: 1,
    })), 0);
    assert_eq!(state.modes.len(), 1);
}

#[test]
fn a_reload_after_a_failed_save_says_the_edit_is_gone() {
    let mut state = state();
    let _ = state.update(Event::Saved(Err("disk full".into())), 0);
    let modes = state.modes.clone();
    let _ = state.update(loaded(modes), 0);
    assert_eq!(state.modes_error, None, "nothing was lost");
    let _ = state.update(Event::Saved(Err("disk full".into())), 0);
    let _ = state.update(loaded(vec![mode("dusk", &[("DP-1", 40)])]), 0);
    assert!(state.modes_error.as_deref().unwrap().starts_with("disk full; unsaved"));
}

#[test]
fn a_mode_is_applied_by_name_whatever_its_case() {
    let mut state = state();
    let _ = state.update(Event::ApplyNamed(" Night ".into()), 0);
    assert_eq!(percents(&state), [20, 15]);
    let _ = state.update(Event::ApplyNamed("dusk".into()), 0);
    assert_eq!(percents(&state), [20, 15]);
}

#[test]
fn a_display_a_mode_does_not_name_is_left_alone() {
    let mut state = state();
    state.modes.push(mode("left only", &[("DP-1", 5)]));
    let _ = state.update(Event::ApplyMode(2), 0);
    assert_eq!(percents(&state), [5, 70]);
    assert_eq!(state.active_mode(), Some(2));
}

#[test]
fn a_new_mode_stores_the_current_levels() {
    let mut state = state();
    let _ = state.update(Event::SetLevel(Target::All, 40), 0);
    let _ = state.update(Event::NewMode, 0);
    let _ = state.update(Event::Typed("  dusk ".into()), 0);
    let _ = state.update(Event::SaveMode, 0);
    assert!(state.editor.is_none());
    assert_eq!(state.modes[2], mode("dusk", &[("DP-1", 40), ("DP-2", 40)]));
    assert_eq!(state.active_mode(), Some(2));
    assert_eq!(state.saves, 1);
}

#[test]
fn editing_applies_the_mode_and_keeps_levels_for_absent_displays() {
    let mut state = state();
    state.modes[1].levels.insert("HDMI-A-1".into(), 30);
    let _ = state.update(Event::EditMode(1), 0);
    assert_eq!(percents(&state), [20, 15]);
    let _ = state.update(Event::SetLevel(Target::One(1), 10), 0);
    // Ctrl+Backspace clears the one word, then the new name is typed.
    let _ = state.update(Event::Erase { word: true }, 0);
    let _ = state.update(Event::Typed("late".into()), 0);
    let _ = state.update(Event::SaveMode, 0);
    assert_eq!(
        state.modes[1],
        mode("late", &[("DP-1", 20), ("DP-2", 10), ("HDMI-A-1", 30)])
    );
}

#[test]
fn a_name_must_be_present_and_not_another_modes() {
    let mut state = state();
    let _ = state.update(Event::NewMode, 0);
    let _ = state.update(Event::Typed("   ".into()), 0);
    assert_eq!(state.draft_name(), None);
    let _ = state.update(Event::Typed("DAX".into()), 0);
    let _ = state.update(Event::Erase { word: false }, 0);
    let _ = state.update(Event::Typed("Y\n".into()), 0);
    assert_eq!(state.editor.as_ref().unwrap().name, "   DAY");
    assert_eq!(state.draft_name(), None);
    let _ = state.update(Event::SaveMode, 0);
    assert_eq!(state.modes.len(), 2);
    assert!(state.editor.is_some(), "an unsaveable draft stays open");
    // A mode keeps its own name.
    let _ = state.update(Event::CancelEdit, 0);
    let _ = state.update(Event::EditMode(0), 0);
    assert_eq!(state.draft_name().as_deref(), Some("day"));
}

#[test]
fn deleting_removes_only_the_mode_being_edited() {
    let mut state = state();
    let _ = state.update(Event::EditMode(0), 0);
    let _ = state.update(Event::DeleteMode, 0);
    assert_eq!(state.modes.len(), 1);
    assert_eq!(state.modes[0].name, "night");
    assert!(state.editor.is_none());
    // Cycling starts over at the first mode left.
    let _ = state.update(Event::CycleMode, 0);
    assert_eq!(percents(&state), [20, 15]);
    // Nothing to delete outside the editor.
    let _ = state.update(Event::DeleteMode, 0);
    assert_eq!(state.modes.len(), 1);
}

#[test]
fn nothing_is_edited_while_the_file_is_unreadable() {
    let mut state = state();
    let _ = state.update(Event::ModesLoaded(Err("bad toml".into())), 0);
    let _ = state.update(Event::NewMode, 0);
    let _ = state.update(Event::EditMode(0), 0);
    assert!(state.editor.is_none());
    // What was loaded before still applies.
    let _ = state.update(Event::ApplyMode(1), 0);
    assert_eq!(percents(&state), [20, 15]);
}

#[test]
fn levels_match_at_the_displays_own_resolution() {
    // Eight steps: 30% is written as 2 and reads back as 29%.
    let panel = Sink::Backlight {
        name: "intel_backlight".into(),
        max: 7,
    };
    assert_eq!(panel.raw(30), panel.raw(to_percent(panel.raw(30), 7)));
    // The floor: 0% on a panel is 1%, not off.
    assert_eq!(panel.raw(0), panel.raw(1));
}

#[test]
fn summaries_list_every_level() {
    let mode = mode("night", &[("DP-1", 20), ("DP-2", 15)]);
    assert_eq!(mode.summary(), "DP-1 20% · DP-2 15%");
}

#[test]
fn levels_stay_in_order_of_their_keys() {
    let mode = mode("x", &[("b", 1), ("a", 2), ("c", 3), ("a", 4)]);
    assert_eq!(mode.summary(), "a 4% · b 1% · c 3%");
    assert_eq!(mode.levels.get("b"), Some(1));
    assert_eq!(mode.levels.get("d"), None);
}

#[test]
fn percentages_round_as_floating_point_does() {
    for max in [1u32, 2, 7, 10, 50, 96, 100, 150, 255, 937, 1000, 19_200, 65_535, 96_000, u32::MAX] {
        for percent in 0..=110u32 {
            let expected = ((f64::from(percent.min(100)) / 100.0) * f64::from(max)).round() as u32;
            assert_eq!(from_percent(percent, max), expected, "{percent}% of {max}");
        }
        let step = (max / 997).max(1);
        let mut raw = 0u32;
        while raw <= max {
            let expected = ((f64::from(raw) / f64::from(max)) * 100.0)
                .round()
                .min(100.0) as u32;
            assert_eq!(to_percent(raw, max), expected, "{raw} of {max}");
            match raw.checked_add(step) {
                Some(next) => raw = next,
                None => return,
            }
        }
    }
    // 14.5, which a 64-bit float falls just short of.
    assert_eq!(from_percent(29, 50), 14);
    assert_eq!(to_percent(5, 0), 0);
}

#[test]
fn a_second_notch_within_the_debounce_is_dropped() {
    let mut state = state();
    state.update(Event::Nudge(Target::One(0), 1), 0);
    state.update(Event::Nudge(Target::One(0), 1), NUDGE_DEBOUNCE - 1);
    assert_eq!(percents(&state), [85, 70]);
    state.update(Event::Nudge(Target::All, -3), NUDGE_DEBOUNCE);
    assert_eq!(percents(&state), [80, 65]);
}

#[test]
fn writes_are_made_one_at_a_time_with_the_newest_level() {
    let mut state = state();
    let first = state.update(Event::SetLevel(Target::One(0), 50), 0);
    assert_eq!(first.writes.len(), 1);
    assert_eq!(first.writes[0].percent, 50);
    assert!(state.update(Event::SetLevel(Target::One(0), 40), 0).writes.is_empty());
    assert!(state.update(Event::SetLevel(Target::One(0), 30), 0).writes.is_empty());
    let next = state.update(
        Event::Wrote {
            index: 0,
            percent: 50,
            result: Err("i2c".into()),
        },
        0,
    );
    assert_eq!(next.writes.len(), 1);
    assert_eq!(next.writes[0].percent, 30);
    assert_eq!(state.error.as_deref(), Some("i2c"));
    let last = state.update(
        Event::Wrote {
            index: 0,
            percent: 30,
            result: Ok(()),
        },
        0,
    );
    assert!(last.writes.is_empty());
    assert!(state.error.is_none());
}

#[test]
fn a_refresh_does_not_fight_the_user() {
    let mut state = state();
    let sinks: Vec<Sink> = state.displays.iter().map(|d| d.found.sink.clone()).collect();
    state.displays[1].found.sink = Sink::Ddc { bus: 9, max: 100 };
    state.update(Event::SetLevel(Target::One(0), 50), 0);
    state.update(
        Event::Refreshed(vec![
            (sinks[0].clone(), 10),
            (Sink::Ddc { bus: 9, max: 100 }, 20),
            (Sink::Ddc { bus: 8, max: 100 }, 30),
        ]),
        0,
    );
    assert_eq!(percents(&state), [50, 20]);
}

#[test]
fn saves_older_than_one_that_ran_are_dropped() {
    let mut saves = Saves { newest: 0 };
    assert!(saves.takes(2));
    assert!(!saves.takes(1));
    assert!(!saves.takes(2));
    assert!(saves.takes(3));
}

#[test]
fn the_modes_are_kept_beside_the_config() {
    assert_eq!(
        path("/home/me/.config/cosmicbar/config.toml"),
        "/home/me/.config/cosmicbar/brightness-modes.toml"
    );
    assert!(file_text("x").ends_with("connector (or backlight device).\n\nx"));
}

#[test]
fn monitors_are_read_from_a_listing() {
    let output = "Display 1\n   I2C bus:  /dev/i2c-4\n   DRM connector:  card1-DP-2\n   Monitor: DEL:DELL U2720Q:ABC\n\nInvalid display\n   I2C bus:  /dev/i2c-x\n   Monitor: A:B:C\n\nDisplay 2\n   I2C bus: /dev/i2c-7\n";
    let monitors = read_detect(output);
    assert_eq!(monitors.len(), 2);
    assert_eq!(monitors[0].bus, 4);
    assert_eq!(monitors[0].connector.as_deref(), Some("DP-2"));
    assert_eq!(monitors[0].label.as_deref(), Some("DELL U2720Q"));
    assert_eq!(monitors[1].bus, 7);
    let mut monitors = monitors;
    let found = found_monitor(monitors.pop().unwrap(), 30, 60);
    assert_eq!(found.label, "i2c-7");
    assert_eq!(found.percent, 50);
    assert!(found_panel("intel".into(), 1, 0).is_none());
    assert_eq!(found_panel("intel".into(), 1, 4).unwrap().percent, 25);
}

#[test]
fn levels_are_read_from_an_answer() {
    assert!(matches!(read_vcp("x\n VCP 10 C 40 80\n"), Ok((40, 80))));
    assert!(matches!(read_vcp("VCP 10 C 40"), Ok((40, 100))));
    assert!(matches!(read_vcp("VCP 10 C 40 0"), Ok((40, 1))));
    assert!(matches!(read_vcp("nothing"), Err(Unread::Missing)));
    assert!(matches!(read_vcp("VCP 10 ERR"), Err(Unread::Unparsable(line)) if line == "VCP 10 ERR"));
}

#[test]
fn keys_drive_the_editor() {
    assert!(matches!(key_event(Key::Enter, false, false, false, None), Some(Event::SaveMode)));
    assert!(matches!(key_event(Key::Escape, false, false, false, None), Some(Event::CancelEdit)));
    assert!(matches!(
        key_event(Key::Backspace, true, false, false, None),
        Some(Event::Erase { word: true })
    ));
    assert!(key_event(Key::Other, true, false, false, Some("a".into())).is_none());
    assert!(matches!(
        key_event(Key::Other, false, false, false, Some("a".into())),
        Some(Event::Typed(text)) if text == "a"
    ));
}

#[test]
fn the_popup_lists_the_modes_and_the_editor() {
    let mut state = state();
    let block = state.modes_block();
    assert!(block.can_cycle && block.can_edit);
    assert_eq!(
        block.rows,
        [
            ModesRow::Mode { index: 0, active: true },
            ModesRow::Mode { index: 1, active: false }
        ]
    );
    state.update(Event::EditMode(1), 0);
    let block = state.modes_block();
    assert!(!block.can_edit);
    assert_eq!(block.rows[1], ModesRow::Editor);
    let row = state.editor_row().unwrap();
    assert!(row.can_save && row.can_delete);
    assert_eq!(row.detail, "saves DP-1 20% · DP-2 15%");
    let cell = state.cell(Some("DP-2")).unwrap();
    assert_eq!(cell.text, "15%");
    assert_eq!(cell.target, Target::One(1));
    assert_eq!(state.cell(None).unwrap().text, "17%");
}

#[test]
fn modes_are_stepped_to_only_where_there_are_displays() {
    let mut state = state();
    assert!(state.has_modes());
    state.displays.clear();
    assert!(!state.has_modes());
    assert!(!State::default().has_modes());
}

#[test]
fn levels_are_read_again_only_where_they_are_seen() {
    let mut state = state();
    assert_eq!(state.listens(false), Listens::Nothing);
    assert_eq!(state.listens(true), Listens::Levels { keys: false });
    let _ = state.update(Event::NewMode, 0);
    assert_eq!(state.listens(true), Listens::Levels { keys: true });
    state.displays.clear();
    assert_eq!(state.listens(true), Listens::Displays);
}

#[test]
fn the_popup_has_a_slider_for_each_display() {
    let mut state = state();
    let popup = state.popup().unwrap();
    assert!(state.has_popup() && popup.error.is_none());
    let sliders: Vec<u32> = popup.sliders.iter().map(|slider| slider.percent).collect();
    assert_eq!(sliders, [80, 70]);
    assert!(popup.sliders[0].heading.contains("DP-1 monitor"));
    assert_eq!(popup.modes.rows.len(), 2);
    state.displays.clear();
    assert!(state.popup().is_none() && !state.has_popup());
}

#[test]
fn a_level_that_was_set_reads_back() {
    for max in [1, 7, 100, 255, 19_393, 1_515_151, u32::MAX] {
        for sink in [
            Sink::Ddc { bus: 1, max },
            Sink::Backlight { name: "panel".into(), max },
        ] {
            for percent in 0..=100 {
                let raw = sink.raw(percent);
                let read = to_percent(raw, max);
                assert_eq!(sink.raw(read), raw, "{percent}% of {max}");
                if max >= 100 && percent >= 1 {
                    assert_eq!(read, percent, "{percent}% of {max}");
                }
            }
        }
        let panel = Sink::Backlight { name: "panel".into(), max };
        assert_eq!(panel.raw(0), panel.raw(1));
    }
}

#[test]
fn a_mode_moves_only_what_it_names() {
    let mut state = state();
    let dim = vec![mode("dim", &[("DP-2", 5), ("HDMI-1", 90)])];
    let _ = state.update(loaded(dim), 0);
    let _ = state.update(Event::ApplyMode(0), 0);
    assert_eq!(percents(&state), [80, 5]);
    assert_eq!(state.displays[0].pending, None);
    let _ = state.update(Event::ApplyMode(7), 0);
    assert_eq!(percents(&state), [80, 5]);
}
