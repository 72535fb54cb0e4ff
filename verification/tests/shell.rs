use cosmicbar::backoff::Ladder;
use cosmicbar::bar::{
    island_group, label, rebuilds, region, tick_wait, Bar, Corners, Effect, Happening, Island, RightClick,
    Verb,
};
use cosmicbar::config::{path, reaction, Config, Extension as Declared};
use cosmicbar::control::{socket_path, Command};
use cosmicbar::extension::{
    classify, is_news, Cell, Command as Told, Frame, Item, Read, Reader, Role, Step,
};
use cosmicbar::glyph::right_bearing;
use cosmicbar::modules::extension::{Event, State};
use cosmicbar::modules::extensions::Extensions;
use cosmicbar::modules::id::{unknown_text, ModuleId, Names};
use cosmicbar::number::{parse_i64, parse_u64, signed, unsigned};
use cosmicbar::paths::{join_path, with_file_name};
use cosmicbar::surface::{Motion, Seen, Touch};
use cosmicbar::text::{elide, lines, split, trim, words};

#[test]
fn names_name_their_modules() {
    let mut names = Names::new();
    assert_eq!(ModuleId::parse("network", &mut names), Some(ModuleId::Network));
    assert_eq!(ModuleId::parse("nothing", &mut names), None);
    let mlq = ModuleId::parse("extension:mlq", &mut names).unwrap();
    assert_eq!(mlq.name(&names), "extension:mlq");
    assert_eq!(ModuleId::extension("mlq", &mut names), mlq);
    assert_eq!(ModuleId::parse_declared("extension:mlq", &names), Some(mlq));
    assert_eq!(ModuleId::parse_declared("extension:other", &names), None);
    assert_eq!(ModuleId::IdleInhibitor.name(&names), "idle_inhibitor");
    assert!(unknown_text("nothing").contains("`nothing`"));
}

#[test]
fn commands_are_read_from_a_line() {
    let mut names = Names::new();
    let mlq = ModuleId::extension("mlq", &mut names);
    assert_eq!(Command::parse("toggle network", &names), Ok(Command::Toggle(ModuleId::Network)));
    assert_eq!(Command::parse(" toggle extension:mlq now\n", &names), Ok(Command::Toggle(mlq)));
    assert_eq!(Command::parse("close", &names), Ok(Command::Close));
    assert_eq!(Command::parse("reload", &names), Ok(Command::Reload));
    assert_eq!(Command::parse("brightness-mode", &names), Ok(Command::BrightnessMode(None)));
    assert_eq!(
        Command::parse("brightness-mode late  night\n", &names),
        Ok(Command::BrightnessMode(Some("late night".to_string())))
    );
    assert_eq!(Command::parse("  ", &names), Err("empty command".to_string()));
    assert_eq!(Command::parse("open", &names), Err("unknown command `open`".to_string()));
    assert!(Command::parse("toggle", &names).is_err());
    assert!(Command::parse("toggle nothing", &names).is_err());
}

#[test]
fn the_control_socket_is_named_after_the_display() {
    assert_eq!(
        socket_path(Some("/run/user/1000"), "/tmp", Some("wayland-1")),
        "/run/user/1000/cosmicbar-wayland-1.sock"
    );
    assert_eq!(socket_path(None, "/tmp", None), "/tmp/cosmicbar-wayland-0.sock");
}

#[test]
fn the_config_is_found_and_watched() {
    assert_eq!(path(Some("/cfg"), Some("/home/me")), "/cfg/cosmicbar/config.toml");
    assert_eq!(path(None, Some("/home/me")), "/home/me/.config/cosmicbar/config.toml");
    let file = reaction(Some("config.toml"), Some("cosmicbar"), "config.toml");
    assert!(file.reload && !file.rearm);
    let dir = reaction(Some("cosmicbar"), Some("cosmicbar"), "config.toml");
    assert!(dir.reload && dir.rearm);
    let other = reaction(Some("other"), Some("cosmicbar"), "config.toml");
    assert!(!other.reload && !other.rearm);
}

#[test]
fn a_config_wants_what_it_places() {
    let mut names = Names::new();
    let mlq = ModuleId::extension("mlq", &mut names);
    let mut config = Config::default();
    config.left = vec![ModuleId::Cpu, mlq];
    config.center = vec![ModuleId::Time];
    config.right = vec![];
    config.extensions =
        vec![Declared { name: "mlq".into(), command: vec!["cosmicbar-mlq".into()] }];
    let config = config.indexed();
    assert_eq!(config.modules(), vec![ModuleId::Cpu, mlq, ModuleId::Time]);
    assert!(config.wants(ModuleId::Cpu) && config.wants(mlq) && !config.wants(ModuleId::Gpu));
    assert_eq!(config.extension(mlq, &names).unwrap().command[0], "cosmicbar-mlq");
    assert!(config.extension(ModuleId::Cpu, &names).is_none());
    let mut extensions = Extensions::new();
    extensions.sync(&config, &names);
    assert_eq!(extensions.states.len(), 1);
    assert!(!extensions.has_popup(extensions.states[0].index));
    assert!(matches!(extensions.set_popup(Some(ModuleId::Cpu))[..], [None]));
    assert!(!extensions.states[0].open);
}

#[test]
fn an_extension_is_told_when_its_popup_opens_and_closes() {
    let mut names = Names::new();
    let mlq = ModuleId::extension("mlq", &mut names);
    let mut config = Config::default();
    config.left = vec![mlq];
    config.extensions =
        vec![Declared { name: "mlq".into(), command: vec!["cosmicbar-mlq".into()] }];
    let config = config.indexed();
    let mut extensions = Extensions::new();
    extensions.sync(&config, &names);
    let index = extensions.states[0].index;
    // A program that does not run is told once it starts.
    assert!(matches!(extensions.set_popup(Some(mlq))[..], [None]));
    assert!(extensions.states[0].open);
    let told = extensions.update(index, Event::Started);
    assert!(matches!(told, Some(Told::Popup { popup: true })));
    let told = extensions.set_popup(None);
    assert!(matches!(told[..], [Some(Told::Popup { popup: false })]));
    assert!(matches!(extensions.set_popup(None)[..], [None]));
}

#[test]
fn the_shipped_layout_is_the_documented_one() {
    let config = Config::default();
    let names = Names::new();
    let named =
        |ids: &Vec<ModuleId>| ids.iter().map(|id| id.name(&names)).collect::<Vec<_>>().join(" ");
    assert_eq!(config.height, 24);
    assert_eq!(config.palette, "catppuccin-mocha");
    assert_eq!(config.terminal, "kitty");
    assert!(config.outputs.is_empty());
    assert_eq!(named(&config.left), "launcher taskbar");
    assert_eq!(
        named(&config.center),
        "cpu memory gpu workspaces idle_inhibitor date time network bluetooth updates \
         notifications tray"
    );
    assert_eq!(named(&config.right), "mpris volume brightness battery power");
    assert!(config.extensions.is_empty());
}

#[test]
fn outputs_get_and_lose_their_bars() {
    let mut bar = Bar::new();
    let all: Vec<String> = Vec::new();
    let made = bar.add_bar(1, Some("DP-1".into()), &all, 11);
    assert_eq!(made, Some(Effect::CreateBar { surface: 11, output: 1 }));
    assert_eq!(bar.add_bar(1, Some("DP-1".into()), &all, 12), None);
    let only = vec!["DP-9".to_string()];
    assert_eq!(bar.add_bar(2, Some("DP-2".into()), &only, 13), None);
    bar.toggle_popup(11, ModuleId::Network, true, true, 20);
    assert_eq!(bar.output_of(Some(11)), Some("DP-1"));
    assert_eq!(bar.remove_bar(1), vec![Effect::DestroyBar(11), Effect::ClosePopup(20)]);
    assert!(bar.bars.is_empty() && bar.popup.is_none());
    assert!(bar.remove_bar(1).is_empty());
}

#[test]
fn toggling_twice_closes() {
    let mut bar = Bar::new();
    bar.add_bar(1, None, &vec![], 11);
    let open = bar.toggle_popup(11, ModuleId::Cpu, true, true, 20);
    let wanted = Effect::OpenPopup { id: 20, parent: 11, module: ModuleId::Cpu, grab: true };
    assert_eq!(open, vec![wanted]);
    assert_eq!(bar.toggle_popup(11, ModuleId::Cpu, true, true, 21), vec![Effect::ClosePopup(20)]);
    assert!(bar.popup.is_none());
    bar.toggle_popup(11, ModuleId::Cpu, true, true, 22);
    let other = bar.toggle_popup(11, ModuleId::Gpu, false, true, 23);
    assert_eq!(other[0], Effect::ClosePopup(22));
    assert_eq!(other.len(), 2);
    bar.dismissed(1);
    assert!(bar.popup.is_some());
    bar.dismissed(23);
    assert!(bar.popup.is_none());
    assert!(bar.toggle_popup(11, ModuleId::Date, true, false, 24).is_empty());
    assert!(bar.close_popup().is_empty());
}

#[test]
fn keybinds_open_on_the_first_bar() {
    let mut bar = Bar::new();
    assert!(bar.keybind(ModuleId::Cpu, true, 20).is_empty());
    bar.add_bar(1, None, &vec![], 11);
    bar.add_bar(2, None, &vec![], 12);
    let wanted = Effect::OpenPopup { id: 21, parent: 11, module: ModuleId::Cpu, grab: false };
    assert_eq!(bar.keybind(ModuleId::Cpu, true, 21), vec![wanted]);
    assert!(bar.settle(true).is_empty());
    assert_eq!(bar.settle(false), vec![Effect::ClosePopup(21)]);
    assert!(bar.popup.is_none() && bar.settle(false).is_empty());
}

#[test]
fn a_reload_moves_the_bars() {
    let mut bar = Bar::new();
    bar.add_bar(1, Some("DP-1".into()), &vec![], 11);
    bar.add_bar(2, Some("DP-2".into()), &vec![], 12);
    let before = Config::default();
    let mut after = Config::default();
    assert!(!rebuilds(&before, &after));
    assert!(bar.reload(&before, &after, 30).is_empty());
    bar.toggle_popup(12, ModuleId::Cpu, false, true, 21);
    assert!(bar.reload(&before, &after, 30).is_empty() && bar.popup.is_some());
    let bare = Config { left: vec![], center: vec![], right: vec![], ..Config::default() }.indexed();
    assert_eq!(bar.reload(&before, &bare, 30), vec![Effect::ClosePopup(21)]);
    after.outputs = vec!["DP-2".to_string()];
    assert!(rebuilds(&before, &after));
    let effects = bar.reload(&before, &after, 30);
    assert!(effects.contains(&Effect::DestroyBar(11)));
    assert!(effects.contains(&Effect::CreateBar { surface: 30, output: 2 }));
    assert_eq!((bar.bars.len(), bar.bars[0].output), (1, 2));
    assert!(rebuilds(&Config { height: after.height + 1, ..Config::default() }, &before));
}

#[test]
fn neighbours_share_an_island() {
    let cells = vec![
        (ModuleId::Launcher, Island::Flat),
        (ModuleId::Cpu, Island::Start),
        (ModuleId::Bluetooth, Island::Join),
        (ModuleId::Gpu, Island::Start),
    ];
    let groups = region(&cells);
    assert_eq!(groups.len(), 3);
    assert_eq!(groups[1].members, vec![ModuleId::Cpu, ModuleId::Bluetooth]);
    let order: Vec<ModuleId> = groups.iter().flat_map(|group| group.members.clone()).collect();
    assert_eq!(order, cells.iter().map(|cell| cell.0).collect::<Vec<_>>());
}

#[test]
fn cells_are_round_at_the_ends_of_their_group() {
    let members = vec![
        (ModuleId::Cpu, true),
        (ModuleId::Network, true),
        (ModuleId::IdleInhibitor, false),
    ];
    let cells = island_group(&members, true);
    assert_eq!(cells[0].corners, Corners { left: true, right: false });
    assert_eq!(cells[2].corners, Corners { left: false, right: true });
    assert_eq!(cells[0].right, RightClick::Toggle);
    assert_eq!(cells[1].right, RightClick::Do(Verb::ToggleWireless));
    assert_eq!(cells[2].right, RightClick::Do(Verb::ToggleInhibitor));
    assert!(cells[1].gap && !cells[2].gap);
    assert_eq!(island_group(&vec![(ModuleId::Date, false)], true)[0].right, RightClick::Nothing);
    let brightness = vec![(ModuleId::Brightness, true)];
    assert_eq!(island_group(&brightness, true)[0].right, RightClick::Do(Verb::CycleMode));
    assert_eq!(island_group(&brightness, false)[0].right, RightClick::Toggle);
}

#[test]
fn the_bar_sleeps_to_the_next_tick() {
    assert_eq!(tick_wait(true, 30, 250), 750);
    assert_eq!(tick_wait(false, 30, 250), 29_750);
    let names = Names::new();
    assert_eq!(label(&Happening::Toggle(ModuleId::Cpu), &names), "Toggle(cpu)");
    assert_eq!(label(&Happening::OutputReady(None), &names), "OutputReady(?)");
}

#[test]
fn a_ladder_starts_over_after_a_healthy_session() {
    let steps = [1u64, 2, 5];
    let mut ladder = Ladder::new();
    let delays: Vec<u64> = (0..4).map(|_| ladder.fail(&steps, false)).collect();
    assert_eq!(delays, vec![1, 2, 5, 5]);
    assert_eq!(ladder.fail(&steps, true), 1);
}

fn frame(text: &str) -> Frame {
    Frame {
        cell: Some(Cell { glyph: "x".into(), text: text.into(), color: Role::Fg }),
        header: None,
        popup: vec![Item::Divider],
    }
}

#[test]
fn lines_of_an_extension_are_told_apart() {
    assert_eq!(classify(b""), Read::End);
    assert_eq!(classify(b"{}"), Read::Runaway);
    assert_eq!(classify(b" \t\n"), Read::Blank);
    assert_eq!(classify(b"{}\n"), Read::Frame);
    assert!(is_news(&None, &frame("1")));
    assert!(is_news(&Some(frame("1")), &frame("2")));
    assert!(!is_news(&Some(frame("1")), &frame("1")));
}

#[test]
fn a_program_knows_whether_its_popup_is_open() {
    let mut state = State::new(0, vec!["x".into()]);
    assert!(state.set_open(true).is_none());
    assert!(matches!(state.update(Event::Started), Some(Told::Popup { popup: true })));
    assert!(state.update(Event::Frame(frame("1"))).is_none());
    assert_eq!(state.cell().unwrap().text, "1");
    assert!(state.has_popup());
    assert!(matches!(state.set_open(false), Some(Told::Popup { popup: false })));
    let press = state.update(Event::Press("go".into()));
    assert!(matches!(press, Some(Told::Action { action }) if action == "go"));
    state.update(Event::Stopped);
    assert!(state.cell().is_some());
    assert!(state.update(Event::Press("go".into())).is_none());
}

#[test]
fn a_press_ends_with_its_pointer() {
    let mut touch = Touch::new();
    assert_eq!(touch.follow(Motion::Moved { over: true }).hover, Some(true));
    assert_eq!(touch.follow(Motion::Pressed { over: true }).press, Some(true));
    let fades = touch.follow(Motion::Left);
    assert_eq!((fades.hover, fades.press), (Some(false), Some(false)));
    let fades = touch.follow(Motion::Released);
    assert_eq!((fades.hover, fades.press), (None, None));
    assert_eq!(touch.follow(Motion::Pressed { over: false }).press, None);
}

#[test]
fn a_surface_sees_its_own_pointer() {
    let mut seen: Seen<(i32, i32)> = Seen::Unseen;
    assert_eq!(seen.shown(Some((1, 2))), Some((1, 2)));
    seen.follow(Some((3, 4)));
    assert_eq!(seen.shown(Some((1, 2))), Some((3, 4)));
    seen.follow(None);
    assert_eq!(seen.shown(Some((1, 2))), None);
}

#[test]
fn narrow_glyphs_have_a_bearing() {
    assert_eq!(right_bearing("\u{f050f}"), 913);
    assert_eq!(right_bearing("a\u{f0142}"), 1290);
    assert_eq!((right_bearing("x"), right_bearing("")), (0, 0));
    assert_eq!(913 as f32 / 10_000.0, 0.0913f32);
    assert_eq!(500 as f32 / 10_000.0, 0.05f32);
}

#[test]
fn texts_are_cut_and_split() {
    assert_eq!(elide("abcdef", 4), "abc…");
    assert_eq!(elide("abcd", 4), "abcd");
    assert_eq!(lines("a\r\nb\n"), vec!["a", "b"]);
    assert_eq!(words(" a\tb  c\n"), vec!["a", "b", "c"]);
    assert_eq!(split("a;;b", ';'), vec!["a", "", "b"]);
    assert_eq!(trim("\u{a0} a \n"), "a");
    assert_eq!(join_path("/a", "b"), "/a/b");
    assert_eq!(join_path("/a", "/b"), "/b");
    assert_eq!(with_file_name("/a/b.toml", "c.toml"), "/a/c.toml");
}

#[test]
fn printed_numbers_read_back() {
    for n in [0, 7, -12, 2910, i64::MAX, i64::MIN] {
        assert_eq!(parse_i64(&signed(n)), Some(n));
    }
    assert_eq!(signed(-12), "-12");
    assert_eq!(parse_u64(&unsigned(u64::MAX)), Some(u64::MAX));
    assert_eq!(parse_u64("18446744073709551616"), None);
    assert_eq!(parse_i64("+5"), Some(5));
    assert_eq!(parse_i64("-"), None);
}

#[test]
fn interning_keeps_the_names_it_knew() {
    let mut names = Names::new();
    let first = names.intern("mlq");
    let second = names.intern("calendar");
    assert_eq!((first, second), (0, 1));
    assert_eq!(names.intern("mlq"), first);
    assert_eq!(names.names, ["mlq", "calendar"]);
    assert_eq!(ModuleId::Extension(first).name(&names), "extension:mlq");
}

#[test]
fn a_command_names_a_program() {
    assert!(Reader::start(&vec!["mlq".to_string()]).unwrap().last.is_none());
    assert_eq!(Reader::start(&Vec::new()).err().as_deref(), Some("empty command"));
}

#[test]
fn a_run_sends_what_is_new_and_stops_at_what_is_no_line() {
    let mut run = Reader::start(&vec!["mlq".to_string()]).unwrap();
    let mut read = |line: &[u8], text: Option<&str>| run.step(line, text.map(frame));
    assert_eq!(read(b"{1}\n", Some("1")), Step::Send);
    assert_eq!(read(b" \n", None), Step::Pass);
    assert_eq!(read(b"{1}\n", Some("1")), Step::Pass);
    assert_eq!(read(b"{\n", None), Step::Pass);
    assert_eq!(read(b"{2}\n", Some("2")), Step::Send);
    assert_eq!(read(b"{1}\n", Some("1")), Step::Send);
    assert_eq!(read(b"{3}", Some("3")), Step::Stop);
    assert_eq!(read(b"", None), Step::Stop);
    assert_eq!(run.last.unwrap().cell.unwrap().text, "1");
}

#[test]
fn a_program_pops_up_when_its_frame_has_something_to_list() {
    let mut state = State::new(0, vec!["x".into()]);
    assert!(!state.has_popup() && state.popup().is_none());
    state.frame = Some(frame("1"));
    assert!(state.has_popup());
    assert_eq!(state.popup().unwrap().popup.len(), 1);
    state.frame = Some(Frame { popup: Vec::new(), ..frame("1") });
    assert!(!state.has_popup() && state.popup().is_none());
}
