use cosmicbar::modules::idle_inhibitor;
use cosmicbar::modules::idle_inhibitor::{Effect, Mood};
use cosmicbar::modules::launcher::{
    browsers, desktop_id, desktop_name, entries, files, handlers, leaf, monitors, places,
    search_dirs, terminal_monitors, Event, Probe, State, Target, BROWSER_MIME,
};

fn names(probes: &[Probe]) -> Vec<String> {
    probes
        .iter()
        .map(|probe| match probe {
            Probe::Binary(program) => format!("b:{program}"),
            Probe::Desktop(id) => format!("d:{id}"),
        })
        .collect()
}

#[test]
fn desktop_entries_are_named_by_their_own_group() {
    let text = "[Before]\nName=wrong\n[Desktop Entry]\nType=Application\nName[de]=Falsch\nName= Helium \n[Desktop Action new]\nName=New\n";
    assert_eq!(desktop_name(text).as_deref(), Some("Helium"));
    assert!(desktop_name("[Desktop Entry]\n[Desktop Action new]\nName=New\n").is_none());
    assert!(desktop_name("Name=x\n").is_none());
}

#[test]
fn handlers_answer_for_their_exact_type() {
    let text = "[Added Associations]\nx-scheme-handler/https=extra.desktop;\n[Default Applications]\nx-scheme-handler/http=wrong.desktop\nx-scheme-handler/https=helium.desktop; ;other.desktop\n";
    assert_eq!(
        handlers(text, BROWSER_MIME),
        vec!["helium.desktop".to_string(), "other.desktop".to_string(), "extra.desktop".to_string()]
    );
    assert_eq!(handlers(text, "x-scheme-handler/http"), vec!["wrong.desktop".to_string()]);
    assert!(handlers(text, "text/plain").is_empty());
}

#[test]
fn browsers_are_tried_configured_first() {
    let defaults = vec!["helium.desktop".to_string()];
    let line = names(&browsers(Some("/opt/my/browser"), &defaults));
    assert_eq!(line[..3], ["b:/opt/my/browser", "d:helium", "b:firefox"]);
    assert_eq!(line.len(), 8);
    assert_eq!(names(&browsers(Some("zen.desktop"), &vec![]))[0], "d:zen");
    assert_eq!(names(&browsers(Some(""), &vec![]))[0], "b:firefox");
    assert_eq!(names(&browsers(None, &vec![])).len(), 6);
}

#[test]
fn roles_have_their_candidates() {
    assert_eq!(names(&files())[0], "b:nautilus");
    assert_eq!(names(&monitors())[1], "d:net.nokyan.Resources");
    assert_eq!(names(&terminal_monitors()), vec!["b:btop", "b:htop"]);
    assert_eq!(desktop_id("helium.desktop"), "helium");
    assert_eq!(desktop_id("helium"), "helium");
    assert_eq!(leaf("/usr/bin/kitty"), "kitty");
}

#[test]
fn targets_say_what_they_run() {
    let binary = Target::binary("/usr/bin/kitty");
    assert_eq!((binary.hint.as_str(), binary.argv.len()), ("kitty", 1));
    let gio = Target::desktop("helium", "/a/helium.desktop", Some("Helium".into()), true, true);
    let gio = gio.unwrap();
    assert_eq!(gio.hint, "Helium");
    assert_eq!(gio.argv, vec!["gio", "launch", "/a/helium.desktop"]);
    let gtk = Target::desktop("helium", "/a/helium.desktop", None, false, true).unwrap();
    assert_eq!((gtk.hint.as_str(), gtk.argv), ("helium", vec!["gtk-launch".to_string(), "helium".into()]));
    assert!(Target::desktop("helium", "/a", None, false, false).is_none());
    assert_eq!(Target::in_terminal("btop", "kitty").argv, vec!["kitty", "-e", "btop"]);
}

#[test]
fn an_empty_variable_is_unset() {
    let dirs = search_dirs(Some(""), Some("/home/me"), ".local/share", Some(""), "/usr/local/share:/usr/share");
    assert_eq!(dirs, vec!["/home/me/.local/share", "/usr/local/share", "/usr/share"]);
    let dirs = search_dirs(Some("/data"), Some("/home/me"), ".local/share", Some("/x"), "/usr");
    assert_eq!(dirs, vec!["/data", "/x"]);
    assert_eq!(search_dirs(None, None, ".config", None, "/etc/xdg"), vec!["/etc/xdg"]);
}

#[test]
fn programs_are_looked_for_on_the_path() {
    assert_eq!(places("kitty", Some("/usr/bin:/bin")), vec!["/usr/bin/kitty", "/bin/kitty"]);
    assert_eq!(places("./kitty", Some("/usr/bin")), vec!["./kitty"]);
    assert!(places("kitty", None).is_empty());
}

#[test]
fn the_card_lists_what_is_installed() {
    let card = entries(
        Some(Target::binary("walker")),
        None,
        Some(Target::binary("nautilus")),
        None,
        Some(Target::in_terminal("btop", "kitty")),
    );
    let labels: Vec<&str> = card.iter().map(|entry| entry.label).collect();
    assert_eq!(labels, vec!["Applications", "Files", "System monitor"]);
    assert_eq!(card[1].target.hint, "nautilus");
}

#[test]
fn launching_clears_the_last_error() {
    let mut state = State::new();
    assert!(state.update(Event::Launched(Err("no".into()))).is_none());
    assert_eq!(state.error.as_deref(), Some("no"));
    assert_eq!(state.update(Event::Launch(vec!["walker".into()])), Some(vec!["walker".to_string()]));
    assert!(state.error.is_none());
}

#[test]
fn one_lock_is_asked_for_at_a_time() {
    let mut state = idle_inhibitor::State::new();
    assert_eq!(state.update(idle_inhibitor::Event::Toggle), Effect::Inhibit);
    assert_eq!(state.update(idle_inhibitor::Event::Toggle), Effect::Nothing);
    assert_eq!(state.mood(), Mood::Idle);
    assert_eq!(state.update(idle_inhibitor::Event::Engaged), Effect::Hold);
    assert_eq!(state.mood(), Mood::Held);
    assert_eq!(state.glyph(), "\u{f0208}");
    assert_eq!(state.update(idle_inhibitor::Event::Toggle), Effect::Release);
    assert_eq!(state.glyph(), "\u{f0209}");
    assert_eq!(state.update(idle_inhibitor::Event::Toggle), Effect::Inhibit);
    assert_eq!(state.update(idle_inhibitor::Event::Failed("denied".into())), Effect::Nothing);
    assert_eq!(state.error.as_deref(), Some("denied"));
    assert_eq!(state.mood(), Mood::Failed);
    assert_eq!(state.update(idle_inhibitor::Event::Toggle), Effect::Inhibit);
    assert!(state.error.is_none());
}

#[test]
fn the_launcher_always_pops_up_and_the_inhibitor_never_does() {
    let mut state = State::new();
    let card = || entries(Some(Target::binary("walker")), None, None, None, None);
    assert!(state.has_popup());
    let popup = state.popup(card()).unwrap();
    assert_eq!((popup.entries.len(), popup.error), (1, None));
    state.update(Event::Launched(Err("no".into())));
    assert_eq!(state.popup(card()).unwrap().error.as_deref(), Some("no"));
    assert!(!idle_inhibitor::State::new().has_popup());
}
