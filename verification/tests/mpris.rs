use cosmicbar::dbus::{Datum, Props};
use cosmicbar::modules::mpris::player::{
    clock, is_player, load, next_loop, Action, Plan, Player, Status, ONE, PLAYER_IFACE, ROOT_IFACE,
};
use cosmicbar::modules::mpris::session::{Roster, Step};
use cosmicbar::modules::mpris::state::{Event, State};
use cosmicbar::modules::mpris::value::{
    entry, flag, integer_value, is_forward, number, strings, text_value, Rate,
};

fn props(entries: Vec<(&str, Datum)>) -> Props {
    Props { entries: entries.into_iter().map(|(name, value)| (name.to_string(), value)).collect() }
}

fn text(s: &str) -> Datum {
    Datum::Str(s.to_string())
}

fn metadata(track: &str, title: &str) -> Datum {
    Datum::Dict(vec![
        (text("mpris:trackid"), Datum::Variant(Box::new(Datum::Path(track.into())))),
        (text("xesam:title"), Datum::Variant(Box::new(text(title)))),
        (
            text("xesam:artist"),
            Datum::Variant(Box::new(Datum::List(vec![text("Ann"), text("Ben")]))),
        ),
        (text("mpris:length"), Datum::U64(200_000_000)),
    ])
}

fn player(bus: &str, status: &str) -> Player {
    let state = props(vec![
        ("PlaybackStatus", text(status)),
        ("Metadata", metadata("/track/1", "Song")),
        ("Position", Datum::I64(5_000_000)),
        ("CanSeek", Datum::Bool(true)),
        ("Shuffle", Datum::Bool(false)),
        ("LoopStatus", text("Track")),
    ]);
    load(bus, None, &state, 1_000).0
}

#[test]
fn players_are_told_from_proxies() {
    assert!(is_player("org.mpris.MediaPlayer2.vlc"));
    assert!(!is_player("org.mpris.MediaPlayer2.playerctld"));
    assert!(!is_player("org.freedesktop.Notifications"));
}

#[test]
fn statuses_default_to_stopped() {
    assert_eq!(Status::parse("Playing"), Status::Playing);
    assert_eq!(Status::parse("Paused"), Status::Paused);
    assert_eq!(Status::parse("Buffering"), Status::Stopped);
}

#[test]
fn careless_values_are_read_as_far_as_they_fit() {
    assert_eq!(text_value(&Datum::List(vec![text("a"), text("b")])).as_deref(), Some("a"));
    assert_eq!(text_value(&Datum::Variant(Box::new(text("a")))).as_deref(), Some("a"));
    assert!(text_value(&Datum::U8(1)).is_none());
    assert_eq!(integer_value(&Datum::U64(u64::MAX)), Some(-1));
    assert_eq!(integer_value(&Datum::F64 { bits: 2.5f64.to_bits(), whole: 2 }), Some(2));
    assert!(integer_value(&text("1")).is_none());
    assert_eq!(number(&Datum::U8(2)), Some(Rate::Whole(2)));
    assert_eq!(number(&Datum::F64 { bits: ONE, whole: 1 }), Some(Rate::Double(1f64.to_bits())));
    assert_eq!(flag(&Datum::Variant(Box::new(Datum::Bool(true)))), Some(true));
    assert!(flag(&Datum::U8(1)).is_none());
    assert_eq!(strings(&text("Ann")), vec!["Ann".to_string()]);
    let dict = Datum::Dict(vec![(text("a"), Datum::U8(1)), (text("a"), Datum::U8(2))]);
    assert!(matches!(entry(&dict, "a"), Some(Datum::U8(2))));
    assert!(entry(&dict, "b").is_none());
}

#[test]
fn rates_above_nought_are_told_by_their_bits() {
    for rate in [1.0f64, 0.5, f64::MIN_POSITIVE, f64::INFINITY] {
        assert!(is_forward(Rate::Double(rate.to_bits())));
    }
    for rate in [0.0f64, -0.0, -1.0, f64::NAN, f64::NEG_INFINITY] {
        assert!(!is_forward(Rate::Double(rate.to_bits())));
    }
    assert!(is_forward(Rate::Whole(1)) && !is_forward(Rate::Whole(0)));
}

#[test]
fn a_player_is_read_from_its_properties() {
    let (p, resync) = load(
        "org.mpris.MediaPlayer2.vlc",
        Some(&props(vec![("Identity", text("VLC media player"))])),
        &props(vec![("Metadata", metadata("/track/1", "Song")), ("Rate", Datum::U8(0))]),
        7,
    );
    assert!(resync);
    assert_eq!((p.identity.as_str(), p.title.as_str()), ("VLC media player", "Song"));
    assert_eq!((p.artist.as_str(), p.length_us), ("Ann, Ben", 200_000_000));
    assert_eq!(p.rate, Rate::Double(ONE));
    assert_eq!(player("org.mpris.MediaPlayer2.mpv", "Playing").identity, "mpv");
}

#[test]
fn only_a_new_track_rewinds() {
    let mut p = player("org.mpris.MediaPlayer2.vlc", "Playing");
    p.apply(&props(vec![("Metadata", metadata("/track/1", "Song"))]), 9_000);
    assert_eq!((p.position_us, p.sampled_ms), (5_000_000, 1_000));
    p.apply(&props(vec![("Metadata", metadata("/track/2", "Next"))]), 9_000);
    assert_eq!((p.position_us, p.sampled_ms), (0, 9_000));
    // A position in the same update counts.
    p.apply(
        &props(vec![("Position", Datum::I64(3)), ("Metadata", metadata("/track/3", "Last"))]),
        9_500,
    );
    assert_eq!((p.position_us, p.sampled_ms), (3, 9_500));
}

#[test]
fn streams_run_on_and_stop_at_their_end() {
    let mut p = player("org.mpris.MediaPlayer2.vlc", "Playing");
    assert_eq!(p.since_ms(3_000), 2_000);
    assert_eq!(p.since_ms(500), 0);
    assert_eq!(p.elapsed_us(2_000_000), 7_000_000);
    assert_eq!(p.elapsed_us(i64::MAX), 200_000_000);
    p.status = Status::Paused;
    assert_eq!(p.elapsed_us(2_000_000), 5_000_000);
}

#[test]
fn a_seek_names_its_track_or_jumps() {
    let mut p = player("org.mpris.MediaPlayer2.vlc", "Playing");
    let plan = p.plan(&Action::Seek(60_000_000), 5_000_000);
    assert!(matches!(plan, Plan::SetPosition { track, target: 60_000_000 } if track == "/track/1"));
    p.track = Some("not a path".into());
    assert!(matches!(p.plan(&Action::Seek(60_000_000), 5_000_000), Plan::Seek(55_000_000)));
    p.track = Some("/track/".into());
    assert!(matches!(p.plan(&Action::Seek(1), 5), Plan::Seek(-4)));
    p.track = Some("/".into());
    assert!(matches!(p.plan(&Action::Seek(1), 5), Plan::SetPosition { .. }));
    p.track = Some("/a//b".into());
    assert!(matches!(p.plan(&Action::Seek(1), 5), Plan::Seek(-4)));
    p.track = None;
    assert!(matches!(p.plan(&Action::Seek(1), 5), Plan::Seek(-4)));
    assert!(matches!(p.plan(&Action::Next, 0), Plan::Call("Next")));
    assert!(matches!(p.plan(&Action::PlayPause, 0), Plan::Call("PlayPause")));
    assert!(matches!(p.plan(&Action::Loop("None"), 0), Plan::SetLoop("None")));
    assert!(matches!(p.plan(&Action::Shuffle(true), 0), Plan::SetShuffle(true)));
    assert!(matches!(p.plan(&Action::Resync, 0), Plan::Nothing));
}

#[test]
fn loop_modes_go_round() {
    assert_eq!(next_loop("None"), "Playlist");
    assert_eq!(next_loop("Playlist"), "Track");
    assert_eq!(next_loop("Track"), "None");
}

#[test]
fn clocks_show_hours_only_when_there_are_any() {
    assert_eq!(clock(65_000_000), "1:05");
    assert_eq!(clock(3_600_000_000), "1:00:00");
    assert_eq!(clock(-1), "0:00");
}

fn roster() -> Roster {
    let mut roster = Roster::new();
    for (owner, name) in [(":1.2", "org.mpris.MediaPlayer2.vlc"), (":1.1", "org.mpris.MediaPlayer2.mpv")] {
        roster.own(owner, name);
        roster.insert(player(name, "Paused"));
    }
    roster
}

#[test]
fn players_stand_in_the_order_of_their_names() {
    let mut roster = roster();
    let names: Vec<&str> = roster.players.iter().map(|p| p.identity.as_str()).collect();
    assert_eq!(names, vec!["mpv", "vlc"]);
    roster.insert(player("org.mpris.MediaPlayer2.mpv", "Playing"));
    assert_eq!(roster.players.len(), 2);
    assert_eq!(roster.players[0].status, Status::Playing);
}

#[test]
fn names_come_and_go() {
    let mut roster = roster();
    assert!(matches!(roster.renamed("org.kde.foo", None, Some(":1.5")), Step::Nothing));
    let step = roster.renamed("org.mpris.MediaPlayer2.amp", None, Some(":1.5"));
    assert!(matches!(step, Step::Load(name) if name == "org.mpris.MediaPlayer2.amp"));
    assert!(matches!(roster.loaded(None), Step::Nothing));
    let loaded = roster.loaded(Some(player("org.mpris.MediaPlayer2.amp", "Paused")));
    assert!(matches!(loaded, Step::Publish));
    assert_eq!(roster.speaking(Some(":1.5")), Some(0));
    let gone = roster.renamed("org.mpris.MediaPlayer2.amp", Some(":1.5"), None);
    assert!(matches!(gone, Step::Publish));
    assert_eq!(roster.speaking(Some(":1.5")), None);
    assert_eq!(roster.speaking(None), None);
    let again = roster.renamed("org.mpris.MediaPlayer2.amp", None, None);
    assert!(matches!(again, Step::Nothing));
}

#[test]
fn what_moves_the_position_is_asked_for_again() {
    let mut roster = roster();
    let none: Vec<String> = Vec::new();
    let volume = props(vec![("Volume", Datum::U8(1))]);
    let step = roster.changed(Some(":1.2"), PLAYER_IFACE, &volume, &none, 5);
    assert!(matches!(step, Step::Publish));
    let playing = props(vec![("PlaybackStatus", text("Playing"))]);
    let step = roster.changed(Some(":1.2"), PLAYER_IFACE, &playing, &none, 5);
    assert!(matches!(step, Step::Resync(bus) if bus.ends_with("vlc")));
    let invalid = vec!["Position".to_string()];
    let step = roster.changed(Some(":1.2"), PLAYER_IFACE, &volume, &invalid, 5);
    assert!(matches!(step, Step::Resync(_)));
    let named = props(vec![("Identity", text("VLC"))]);
    assert!(matches!(roster.changed(Some(":1.2"), ROOT_IFACE, &named, &none, 5), Step::Publish));
    assert_eq!(roster.players[1].identity, "VLC");
    assert!(matches!(roster.changed(Some(":9.9"), ROOT_IFACE, &named, &none, 5), Step::Nothing));
    assert!(matches!(roster.changed(Some(":1.2"), "other", &named, &none, 5), Step::Nothing));
    assert!(matches!(roster.seeked(Some(":1.2"), 42, 8), Step::Publish));
    assert_eq!((roster.players[1].position_us, roster.players[1].sampled_ms), (42, 8));
    roster.resynced("org.mpris.MediaPlayer2.vlc", Some(43), 9);
    assert_eq!(roster.players[1].position_us, 43);
    roster.resynced("org.mpris.MediaPlayer2.vlc", None, 10);
    assert_eq!(roster.players[1].sampled_ms, 9);
}

#[test]
fn requests_need_their_player() {
    let roster = roster();
    assert!(matches!(roster.request("gone", &Action::Next), Err("player is gone")));
    let bus = "org.mpris.MediaPlayer2.vlc";
    assert!(matches!(roster.request(bus, &Action::Resync), Ok(Step::Resync(_))));
    assert!(matches!(roster.request(bus, &Action::Next), Ok(Step::Act(_))));
}

fn playing() -> State {
    let mut state = State::new();
    state.update(Event::Players(vec![
        player("org.mpris.MediaPlayer2.a", "Stopped"),
        player("org.mpris.MediaPlayer2.b", "Paused"),
        player("org.mpris.MediaPlayer2.c", "Playing"),
    ]));
    state
}

#[test]
fn the_bar_speaks_for_the_pinned_then_the_playing_player() {
    let mut state = playing();
    assert_eq!(state.current(), Some(2));
    state.players[2].status = Status::Stopped;
    assert_eq!(state.current(), Some(1));
    state.players[1].status = Status::Stopped;
    assert_eq!(state.current(), Some(0));
    state.update(Event::Select("org.mpris.MediaPlayer2.b".into()));
    assert_eq!(state.current(), Some(1));
    state.update(Event::Players(vec![player("org.mpris.MediaPlayer2.c", "Playing")]));
    assert!(state.selected.is_none());
    state.update(Event::Gone);
    assert!(state.current().is_none() && !state.has_popup());
    assert!(state.update(Event::Dispatch(Action::Next)).is_none());
}

#[test]
fn a_drag_is_one_seek_within_the_track() {
    let mut state = playing();
    assert!(state.update(Event::Scrub(30)).is_none());
    let request = state.update(Event::ScrubEnd).unwrap();
    assert_eq!(request.action, Action::Seek(30_000_000));
    assert_eq!(request.bus, "org.mpris.MediaPlayer2.c");
    assert!(state.update(Event::ScrubEnd).is_none());
    state.update(Event::Scrub(100_000));
    assert_eq!(state.update(Event::ScrubEnd).unwrap().action, Action::Seek(200_000_000));
    state.update(Event::Acted(Err("no".into())));
    assert_eq!(state.error.as_deref(), Some("no"));
    state.update(Event::Acted(Ok(())));
    assert!(state.error.is_none());
}

#[test]
fn the_transport_follows_the_player() {
    let mut state = playing();
    assert!(state.fast_tick(true) && !state.fast_tick(false));
    assert!(state.resyncs(true));
    let cell = state.cell().unwrap();
    assert_eq!((cell.glyph, cell.name.as_str(), cell.lit), ("\u{f040a}", "c", true));
    let popup = state.popup(65_000_000).unwrap();
    assert_eq!(popup.picker.len(), 3);
    assert!(popup.picker[2].current && !popup.picker[0].current);
    let seek = popup.seek.unwrap();
    assert_eq!((seek.at, seek.total, seek.elapsed.as_str()), (65, 200, "1:05"));
    assert_eq!(seek.length, "3:20");
    assert!(seek.can_seek && !seek.dragged && popup.can_stop && !popup.can_toggle);
    assert_eq!(popup.toggle, "\u{f03e4}");
    assert_eq!(popup.shuffle, Some(("\u{f049e}", true)));
    assert_eq!(popup.loops, Some(("\u{f0458}", true, "None")));
    state.update(Event::Scrub(500));
    let seek = state.popup(65_000_000).unwrap().seek.unwrap();
    assert_eq!((seek.at, seek.dragged), (200, true));
    state.players[2].length_us = 0;
    let popup = state.popup(65_000_000).unwrap();
    assert!(popup.seek.is_none());
    assert_eq!(popup.played.as_deref(), Some("1:05"));
}
