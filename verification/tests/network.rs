use cosmicbar::dbus::{Datum, Props};
use cosmicbar::modules::network::read::{
    assemble, more_to_read, read_active, read_ap, read_device, read_ip4, read_link, read_profile,
    sort_profiles, More,
};
use cosmicbar::modules::network::signal::{
    classify, patch_strength, Change, Gate, Pending, Signal, Work,
};
use cosmicbar::modules::network::snapshot::{
    band, kind_name, security, state_name, wifi_icon, Active, Ap, ApLink, Device, Ip4, Profile,
    Snapshot, Tier, ACTIVE_ACTIVATED, ACTIVE_ACTIVATING, EAP, OWE, PRIVACY, PSK, SAE,
    STATE_CONNECTING,
};
use cosmicbar::modules::network::state::{Call, Event, Press, State};

fn props(entries: Vec<(&str, Datum)>) -> Props {
    Props { entries: entries.into_iter().map(|(name, value)| (name.to_string(), value)).collect() }
}

fn device() -> Device {
    Device { path: "/dev/1".into(), iface: "wlan0".into(), kind: 2 }
}

fn ap(path: &str, ssid: &str, strength: u8) -> Ap {
    Ap {
        path: path.into(),
        ssid: ssid.into(),
        strength,
        security: "wpa2",
        frequency: 5180,
        active: false,
        profile: None,
    }
}

fn wifi() -> Active {
    Active {
        path: "/active/1".into(),
        profile: "/profile/1".into(),
        id: "home wifi".into(),
        kind: "802-11-wireless".into(),
        state: ACTIVE_ACTIVATED,
        device: device(),
        ap: Some(ApLink {
            path: "/ap/1".into(),
            ssid: "home".into(),
            strength: 60,
            frequency: 5180,
        }),
        bitrate: Some(866_700),
        speed: None,
        carrier: None,
        ip4: Ip4 {
            addresses: vec!["10.0.0.2/24".into(), "10.0.0.3/24".into()],
            gateway: Some("10.0.0.1".into()),
            dns: vec!["1.1.1.1".into()],
        },
    }
}

fn snapshot() -> Snapshot {
    Snapshot {
        state: 70,
        connectivity: 4,
        wireless_enabled: true,
        wifi: Some(device()),
        primary: Some(wifi()),
        secondary: Vec::new(),
        profiles: Vec::new(),
        aps: Vec::new(),
    }
}

#[test]
fn a_working_connection_is_the_glyph_alone() {
    let key = snapshot().bar_key();
    assert_eq!((key.glyph, key.rest, key.tier), ("\u{f0925}", "", Tier::Up));
}

#[test]
fn states_a_glyph_cannot_spell_keep_words() {
    let mut s = snapshot();
    s.connectivity = 2;
    assert_eq!(s.bar_key().rest, "no internet");
    assert_eq!(s.bar_key().tier, Tier::Degraded);
    // A machine with the check disabled is not without internet.
    s.connectivity = 0;
    assert_eq!(s.bar_key().rest, "");
    s.primary.as_mut().unwrap().state = ACTIVE_ACTIVATING;
    assert_eq!(s.bar_key().tier, Tier::Pending);
    s.primary = None;
    assert_eq!(s.bar_key().rest, "offline");
    assert_eq!(s.bar_key().tier, Tier::Down);
    s.state = STATE_CONNECTING;
    assert_eq!(s.bar_key().rest, "connecting…");
    s.wireless_enabled = false;
    assert_eq!((s.bar_key().rest, s.bar_key().tier), ("off", Tier::Off));
    assert_eq!(s.name(), "wifi off");
    s.wifi = None;
    s.state = 20;
    assert_eq!(s.bar_key().glyph, "\u{f0319}");
}

#[test]
fn a_wired_link_shows_its_own_glyph() {
    let mut s = snapshot();
    s.primary.as_mut().unwrap().kind = "802-3-ethernet".into();
    assert_eq!(s.bar_key().glyph, "\u{f0200}");
    s.primary.as_mut().unwrap().kind = "wireguard".into();
    assert_eq!(s.bar_key().glyph, "\u{f0317}");
}

#[test]
fn names_prefer_the_ssid_and_are_cut() {
    let mut s = snapshot();
    assert_eq!(s.name(), "home");
    s.primary.as_mut().unwrap().ap.as_mut().unwrap().ssid = String::new();
    assert_eq!(s.name(), "home wifi");
    s.primary.as_mut().unwrap().id = "a connection with a long name".into();
    assert_eq!(s.name(), "a connection with…");
}

#[test]
fn the_list_has_one_row_per_network() {
    let mut s = snapshot();
    s.aps = vec![ap("/1", "cafe", 20), ap("/2", "home", 80), ap("/3", "cafe", 55), ap("/4", "attic", 55)];
    s.aps[0].active = false;
    s.sort_aps();
    let rows: Vec<(&str, u8)> = s.aps.iter().map(|ap| (ap.ssid.as_str(), ap.strength)).collect();
    assert_eq!(rows, vec![("home", 80), ("attic", 55), ("cafe", 55)]);
    s.aps[2].active = true;
    s.sort_aps();
    assert_eq!(s.aps[0].ssid, "cafe");
}

#[test]
fn strength_is_bucketed_and_bands_are_named() {
    assert_eq!(wifi_icon(0), "\u{f091f}");
    assert_eq!(wifi_icon(25), "\u{f0922}");
    assert_eq!(wifi_icon(74), "\u{f0925}");
    assert_eq!(wifi_icon(255), "\u{f0928}");
    assert_eq!((band(0), band(2437), band(5180), band(5955)), ("?", "2.4 GHz", "5 GHz", "6 GHz"));
}

#[test]
fn flags_become_the_security_a_human_knows() {
    assert_eq!(security(0, 0, SAE | PSK), "wpa3");
    assert_eq!(security(0, EAP, 0), "802.1x");
    assert_eq!(security(0, 0, OWE), "owe");
    assert_eq!(security(0, 0, PSK), "wpa2");
    assert_eq!(security(0, PSK, 0), "wpa");
    assert_eq!(security(PRIVACY, 0, 0), "wep");
    assert_eq!(security(0, 0, 0), "open");
    assert_eq!(security(0, 0, 0x2000), "wpa3-enterprise");
}

#[test]
fn network_states_read_as_words() {
    assert_eq!(state_name(70, 4), "connected");
    assert_eq!(state_name(60, 2), "connected (site) · captive portal");
    assert_eq!(state_name(1, 3), "unknown · limited");
    assert_eq!(kind_name("802-11-wireless"), "wifi");
    assert_eq!(kind_name("wireguard"), "vpn");
    assert_eq!(kind_name("bridge"), "bridge");
}

#[test]
fn strength_is_patched_in_place() {
    let mut s = snapshot();
    s.aps = vec![ap("/ap/0", "cafe", 20), ap("/ap/1", "home", 60)];
    let stronger = props(vec![("Strength", Datum::U8(72))]);
    assert_eq!(patch_strength(&mut s, "/ap/1", &stronger), Change::Patch);
    assert_eq!(s.aps[1].strength, 72);
    assert_eq!(s.primary.as_ref().unwrap().ap.as_ref().unwrap().strength, 72);
    assert_eq!(patch_strength(&mut s, "/ap/1", &stronger), Change::Ignore);
    assert_eq!(patch_strength(&mut s, "/ap/9", &stronger), Change::Ignore);
    assert_eq!(patch_strength(&mut s, "/ap/1", &props(vec![])), Change::Ignore);
}

#[test]
fn signals_are_told_apart() {
    let mut s = snapshot();
    let mut ask = |member: &str, changed: Option<(&str, &Props)>, detailed: bool| {
        classify(&Signal { member, path: "/ap/1", changed }, &mut s, detailed)
    };
    assert_eq!(ask("NameOwnerChanged", None, false), Change::Restart);
    assert_eq!(ask("AccessPointAdded", None, false), Change::Ignore);
    assert_eq!(ask("AccessPointAdded", None, true), Change::Reread);
    assert_eq!(ask("Whatever", None, true), Change::Ignore);
    assert_eq!(ask("PropertiesChanged", None, true), Change::Ignore);
    let counters = props(vec![("RxBytes", Datum::U64(9))]);
    let state = props(vec![("RxBytes", Datum::U64(9)), ("State", Datum::U32(70))]);
    let device = "org.freedesktop.NetworkManager.Device.Wireless";
    assert_eq!(ask("PropertiesChanged", Some((device, &counters)), true), Change::Ignore);
    assert_eq!(ask("PropertiesChanged", Some((device, &state)), false), Change::Reread);
    let manager = "org.freedesktop.NetworkManager";
    assert_eq!(ask("PropertiesChanged", Some((manager, &counters)), false), Change::Ignore);
    assert_eq!(ask("PropertiesChanged", Some((manager, &state)), false), Change::Reread);
    let strength = props(vec![("Strength", Datum::U8(10))]);
    let point = "org.freedesktop.NetworkManager.AccessPoint";
    assert_eq!(ask("PropertiesChanged", Some((point, &strength)), false), Change::Patch);
    let ip4 = "org.freedesktop.NetworkManager.IP4Config";
    assert_eq!(ask("PropertiesChanged", Some((ip4, &counters)), false), Change::Reread);
}

#[test]
fn a_network_that_looks_the_same_is_held_back() {
    let mut gate = Gate::new();
    let mut s = snapshot();
    assert!(gate.passes(&s, false));
    assert!(!gate.passes(&s, false));
    s.primary.as_mut().unwrap().ap.as_mut().unwrap().strength = 65;
    assert!(!gate.passes(&s, false));
    assert!(gate.passes(&s, true));
    s.primary.as_mut().unwrap().ap.as_mut().unwrap().strength = 80;
    assert!(gate.passes(&s, false));
    s.primary.as_mut().unwrap().device.iface = "wlan1".into();
    assert!(gate.passes(&s, false));
}

#[test]
fn pending_work_is_read_again_or_sorted() {
    let mut pending = Pending { reread: false, dirty: false };
    assert!(pending.note(Change::Ignore) && !pending.dirty);
    assert!(pending.note(Change::Patch) && pending.dirty);
    assert_eq!(pending.settle(), Work::Sort);
    assert!(pending.note(Change::Reread));
    assert_eq!(pending.settle(), Work::Reread);
    assert!(!pending.dirty && !pending.reread);
    assert!(!pending.note(Change::Restart));
}

fn open_state() -> State {
    let mut state = State::new();
    state.update(Event::Snapshot(snapshot()));
    state
}

#[test]
fn buttons_become_calls() {
    let mut state = open_state();
    let effects = state.update(Event::Activate {
        profile: "/p".into(),
        device: "/".into(),
        specific: "/".into(),
    });
    assert!(matches!(effects.call, Some(Call::Activate { profile, .. }) if profile == "/p"));
    assert!(effects.close_popup);
    assert_eq!(state.busy.as_deref(), Some("/p"));
    assert!(state.update(Event::Done(Err("refused".into()))).call.is_none());
    assert_eq!((state.busy.as_deref(), state.error.as_deref()), (None, Some("refused")));
    let effects = state.update(Event::Deactivate { active: "/a".into() });
    assert!(matches!(effects.call, Some(Call::Deactivate(active)) if active == "/a"));
    assert!(state.error.is_none());
    assert!(matches!(state.update(Event::Rescan).call, Some(Call::Scan(path)) if path == "/dev/1"));
    assert!(matches!(state.update(Event::ToggleWireless).call, Some(Call::SetWireless(false))));
    assert!(matches!(state.update(Event::SetWireless(true)).call, Some(Call::SetWireless(true))));
    let effects = state.update(Event::Nmtui("kitty".into()));
    assert!(matches!(effects.call, Some(Call::Nmtui(terminal)) if terminal == "kitty"));
    assert!(effects.close_popup);
    assert!(State::new().update(Event::ToggleWireless).call.is_none());
}

#[test]
fn an_absent_manager_hides_the_popup() {
    let mut state = open_state();
    assert!(state.has_popup());
    assert_eq!(state.sampled(true), Some("wlan0"));
    assert_eq!(state.sampled(false), None);
    assert_eq!(state.scanned(true), Some("/dev/1"));
    state.update(Event::Rates { rx: "1 kB/s".into(), tx: "2 kB/s".into() });
    state.update(Event::Unavailable);
    assert!(!state.has_popup() && state.popup("5.180").is_none() && state.cell().is_none());
    assert!(state.rates.is_none());
    assert_eq!((state.sampled(true), state.scanned(true)), (None, None));
}

#[test]
fn the_popup_spells_the_connection_out() {
    let mut state = open_state();
    state.update(Event::Rates { rx: "1 kB/s".into(), tx: "2 kB/s".into() });
    let popup = state.popup("5.180").unwrap();
    assert_eq!(state.cell().unwrap().glyph, popup.glyph);
    assert_eq!(popup.name, "home");
    assert!(popup.scan);
    assert_eq!(popup.radio, Some(false));
    let lines: Vec<(&str, &str)> =
        popup.details.iter().map(|line| (line.label, line.text.as_str())).collect();
    assert_eq!(
        lines,
        vec![
            ("state", "connected"),
            ("interface", "wlan0"),
            ("ipv4", "10.0.0.2/24, 10.0.0.3/24"),
            ("gateway", "10.0.0.1"),
            ("dns", "1.1.1.1"),
            ("signal", "60% · 5.180 GHz · 866 Mb/s"),
            ("traffic", "\u{f01da} 1 kB/s   \u{f0552} 2 kB/s"),
        ]
    );
    assert_eq!(popup.nearby.as_ref().unwrap().note, Some("scanning…"));
}

#[test]
fn a_wired_popup_tells_of_the_cable() {
    let mut s = snapshot();
    let primary = s.primary.as_mut().unwrap();
    primary.ap = None;
    primary.speed = Some(1000);
    primary.carrier = Some(false);
    primary.device.iface = String::new();
    primary.ip4 = Ip4 { addresses: vec![], gateway: None, dns: vec![] };
    let mut vpn = wifi();
    vpn.id = "work".into();
    s.secondary.push(vpn);
    s.wifi = None;
    let lines: Vec<(&'static str, String)> =
        s.details(&None, "0.000").into_iter().map(|line| (line.label, line.text)).collect();
    assert_eq!(
        lines,
        vec![
            ("state", "connected".to_string()),
            ("link", "1000 Mb/s · no carrier".to_string()),
            ("traffic", "sampling…".to_string()),
            ("also up", "work".to_string()),
        ]
    );
}

fn profile(n: usize, active: Option<&str>) -> Profile {
    Profile {
        path: format!("/profile/{n}"),
        id: format!("profile {n}"),
        kind: if n == 0 { "loopback".into() } else { "802-3-ethernet".into() },
        ssid: None,
        active: active.map(str::to_string),
    }
}

#[test]
fn long_lists_say_how_much_they_hide() {
    let mut state = open_state();
    let snapshot = state.snapshot.as_mut().unwrap();
    snapshot.profiles = (0..10).map(|n| profile(n, None)).collect();
    snapshot.profiles[1].active = Some("/active/7".into());
    snapshot.aps = (0..8).map(|n| ap(&format!("/ap/{n}"), &format!("net {n}"), 90)).collect();
    snapshot.aps[1].active = true;
    snapshot.aps[2].profile = Some("/profile/2".into());
    state.busy = Some("/profile/3".into());
    let popup = state.popup("5.180").unwrap();
    assert_eq!((popup.saved.len(), popup.saved_more), (6, 3));
    assert!(matches!(&popup.saved[0].press, Press::Down { active } if active == "/active/7"));
    assert!(popup.saved[0].lit);
    assert!(matches!(&popup.saved[1].press, Press::Up { profile } if profile == "/profile/2"));
    assert!(matches!(popup.saved[2].press, Press::Wait));
    assert_eq!(popup.saved[1].note, "ethernet");
    let nearby = popup.nearby.unwrap();
    assert_eq!((nearby.rows.len(), nearby.more, nearby.note), (6, 2, None));
    assert_eq!(nearby.rows[0].name, "\u{f0928} net 0");
    assert_eq!(nearby.rows[0].note, "90% · 5 GHz · \u{f033e} wpa2");
    assert!(matches!(nearby.rows[0].press, Press::Nmtui));
    assert!(matches!(nearby.rows[1].press, Press::Active));
    assert!(matches!(
        &nearby.rows[2].press,
        Press::Join { profile, device, specific }
            if profile == "/profile/2" && device == "/dev/1" && specific == "/ap/2"
    ));
}

#[test]
fn properties_become_a_connection() {
    let device = read_device(
        "/dev/1",
        &props(vec![("Interface", Datum::Str("wlan0".into())), ("DeviceType", Datum::U32(2))]),
    );
    assert_eq!((device.path.as_str(), device.iface.as_str(), device.kind), ("/dev/1", "wlan0", 2));
    let active = read_active(
        "/active/1",
        &props(vec![
            ("Id", Datum::Str("home".into())),
            ("Type", Datum::Str("802-11-wireless".into())),
            ("State", Datum::U32(2)),
            ("Connection", Datum::Path("/profile/1".into())),
            ("Devices", Datum::List(vec![Datum::Path("/dev/1".into())])),
        ]),
        &vec![device],
    );
    assert_eq!((active.id.as_str(), active.state), ("home", 2));
    assert_eq!(active.profile, "/profile/1");
    assert_eq!(active.device.iface, "wlan0");
    let entry = |pairs: Vec<(&str, Datum)>| {
        Datum::Dict(
            pairs.into_iter().map(|(key, value)| (Datum::Str(key.to_string()), value)).collect(),
        )
    };
    let ip4 = read_ip4(&props(vec![
        (
            "AddressData",
            Datum::List(vec![entry(vec![
                ("address", Datum::Variant(Box::new(Datum::Str("10.0.0.2".into())))),
                ("prefix", Datum::Variant(Box::new(Datum::U32(24)))),
            ])]),
        ),
        ("Gateway", Datum::Str("10.0.0.1".into())),
        (
            "NameserverData",
            Datum::List(vec![entry(vec![("address", Datum::Str("1.1.1.1".into()))])]),
        ),
    ]));
    assert_eq!(ip4.addresses, vec!["10.0.0.2/24".to_string()]);
    assert_eq!(ip4.gateway.as_deref(), Some("10.0.0.1"));
    assert_eq!(ip4.dns, vec!["1.1.1.1".to_string()]);
    // A name that is not all UTF-8 is still a name.
    let bytes = vec![Datum::U8(b'c'), Datum::U8(0xff), Datum::U8(b'e')];
    let link = read_link(
        "/ap/1".into(),
        &props(vec![("Ssid", Datum::List(bytes)), ("Strength", Datum::U8(40))]),
    );
    assert_eq!((link.ssid.as_str(), link.strength), ("c\u{fffd}e", 40));
}

#[test]
fn hidden_networks_are_left_out() {
    let s = snapshot();
    let named = |bytes: &[u8]| {
        props(vec![
            ("Ssid", Datum::List(bytes.iter().map(|b| Datum::U8(*b)).collect())),
            ("Strength", Datum::U8(33)),
            ("RsnFlags", Datum::U32(PSK)),
            ("Frequency", Datum::U32(2437)),
        ])
    };
    assert!(read_ap("/ap/1".into(), &named(b""), &s).is_none());
    let ap = read_ap("/ap/1".into(), &named(b"home"), &s).unwrap();
    assert_eq!((ap.ssid.as_str(), ap.strength, ap.security), ("home", 33, "wpa2"));
    assert!(ap.active && ap.profile.is_none());
    assert!(!read_ap("/ap/2".into(), &named(b"cafe"), &s).unwrap().active);
}

#[test]
fn profiles_that_are_up_come_first_then_by_name_whatever_its_case() {
    let named = |id: &str, active: Option<&str>| Profile {
        path: format!("/{id}"),
        id: id.into(),
        kind: String::new(),
        ssid: None,
        active: active.map(str::to_string),
    };
    let line = sort_profiles(vec![
        named("beta", None),
        named("Alpha", None),
        named("ÄTHER", None),
        named("zeta", Some("/active")),
        named("ärger", None),
    ]);
    let ids: Vec<&str> = line.iter().map(|profile| profile.id.as_str()).collect();
    assert_eq!(ids, vec!["zeta", "Alpha", "beta", "ärger", "ÄTHER"]);
}

#[test]
fn a_link_is_asked_about_by_its_kind() {
    let mut active = wifi();
    assert!(matches!(more_to_read(&active), More::Wireless));
    active.kind = "802-3-ethernet".into();
    assert!(matches!(more_to_read(&active), More::Wired));
    active.kind = "vpn".into();
    assert!(matches!(more_to_read(&active), More::Nothing));
    active.kind = "802-11-wireless".into();
    active.device.path = String::new();
    assert!(matches!(more_to_read(&active), More::Nothing));
}

#[test]
fn the_primary_connection_is_told_from_the_others() {
    let manager = props(vec![
        ("State", Datum::U32(70)),
        ("WirelessEnabled", Datum::Bool(true)),
        ("PrimaryConnection", Datum::Path("/active/1".into())),
    ]);
    let mut tunnel = wifi();
    tunnel.path = "/active/2".into();
    tunnel.kind = "tun".into();
    let snapshot = assemble(&manager, &vec![device()], vec![tunnel, wifi()]);
    assert_eq!(snapshot.state, 70);
    assert!(snapshot.wireless_enabled);
    assert_eq!(snapshot.wifi.unwrap().iface, "wlan0");
    assert_eq!(snapshot.primary.unwrap().path, "/active/1");
    assert_eq!(snapshot.secondary.len(), 1);
    assert_eq!(snapshot.secondary[0].path, "/active/2");
}

#[test]
fn a_connection_coming_up_stands_in_for_the_primary_one() {
    let manager = props(vec![("PrimaryConnection", Datum::Path("/".into()))]);
    let mut tunnel = wifi();
    tunnel.path = "/active/2".into();
    tunnel.kind = "tun".into();
    tunnel.state = ACTIVE_ACTIVATING;
    let mut coming = wifi();
    coming.state = ACTIVE_ACTIVATING;
    let snapshot = assemble(&manager, &vec![], vec![tunnel, coming]);
    assert_eq!(snapshot.primary.unwrap().path, "/active/1");
    assert_eq!(snapshot.secondary[0].path, "/active/2");
    assert!(snapshot.wifi.is_none());
    let up = assemble(&manager, &vec![], vec![wifi()]);
    assert!(up.primary.is_none());
    assert_eq!(up.secondary.len(), 1);
}

#[test]
fn a_profile_is_named_and_tied_to_its_connection() {
    let settings = props(vec![
        ("id", Datum::Str("home wifi".into())),
        ("type", Datum::Str("802-11-wireless".into())),
    ]);
    let ssid = Datum::List("home".bytes().map(Datum::U8).collect());
    let wireless = props(vec![("ssid", ssid)]);
    let profile =
        read_profile("/profile/1".into(), &settings, Some(&wireless), &snapshot());
    assert_eq!(profile.id, "home wifi");
    assert_eq!(profile.kind, "802-11-wireless");
    assert_eq!(profile.ssid.as_deref(), Some("home"));
    assert_eq!(profile.active.as_deref(), Some("/active/1"));
    let bare = read_profile("/profile/9".into(), &props(vec![]), None, &snapshot());
    assert_eq!(bare.id, "/profile/9");
    assert!(bare.kind.is_empty() && bare.ssid.is_none() && bare.active.is_none());
}

#[test]
fn sorting_access_points_twice_is_sorting_them_once() {
    let mut s = snapshot();
    s.aps = vec![ap("/1", "cafe", 20), ap("/2", "home", 80), ap("/3", "cafe", 55), ap("/4", "attic", 55)];
    s.aps[0].active = false;
    s.sort_aps();
    let once: Vec<(String, u8)> = s.aps.iter().map(|ap| (ap.path.clone(), ap.strength)).collect();
    s.sort_aps();
    let twice: Vec<(String, u8)> = s.aps.iter().map(|ap| (ap.path.clone(), ap.strength)).collect();
    assert_eq!(once, twice);
    assert_eq!(once.len(), 3);
}
