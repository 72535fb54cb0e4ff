//! What holds of what the network module shows, and of what it asks for.
use crate::dbus::Props;
use crate::modules::network::read::{
    active_among, active_from, comes_up, device_at, first_coming, first_device, first_wifi,
    is_assembled, object_at, others, primary_of, profile_for,
};
use crate::modules::network::signal::{
    change_for, device_changed, device_key, manager_key, relinked, retuned, tells_of_ap,
    Change,
};
use crate::modules::network::snapshot::{
    band_text, by_strength, key_of, kind_text, law_one_row_per_network, name_of, ranked_aps, security_of,
    state_text, wifi_symbol, Active, Ap, ApLink, Device, Profile, Snapshot,
};
use crate::modules::network::state::{
    call_for, call_view, closes, detail_lines, follows, ids, line_if, link_text, listed_profiles,
    nearby_row, primary_lines, row_views, saved_row, shows_popup, signal_text, traffic_text, Call, Effects, Event, Popup, Press, State,
};
use crate::number::decimal;
use crate::order::{in_line, law_sorting_sorts, Ranked};
use crate::text::{
    joined, lemma_text_order_total, lemma_text_order_transitive, lowercase, opt_text, text_before,
    texts,
};
use vstd::prelude::*;
use vstd::string::*;

verus! {

/// What is asked of the service is what the event names: the profile is brought
/// up on the device and through the object of the event, a connection is taken
/// down by its own path, the radio is set as it was asked or turned over, and
/// each call comes of its own kind of event only.
pub proof fn law_calls_ask_for_what_was_pressed(s: State, event: Event, t: State, r: Effects)
    requires
        follows(s, event, t),
        call_view(r.call) == call_for(s, event),
    ensures
        event matches Event::Activate { profile, device, specific } ==> (r.call matches Some(
            Call::Activate { profile: p, device: d, specific: o },
        ) && p@ == profile@ && d@ == device@ && o@ == specific@ && opt_text(t.busy) == Some(
            profile@,
        )),
        event matches Event::Deactivate { active } ==> (r.call matches Some(Call::Deactivate(a))
            && a@ == active@ && opt_text(t.busy) == Some(active@)),
        event matches Event::SetWireless(on) ==> (r.call matches Some(Call::SetWireless(to)) && to
            == on),
        event is ToggleWireless ==> (s.snapshot matches Some(snapshot) ==> r.call matches Some(
            Call::SetWireless(to),
        ) && to != snapshot.wireless_enabled),
        event is ToggleWireless && s.snapshot is None ==> r.call is None,
        event is Rescan ==> (r.call is Some <==> s.snapshot is Some && s.snapshot->0.wifi is Some),
        event is Rescan && r.call is Some ==> (r.call matches Some(Call::Scan(device)) && device@
            == s.snapshot->0.wifi->0.path@),
        event matches Event::Nmtui(terminal) ==> (r.call matches Some(Call::Nmtui(with)) && with@
            == terminal@),
        event is Snapshot || event is Unavailable || event is Rates || event is Done
            ==> r.call is None,
{
}

/// The popup closes once a connection was asked for or the terminal took over,
/// and at no other time.
pub proof fn law_the_popup_closes_when_it_is_done(event: Event)
    ensures
        closes(event) <==> event is Activate || event is Deactivate || event is Nmtui,
{
}

/// What was sampled is shown, a service that is gone takes its rates and its
/// call along, and a reply frees the row and says how it went.
pub proof fn law_events_change_what_they_tell_of(s: State, event: Event, t: State)
    requires
        follows(s, event, t),
    ensures
        event matches Event::Snapshot(snapshot) ==> t.snapshot == Some(snapshot) && t.available
            && t.busy == s.busy && t.error == s.error && t.rates == s.rates,
        event is Unavailable ==> !t.available && t.rates is None && t.busy is None && t.snapshot
            == s.snapshot,
        event matches Event::Rates { rx, tx } ==> t.rates == Some((rx, tx)) && t.snapshot
            == s.snapshot && t.available == s.available && t.busy == s.busy,
        event matches Event::Done(Ok(_)) ==> t.busy is None && t.error is None,
        event matches Event::Done(Err(error)) ==> t.busy is None && t.error == Some(error),
        event is Done || event is Activate || event is Deactivate ==> t.snapshot == s.snapshot
            && t.available == s.available && t.rates == s.rates,
        event is Activate || event is Deactivate ==> t.error is None,
        event is Rescan || event is SetWireless || event is ToggleWireless || event is Nmtui ==> t
            == s,
{
}

/// A nearby network is joined through its own profile, on the wifi device and by
/// its own access point; the one in use is not joined again, and one without a
/// profile is left to the terminal. What does not fit is counted.
pub proof fn law_nearby_rows_join_their_networks(
    s: State,
    snapshot: Snapshot,
    ghz: Seq<char>,
    popup: Popup,
    i: int,
)
    requires
        shows_popup(s, snapshot, ghz, popup),
        snapshot.wifi is Some,
        0 <= i < snapshot.aps@.len(),
        i < 6,
    ensures
        popup.nearby is Some,
        ({
            let nearby = popup.nearby->0;
            let (ap, row) = (snapshot.aps@[i], nearby.rows@[i]);
            &&& nearby.rows@.len() == if snapshot.aps@.len() > 6 {
                6
            } else {
                snapshot.aps@.len()
            }
            &&& nearby.rows@.len() + nearby.more == snapshot.aps@.len()
            &&& row.lit == ap.active
            &&& ap.active <==> row.press is Active
            &&& !ap.active && ap.profile is None <==> row.press is Nmtui
            &&& row.press is Wait ==> ap.profile is Some && opt_text(s.busy) == opt_text(ap.profile)
            &&& row.press matches Press::Join { profile, device, specific } ==> Some(profile@)
                == opt_text(ap.profile) && device@ == snapshot.wifi->0.path@ && specific@ == ap.path@
            &&& row.press is Join <==> !ap.active && ap.profile is Some && opt_text(s.busy)
                != opt_text(ap.profile)
            &&& ap.ssid@.len() <= 22 ==> row.name@ == wifi_symbol(ap.strength) + " "@ + ap.ssid@
        }),
{
    let nearby = popup.nearby->0;
    let busy = opt_text(s.busy);
    let wifi = snapshot.wifi->0;
    assert(row_views(nearby.rows@)[i] == nearby_row(busy, wifi, snapshot.aps@[i]));
    assert(row_views(nearby.rows@).len() == nearby.rows@.len());
    assert(nearby.rows@[i]@ == nearby_row(busy, wifi, snapshot.aps@[i]));
}

/// A saved connection is brought up by its own profile, and one that is up is
/// taken down by its own connection.
pub proof fn law_saved_rows_turn_their_connections(
    s: State,
    snapshot: Snapshot,
    ghz: Seq<char>,
    popup: Popup,
    i: int,
)
    requires
        shows_popup(s, snapshot, ghz, popup),
        0 <= i < listed_profiles(snapshot.profiles@).len(),
        i < 6,
    ensures
        ({
            let (p, row) = (listed_profiles(snapshot.profiles@)[i], popup.saved@[i]);
            &&& popup.saved@.len() + popup.saved_more == listed_profiles(snapshot.profiles@).len()
            &&& popup.saved@.len() <= 6
            &&& row.lit <==> p.active is Some
            &&& p.id@.len() <= 22 ==> row.name@ == p.id@
            &&& p.active matches Some(active) ==> {
                &&& opt_text(s.busy) == Some(active@) ==> row.press is Wait
                &&& opt_text(s.busy) != Some(active@) ==> (row.press matches Press::Down {
                    active: a,
                } && a@ == active@)
            }
            &&& p.active is None ==> {
                &&& opt_text(s.busy) == Some(p.path@) ==> row.press is Wait
                &&& opt_text(s.busy) != Some(p.path@) ==> (row.press matches Press::Up {
                    profile,
                } && profile@ == p.path@)
            }
        }),
{
    let busy = opt_text(s.busy);
    let p = listed_profiles(snapshot.profiles@)[i];
    assert(row_views(popup.saved@)[i] == saved_row(busy, p));
    assert(row_views(popup.saved@).len() == popup.saved@.len());
    assert(popup.saved@[i]@ == saved_row(busy, p));
}

/// Every saved connection is offered but the loopback's, in the order they have.
pub proof fn law_the_loopback_is_not_offered(profiles: Seq<Profile>)
    ensures
        forall|i: int|
            0 <= i < listed_profiles(profiles).len() ==> (#[trigger] listed_profiles(
                profiles,
            )[i]).kind@ != "loopback"@ && profiles.contains(listed_profiles(profiles)[i]),
        forall|i: int|
            0 <= i < profiles.len() && (#[trigger] profiles[i]).kind@ != "loopback"@
                ==> listed_profiles(profiles).contains(profiles[i]),
{
    let keeps = |p: Profile| p.kind@ != "loopback"@;
    assert forall|i: int| 0 <= i < listed_profiles(profiles).len() implies (
    #[trigger] listed_profiles(profiles)[i]).kind@ != "loopback"@ && profiles.contains(
        listed_profiles(profiles)[i],
    ) by {
        profiles.filter_lemma(keeps);
        profiles.lemma_filter_contains_rev(keeps, listed_profiles(profiles)[i]);
    }
    assert forall|i: int| 0 <= i < profiles.len() && (#[trigger] profiles[i]).kind@
        != "loopback"@ implies listed_profiles(profiles).contains(profiles[i]) by {
        profiles.filter_lemma(keeps);
    }
}

/// The switch of the radio turns it over, and is there where there is a radio;
/// the button to scan is there where the radio is on.
pub proof fn law_the_radio_is_switched_where_there_is_one(
    s: State,
    snapshot: Snapshot,
    ghz: Seq<char>,
    popup: Popup,
)
    requires
        shows_popup(s, snapshot, ghz, popup),
    ensures
        snapshot.wifi is Some <==> popup.radio is Some,
        popup.radio is Some ==> popup.radio != Some(snapshot.wireless_enabled),
        popup.scan <==> snapshot.wifi is Some && snapshot.wireless_enabled,
        popup.nearby is Some <==> snapshot.wifi is Some,
        opt_text(popup.error) == opt_text(s.error),
        popup.tier == key_of(snapshot).tier,
        popup.glyph@ == key_of(snapshot).glyph,
        popup.name@ == name_of(snapshot),
        popup.nearby matches Some(nearby) ==> {
            &&& nearby.note is None <==> snapshot.wireless_enabled && snapshot.aps@.len() > 0
            &&& !snapshot.wireless_enabled ==> nearby.note->0@ == "radio off"@
            &&& snapshot.wireless_enabled && snapshot.aps@.len() == 0 ==> nearby.note->0@
                == "scanning…"@
        },
{
}

/// The access points in the order that they are listed: the one in use first,
/// then the stronger, then by name.
pub proof fn law_stronger_networks_come_first(aps: Seq<Ap>, i: int, j: int)
    requires
        0 <= i < j < ranked_aps(aps).len(),
    ensures
        ranked_aps(aps)[j].active ==> ranked_aps(aps)[i].active,
        ranked_aps(aps)[i].active == ranked_aps(aps)[j].active ==> ranked_aps(aps)[i].strength
            >= ranked_aps(aps)[j].strength,
{
    law_one_row_per_network(aps);
    let line = by_strength(ranked_aps(aps));
    assert(line[i].0 == ranked_aps(aps)[i] && line[j].0 == ranked_aps(aps)[j]);
}

/// What the cell tells: up only with a connection that is up and reaches out,
/// degraded with one that does not, pending while one comes up, off with the
/// radio switched off and no other connection, and down otherwise. Only what is
/// up goes without words.
pub proof fn law_the_cell_tells_how_things_stand(s: Snapshot)
    ensures
        key_of(s).tier is Up <==> s.primary is Some && s.primary->0.state == 2 && (s.connectivity
            == 4 || s.connectivity == 0),
        key_of(s).tier is Degraded <==> s.primary is Some && s.primary->0.state == 2
            && s.connectivity != 4 && s.connectivity != 0,
        s.primary is Some && s.primary->0.state != 2 ==> key_of(s).tier is Pending,
        key_of(s).tier is Off <==> s.primary is None && s.wifi is Some && !s.wireless_enabled,
        key_of(s).tier is Down ==> s.primary is None && s.state != 40 && forall|i: int|
            0 <= i < s.secondary@.len() ==> (#[trigger] s.secondary@[i]).state != 1,
        s.primary is None && !(s.wifi is Some && !s.wireless_enabled) ==> (key_of(s).tier is Pending
            <==> s.state == 40 || exists|i: int|
            0 <= i < s.secondary@.len() && (#[trigger] s.secondary@[i]).state == 1),
        key_of(s).rest.len() == 0 <==> key_of(s).tier is Up,
        key_of(s).tier is Pending ==> key_of(s).rest == "connecting…"@,
        key_of(s).tier is Degraded ==> key_of(s).rest == "no internet"@ && key_of(s).glyph
            == "\u{f092b}"@,
        key_of(s).tier is Off ==> key_of(s).rest == "off"@ && key_of(s).glyph == "\u{f092e}"@,
        key_of(s).tier is Down ==> key_of(s).rest == "offline"@ && key_of(s).glyph
            == if s.wifi is Some {
            "\u{f092f}"@
        } else {
            "\u{f0319}"@
        },
        key_of(s).tier is Up && s.primary->0.kind@ == "802-3-ethernet"@ ==> key_of(s).glyph
            == "\u{f0200}"@,
{
    reveal_strlit("802-3-ethernet");
    reveal_strlit("802-11-wireless");
    assert("802-3-ethernet"@[4] == '3' && "802-11-wireless"@[4] == '1' && "802-3-ethernet"@.len()
        == 14 && "802-11-wireless"@.len() == 15);
    assert("802-3-ethernet"@.subrange(0, 14) =~= "802-3-ethernet"@);
    reveal_strlit("connecting…");
    reveal_strlit("no internet");
    reveal_strlit("off");
    reveal_strlit("offline");
    reveal_strlit("");
}

/// A connection goes by its network's name where it has one, else by its own.
pub proof fn law_connections_go_by_their_network(s: Snapshot, active: Active)
    requires
        s.primary == Some(active),
    ensures
        active.ap matches Some(ap) ==> (0 < ap.ssid@.len() <= 18 ==> name_of(s) == ap.ssid@),
        (active.ap is None || active.ap->0.ssid@.len() == 0) && active.id@.len() <= 18 ==> name_of(
            s,
        ) == active.id@,
        name_of(s).len() <= 18,
{
}

/// The details name what they show: the interface, the addresses, the gateway and
/// the servers, each under its own label.
pub proof fn law_details_show_what_they_name(
    s: Snapshot,
    active: Active,
    rates: Option<(String, String)>,
    ghz: Seq<char>,
)
    requires
        s.primary == Some(active),
    ensures
        detail_lines(s, rates, ghz)[0] == ("state"@, state_text(s.state, s.connectivity)),
        active.device.iface@.len() > 0 ==> detail_lines(s, rates, ghz).contains(
            ("interface"@, active.device.iface@),
        ),
        active.ip4.addresses@.len() > 0 ==> detail_lines(s, rates, ghz).contains(
            ("ipv4"@, joined(texts(active.ip4.addresses@), ", "@)),
        ),
        active.ip4.gateway matches Some(gateway) ==> detail_lines(s, rates, ghz).contains(
            ("gateway"@, gateway@),
        ),
        active.ip4.dns@.len() > 0 ==> detail_lines(s, rates, ghz).contains(
            ("dns"@, joined(texts(active.ip4.dns@), ", "@)),
        ),
        detail_lines(s, rates, ghz).contains(("traffic"@, traffic_text(rates))),
{
    let (a, b, c, d, e, f, g, h) = lemma_parts(s, active, rates, ghz);
    let all = detail_lines(s, rates, ghz);
    let (ab, abc) = (a + b, a + b + c);
    let before = abc + d + e + f;
    let rest = before + g + h;
    let (la, lb, lc, lg) = (a.len() as int, ab.len() as int, abc.len() as int, before.len() as int);
    assert(all[1 + lg] == rest[lg] && rest[lg] == g[0]);
    if a.len() > 0 {
        assert(all[1] == rest[0] && rest[0] == a[0]);
    }
    if b.len() > 0 {
        assert(all[1 + la] == rest[la] && rest[la] == b[0]);
    }
    if c.len() > 0 {
        assert(all[1 + lb] == rest[lb] && rest[lb] == c[0]);
    }
    if d.len() > 0 {
        assert(all[1 + lc] == rest[lc] && rest[lc] == d[0]);
    }
}

type Lines = Seq<(Seq<char>, Seq<char>)>;

proof fn lemma_parts(
    s: Snapshot,
    active: Active,
    rates: Option<(String, String)>,
    ghz: Seq<char>,
) -> (r: (Lines, Lines, Lines, Lines, Lines, Lines, Lines, Lines))
    requires
        s.primary == Some(active),
    ensures
        detail_lines(s, rates, ghz) == seq![("state"@, state_text(s.state, s.connectivity))] + (r.0
            + r.1 + r.2 + r.3 + r.4 + r.5 + r.6 + r.7),
        r.0.len() > 0 <==> active.device.iface@.len() > 0,
        r.0.len() > 0 ==> r.0[0] == ("interface"@, active.device.iface@),
        r.1.len() > 0 <==> active.ip4.addresses@.len() > 0,
        r.1.len() > 0 ==> r.1[0] == ("ipv4"@, joined(texts(active.ip4.addresses@), ", "@)),
        r.2.len() > 0 <==> active.ip4.gateway is Some,
        r.2.len() > 0 ==> r.2[0] == ("gateway"@, active.ip4.gateway->0@),
        r.3.len() > 0 <==> active.ip4.dns@.len() > 0,
        r.3.len() > 0 ==> r.3[0] == ("dns"@, joined(texts(active.ip4.dns@), ", "@)),
        r.6.len() == 1,
        r.6[0] == ("traffic"@, traffic_text(rates)),
{
    let a = line_if(active.device.iface@.len() > 0, "interface"@, active.device.iface@);
    let b = line_if(
        active.ip4.addresses@.len() > 0,
        "ipv4"@,
        joined(texts(active.ip4.addresses@), ", "@),
    );
    let c: Lines = match active.ip4.gateway {
        Some(gateway) => seq![("gateway"@, gateway@)],
        None => Seq::empty(),
    };
    let d = line_if(active.ip4.dns@.len() > 0, "dns"@, joined(texts(active.ip4.dns@), ", "@));
    let e: Lines = match active.ap {
        Some(ap) => seq![("signal"@, signal_text(ap.strength, ghz, active.bitrate))],
        None => Seq::empty(),
    };
    let f: Lines = match active.speed {
        Some(speed) => line_if(speed > 0, "link"@, link_text(speed, active.carrier)),
        None => Seq::empty(),
    };
    let g: Lines = seq![("traffic"@, traffic_text(rates))];
    let h = line_if(s.secondary@.len() > 0, "also up"@, joined(ids(s.secondary@), ", "@));
    let first: Lines = seq![("state"@, state_text(s.state, s.connectivity))];
    let rest = a + b + c + d + e + f + g + h;
    assert(primary_lines(active, s.secondary@, rates, ghz) == rest);
    assert(detail_lines(s, rates, ghz) == first + rest);
    (a, b, c, d, e, f, g, h)
}

/// What comes in is told before what goes out, a strength in percent and a link in
/// its speed.
pub proof fn law_readings_are_told_in_their_words(
    rx: String,
    tx: String,
    strength: u8,
    ghz: Seq<char>,
    bitrate: u32,
    speed: u32,
)
    ensures
        traffic_text(Some((rx, tx))) == "\u{f01da}"@ + " "@ + rx@ + "   "@ + "\u{f0552}"@ + " "@
            + tx@,
        signal_text(strength, ghz, None) == decimal(strength as nat) + "% · "@ + ghz + " GHz"@,
        signal_text(strength, ghz, Some(bitrate)) == decimal(strength as nat) + "% · "@ + ghz
            + " GHz"@ + (" · "@ + decimal((bitrate / 1000) as nat) + " Mb/s"@),
        link_text(speed, Some(false)) == decimal(speed as nat) + " Mb/s"@ + " · no carrier"@,
        link_text(speed, Some(true)) == decimal(speed as nat) + " Mb/s"@,
{
    reveal_strlit("");
    assert(signal_text(strength, ghz, None) =~= decimal(strength as nat) + "% · "@ + ghz + " GHz"@);
    assert(link_text(speed, Some(true)) =~= decimal(speed as nat) + " Mb/s"@);
}

/// A radio is named by the band it is in, and a stronger signal by no lesser
/// symbol.
pub proof fn law_bands_and_symbols_follow_their_readings(a: u8, b: u8, mhz: u32)
    ensures
        wifi_symbol(a) == "\u{f091f}"@ <==> a < 25,
        wifi_symbol(a) == "\u{f0922}"@ <==> 25 <= a < 50,
        wifi_symbol(a) == "\u{f0925}"@ <==> 50 <= a < 75,
        wifi_symbol(a) == "\u{f0928}"@ <==> a >= 75,
        wifi_symbol(a) == wifi_symbol(b) <==> a / 25 == b / 25 || (a >= 75 && b >= 75),
        band_text(mhz) == "2.4 GHz"@ <==> 0 < mhz < 3000,
        band_text(mhz) == "5 GHz"@ <==> 3000 <= mhz < 5925,
        band_text(mhz) == "6 GHz"@ <==> mhz >= 5925,
{
    reveal_strlit("\u{f091f}");
    reveal_strlit("\u{f0922}");
    reveal_strlit("\u{f0925}");
    reveal_strlit("\u{f0928}");
    reveal_strlit("?");
    reveal_strlit("2.4 GHz");
    reveal_strlit("5 GHz");
    reveal_strlit("6 GHz");
    let symbols = seq!["\u{f091f}"@, "\u{f0922}"@, "\u{f0925}"@, "\u{f0928}"@];
    assert("\u{f091f}"@[0] == '\u{f091f}' && "\u{f0922}"@[0] == '\u{f0922}' && "\u{f0925}"@[0]
        == '\u{f0925}' && "\u{f0928}"@[0] == '\u{f0928}');
    assert("2.4 GHz"@.len() == 7 && "5 GHz"@.len() == 5 && "6 GHz"@.len() == 5 && "?"@.len() == 1);
    assert("5 GHz"@[0] == '5' && "6 GHz"@[0] == '6');
}

/// What protects a network: the strongest of what it offers is named, and it is
/// open only where it offers nothing.
pub proof fn law_open_networks_offer_nothing(flags: u32, wpa: u32, rsn: u32)
    ensures
        rsn & 0x400 != 0 ==> security_of(flags, wpa, rsn) == "wpa3"@,
        security_of(flags, wpa, rsn) == "wpa3"@ ==> rsn & 0x400 != 0,
        rsn & 0x100 != 0 ==> security_of(flags, wpa, rsn) != "open"@,
        wpa & 0x100 != 0 ==> security_of(flags, wpa, rsn) != "open"@,
        flags & 0x1 != 0 ==> security_of(flags, wpa, rsn) != "open"@,
        flags & 0x1 == 0 && wpa == 0 && rsn == 0 ==> security_of(flags, wpa, rsn) == "open"@,
        flags & 0x1 != 0 && wpa == 0 && rsn == 0 ==> security_of(flags, wpa, rsn) == "wep"@,
        rsn == 0x100 ==> (wpa == 0 ==> security_of(flags, wpa, rsn) == "wpa2"@),
        wpa == 0x100 ==> (rsn == 0 ==> security_of(flags, wpa, rsn) == "wpa"@),
{
    reveal_strlit("wpa3");
    reveal_strlit("wpa3-enterprise");
    reveal_strlit("802.1x");
    reveal_strlit("owe");
    reveal_strlit("wpa2");
    reveal_strlit("wpa");
    reveal_strlit("wep");
    reveal_strlit("open");
    assert("wpa3"@.len() == 4 && "wpa2"@.len() == 4 && "open"@.len() == 4 && "wpa"@.len() == 3
        && "wep"@.len() == 3 && "owe"@.len() == 3 && "802.1x"@.len() == 6
        && "wpa3-enterprise"@.len() == 15);
    assert("wpa3"@[3] == '3' && "wpa2"@[3] == '2' && "open"@[0] == 'o' && "wpa3"@[0] == 'w'
        && "wpa2"@[0] == 'w');
    assert(0u32 & 0x400 == 0 && 0u32 & 0x2000 == 0 && 0u32 | 0u32 == 0 && 0u32 & 0x200 == 0 && 0u32
        & (0x800u32 | 0x1000u32) == 0 && 0u32 & 0x100 == 0) by (bit_vector);
    assert(0x100u32 & 0x400 == 0 && 0x100u32 & 0x2000 == 0 && 0x100u32 | 0u32 == 0x100 && 0u32
        | 0x100u32 == 0x100 && 0x100u32 & 0x200 == 0 && 0x100u32 & (0x800u32 | 0x1000u32) == 0 && 0x100u32
        & 0x100 != 0) by (bit_vector);
}

/// A new strength reaches the access point it is of, in the list and in the
/// connection, and no other; nothing but strengths changes.
pub proof fn law_strengths_reach_their_access_point(s: Snapshot, path: Seq<char>, strength: u8)
    ensures
        retuned(s.aps@, path, strength).len() == s.aps@.len(),
        forall|i: int|
            0 <= i < s.aps@.len() ==> ({
                let (before, after) = (s.aps@[i], #[trigger] retuned(s.aps@, path, strength)[i]);
                &&& before.path@ != path ==> after == before
                &&& after == before || after == (Ap { strength, ..before })
                &&& before.path@ == path && (forall|k: int|
                    0 <= k < i ==> (#[trigger] s.aps@[k]).path@ != path) ==> after.strength
                    == strength
            }),
        s.primary matches Some(active) ==> (relinked(s.primary, path, strength) matches Some(after)
            && (active.ap matches Some(link) ==> (if link.path@ == path {
            after == (Active { ap: Some(ApLink { strength, ..link }), ..active })
        } else {
            after == active
        }))),
        s.primary is None ==> relinked(s.primary, path, strength) is None,
{
    lemma_strengths_reach(s.aps@, path, strength);
}

proof fn lemma_strengths_reach(aps: Seq<Ap>, path: Seq<char>, strength: u8)
    ensures
        retuned(aps, path, strength).len() == aps.len(),
        forall|i: int|
            0 <= i < aps.len() ==> ({
                let (before, after) = (aps[i], #[trigger] retuned(aps, path, strength)[i]);
                &&& before.path@ != path ==> after == before
                &&& after == before || after == (Ap { strength, ..before })
                &&& before.path@ == path && (forall|k: int|
                    0 <= k < i ==> (#[trigger] aps[k]).path@ != path) ==> after.strength == strength
            }),
    decreases aps.len(),
{
    if aps.len() > 0 && aps[0].path@ != path {
        lemma_strengths_reach(aps.skip(1), path, strength);
        let rest = retuned(aps.skip(1), path, strength);
        assert forall|i: int| 0 <= i < aps.len() implies ({
            let (before, after) = (aps[i], #[trigger] retuned(aps, path, strength)[i]);
            &&& before.path@ != path ==> after == before
            &&& after == before || after == (Ap { strength, ..before })
            &&& before.path@ == path && (forall|k: int|
                0 <= k < i ==> (#[trigger] aps[k]).path@ != path) ==> after.strength == strength
        }) by {
            if i > 0 {
                assert(retuned(aps, path, strength)[i] == rest[i - 1]);
                assert(aps.skip(1)[i - 1] == aps[i]);
                if forall|k: int| 0 <= k < i ==> (#[trigger] aps[k]).path@ != path {
                    assert forall|k: int| 0 <= k < i - 1 implies (
                    #[trigger] aps.skip(1)[k]).path@ != path by {
                        assert(aps.skip(1)[k] == aps[k + 1]);
                    }
                }
            }
        }
    }
}

/// A restart of the service is told apart from everything else, and a change of
/// what the popup alone shows is passed over while it is closed.
pub proof fn law_signals_are_read_for_what_they_change(
    member: Seq<char>,
    interface: Seq<char>,
    changed: Props,
    detailed: bool,
)
    ensures
        change_for(member, Some((interface, changed)), detailed) == Change::Restart <==> member
            == "NameOwnerChanged"@,
        member == "AccessPointAdded"@ || member == "AccessPointRemoved"@ || member
            == "NewConnection"@ || member == "ConnectionRemoved"@ ==> (change_for(
            member,
            Some((interface, changed)),
            detailed,
        ) == Change::Reread <==> detailed),
        change_for(member, Some((interface, changed)), detailed) != Change::Patch,
        member == "PropertiesChanged"@ && (interface
            == "org.freedesktop.NetworkManager.Connection.Active"@ || interface
            == "org.freedesktop.NetworkManager.IP4Config"@) ==> change_for(
            member,
            Some((interface, changed)),
            detailed,
        ) == Change::Reread,
        member == "PropertiesChanged"@ && interface == "org.freedesktop.NetworkManager"@ && (exists|
            i: int,
        |
            0 <= i < changed.entries@.len() && ({
                let name = (#[trigger] changed.entries@[i]).0@;
                name == "PrimaryConnection"@ || name == "ActiveConnections"@ || name == "State"@
                    || name == "Connectivity"@ || name == "WirelessEnabled"@ || name == "Devices"@
            })) ==> change_for(member, Some((interface, changed)), detailed) == Change::Reread,
        changed.entries@.len() == 0 && interface == "org.freedesktop.NetworkManager"@
            && member == "PropertiesChanged"@ ==> change_for(
            member,
            Some((interface, changed)),
            detailed,
        ) == Change::Ignore,
{
    lemma_members_differ();
    if interface == "org.freedesktop.NetworkManager"@ && exists|i: int|
        0 <= i < changed.entries@.len() && ({
            let name = (#[trigger] changed.entries@[i]).0@;
            name == "PrimaryConnection"@ || name == "ActiveConnections"@ || name == "State"@
                || name == "Connectivity"@ || name == "WirelessEnabled"@ || name == "Devices"@
        }) {
        let i = choose|i: int|
            0 <= i < changed.entries@.len() && ({
                let name = (#[trigger] changed.entries@[i]).0@;
                name == "PrimaryConnection"@ || name == "ActiveConnections"@ || name == "State"@
                    || name == "Connectivity"@ || name == "WirelessEnabled"@ || name == "Devices"@
            });
        assert(manager_key(changed.entries@[i].0@));
    }
}

proof fn lemma_members_differ()
    ensures
        "NameOwnerChanged"@ != "PropertiesChanged"@,
        "AccessPointAdded"@ != "NameOwnerChanged"@,
        "AccessPointRemoved"@ != "NameOwnerChanged"@,
        "NewConnection"@ != "NameOwnerChanged"@,
        "ConnectionRemoved"@ != "NameOwnerChanged"@,
        "AccessPointAdded"@ != "PropertiesChanged"@,
        "AccessPointRemoved"@ != "PropertiesChanged"@,
        "NewConnection"@ != "PropertiesChanged"@,
        "ConnectionRemoved"@ != "PropertiesChanged"@,
        "org.freedesktop.NetworkManager"@
            != "org.freedesktop.NetworkManager.Connection.Active"@,
        "org.freedesktop.NetworkManager"@ != "org.freedesktop.NetworkManager.IP4Config"@,
{
    reveal_strlit("NameOwnerChanged");
    reveal_strlit("PropertiesChanged");
    reveal_strlit("AccessPointAdded");
    reveal_strlit("AccessPointRemoved");
    reveal_strlit("NewConnection");
    reveal_strlit("ConnectionRemoved");
    reveal_strlit("org.freedesktop.NetworkManager");
    reveal_strlit("org.freedesktop.NetworkManager.Connection.Active");
    reveal_strlit("org.freedesktop.NetworkManager.IP4Config");
    assert("NameOwnerChanged"@[0] == 'N' && "NameOwnerChanged"@[1] == 'a');
    assert("PropertiesChanged"@[0] == 'P' && "NewConnection"@[0] == 'N' && "NewConnection"@[1]
        == 'e' && "ConnectionRemoved"@[0] == 'C' && "AccessPointAdded"@[0] == 'A'
        && "AccessPointRemoved"@[0] == 'A');
    assert("org.freedesktop.NetworkManager"@.len() == 30);
}

/// The snapshot is made of what was read: the first wifi device there is, the
/// connection that the service names as its primary one, and every other one
/// beside it. Without a primary one, the first that comes up stands in for it.
pub proof fn law_snapshots_hold_what_was_read(
    s: Snapshot,
    manager: Props,
    devices: Seq<Device>,
    actives: Seq<Active>,
)
    requires
        is_assembled(s, manager, devices, actives),
    ensures
        s.wifi is Some <==> exists|i: int|
            0 <= i < devices.len() && (#[trigger] devices[i]).kind == 2,
        s.wifi matches Some(wifi) ==> wifi.kind == 2 && exists|i: int|
            0 <= i < devices.len() && (#[trigger] devices[i]).path@ == wifi.path@ && devices[i].kind
                == 2 && forall|k: int| 0 <= k < i ==> (#[trigger] devices[k]).kind != 2,
        s.wireless_enabled <==> manager.bool_at("WirelessEnabled"@) == Some(true),
        manager.u32_at("State"@) matches Some(state) ==> s.state == state,
        manager.u32_at("Connectivity"@) matches Some(connectivity) ==> s.connectivity
            == connectivity,
        s.primary is Some ==> actives.contains(s.primary->0),
        s.primary matches Some(active) ==> (manager.text_at("PrimaryConnection"@) == Some(
            active.path@,
        ) || active.state == 1),
        (exists|i: int|
            0 <= i < actives.len() && manager.text_at("PrimaryConnection"@) == Some(
                (#[trigger] actives[i]).path@,
            ) && actives[i].path@ != "/"@) ==> (s.primary matches Some(active)
            && manager.text_at("PrimaryConnection"@) == Some(active.path@)),
        forall|i: int|
            0 <= i < s.secondary@.len() ==> actives.contains(#[trigger] s.secondary@[i]),
        forall|i: int|
            0 <= i < actives.len() ==> s.secondary@.contains(#[trigger] actives[i]) || (
            s.primary matches Some(active) && (active == actives[i] || active.path@
                == actives[i].path@)),
{
    let path = object_at(manager, "PrimaryConnection"@);
    let rest = others(actives, path);
    lemma_first_wifi(devices);
    lemma_split(actives, path);
    lemma_first_coming(rest);
    assert forall|i: int| 0 <= i < actives.len() implies s.secondary@.contains(
        #[trigger] actives[i],
    ) || (s.primary matches Some(active) && (active == actives[i] || active.path@
        == actives[i].path@)) by {
        if rest.contains(actives[i]) {
            let j = choose|j: int| 0 <= j < rest.len() && rest[j] == actives[i];
            match first_coming(rest) {
                Some(k) => if primary_of(actives, path) is None {
                    if j < k {
                        assert(rest.remove(k)[j] == actives[i]);
                    } else if j > k {
                        assert(rest.remove(k)[j - 1] == actives[i]);
                    }
                },
                None => {},
            }
        }
    }
    assert forall|i: int| 0 <= i < s.secondary@.len() implies actives.contains(
        #[trigger] s.secondary@[i],
    ) by {
        assert(rest.contains(s.secondary@[i])) by {
            match first_coming(rest) {
                Some(k) => if primary_of(actives, path) is None {
                    let j = if i < k {
                        i
                    } else {
                        i + 1
                    };
                    assert(rest.remove(k)[i] == rest[j]);
                } else {
                    assert(rest[i] == s.secondary@[i]);
                },
                None => {
                    assert(rest[i] == s.secondary@[i]);
                },
            }
        }
    }
}

proof fn lemma_first_wifi(devices: Seq<Device>)
    ensures
        first_wifi(devices) is Some <==> exists|i: int|
            0 <= i < devices.len() && (#[trigger] devices[i]).kind == 2,
        first_wifi(devices) matches Some(wifi) ==> wifi.kind == 2 && exists|i: int|
            0 <= i < devices.len() && #[trigger] devices[i] == wifi && forall|k: int|
                0 <= k < i ==> (#[trigger] devices[k]).kind != 2,
    decreases devices.len(),
{
    if devices.len() > 0 {
        let before = devices.drop_last();
        lemma_first_wifi(before);
        match first_wifi(before) {
            Some(wifi) => {
                let i = choose|i: int|
                    0 <= i < before.len() && #[trigger] before[i] == wifi && forall|k: int|
                        0 <= k < i ==> (#[trigger] before[k]).kind != 2;
                assert(devices[i] == wifi);
                assert forall|k: int| 0 <= k < i implies (#[trigger] devices[k]).kind != 2 by {
                    assert(before[k] == devices[k]);
                }
            },
            None => {
                assert forall|k: int| 0 <= k < devices.len() - 1 implies (
                #[trigger] devices[k]).kind != 2 by {
                    assert(before[k] == devices[k]);
                }
                assert(devices[devices.len() - 1] == devices.last());
            },
        }
    }
}

proof fn lemma_split(actives: Seq<Active>, path: Option<Seq<char>>)
    ensures
        primary_of(actives, path) matches Some(active) ==> actives.contains(active)
            && Some(active.path@) == path,
        primary_of(actives, path) is None ==> forall|i: int|
            0 <= i < actives.len() ==> Some((#[trigger] actives[i]).path@) != path,
        forall|i: int|
            0 <= i < others(actives, path).len() ==> actives.contains(
                #[trigger] others(actives, path)[i],
            ),
        forall|i: int|
            0 <= i < actives.len() ==> others(actives, path).contains(#[trigger] actives[i])
                || Some(actives[i].path@) == path,
    decreases actives.len(),
{
    if actives.len() > 0 {
        let before = actives.drop_last();
        lemma_split(before, path);
        assert(actives[actives.len() - 1] == actives.last());
        assert forall|a: Active| before.contains(a) implies actives.contains(a) by {
            let k = choose|k: int| 0 <= k < before.len() && before[k] == a;
            assert(actives[k] == a);
        }
        let rest = others(before, path);
        let all = others(actives, path);
        assert forall|a: Active| rest.contains(a) implies all.contains(a) by {
            let k = choose|k: int| 0 <= k < rest.len() && rest[k] == a;
            assert(all[k] == a);
        }
        if !(path is Some && actives.last().path@ == path->0) {
            assert(all[all.len() - 1] == actives.last());
        }
        assert forall|i: int| 0 <= i < actives.len() implies all.contains(#[trigger] actives[i])
            || Some(actives[i].path@) == path by {
            if i < before.len() {
                assert(before[i] == actives[i]);
            }
        }
        assert forall|i: int| 0 <= i < all.len() implies actives.contains(#[trigger] all[i]) by {
            if i < rest.len() {
                assert(all[i] == rest[i]);
            }
        }
        if primary_of(actives, path) is None {
            assert forall|i: int| 0 <= i < actives.len() implies Some(
                (#[trigger] actives[i]).path@,
            ) != path by {
                if i < before.len() {
                    assert(before[i] == actives[i]);
                }
            }
        }
    }
}

proof fn lemma_first_coming(actives: Seq<Active>)
    ensures
        first_coming(actives) matches Some(i) ==> 0 <= i < actives.len() && actives[i].state == 1,
    decreases actives.len(),
{
    if actives.len() > 0 {
        lemma_first_coming(actives.drop_last());
    }
}

/// A profile is up by a connection that came from it, and no other.
pub proof fn law_profiles_are_up_by_their_own_connection(s: Snapshot, profile: Seq<char>)
    ensures
        active_from(s, profile) matches Some(path) ==> (s.primary matches Some(active)
            && active.profile@ == profile && active.path@ == path) || exists|i: int|
            0 <= i < s.secondary@.len() && (#[trigger] s.secondary@[i]).profile@ == profile
                && s.secondary@[i].path@ == path,
        active_from(s, profile) is None ==> (s.primary matches Some(active) ==> active.profile@
            != profile) && forall|i: int|
            0 <= i < s.secondary@.len() ==> (#[trigger] s.secondary@[i]).profile@ != profile,
{
    lemma_active_among(s.secondary@, profile);
}

proof fn lemma_active_among(actives: Seq<Active>, profile: Seq<char>)
    ensures
        active_among(actives, profile) matches Some(path) ==> exists|i: int|
            0 <= i < actives.len() && (#[trigger] actives[i]).profile@ == profile && actives[i].path@
                == path,
        active_among(actives, profile) is None ==> forall|i: int|
            0 <= i < actives.len() ==> (#[trigger] actives[i]).profile@ != profile,
    decreases actives.len(),
{
    if actives.len() > 0 {
        let rest = actives.skip(1);
        lemma_active_among(rest, profile);
        if actives[0].profile@ != profile {
            match active_among(rest, profile) {
                Some(path) => {
                    let i = choose|i: int|
                        0 <= i < rest.len() && (#[trigger] rest[i]).profile@ == profile
                            && rest[i].path@ == path;
                    assert(actives[i + 1] == rest[i]);
                },
                None => {
                    assert forall|i: int| 0 <= i < actives.len() implies (
                    #[trigger] actives[i]).profile@ != profile by {
                        if i > 0 {
                            assert(rest[i - 1] == actives[i]);
                        }
                    }
                },
            }
        }
    }
}

/// A network is joined through a profile that was saved for it, the first there
/// is.
pub proof fn law_networks_are_joined_through_their_own_profile(
    profiles: Seq<Profile>,
    ssid: Seq<char>,
)
    ensures
        profile_for(profiles, ssid) matches Some(path) ==> exists|i: int|
            0 <= i < profiles.len() && opt_text((#[trigger] profiles[i]).ssid) == Some(ssid)
                && profiles[i].path@ == path && forall|k: int|
                0 <= k < i ==> opt_text((#[trigger] profiles[k]).ssid) != Some(ssid),
        profile_for(profiles, ssid) is None ==> forall|i: int|
            0 <= i < profiles.len() ==> opt_text((#[trigger] profiles[i]).ssid) != Some(ssid),
    decreases profiles.len(),
{
    if profiles.len() > 0 {
        let rest = profiles.skip(1);
        law_networks_are_joined_through_their_own_profile(rest, ssid);
        if opt_text(profiles[0].ssid) != Some(ssid) {
            match profile_for(rest, ssid) {
                Some(path) => {
                    let i = choose|i: int|
                        0 <= i < rest.len() && opt_text((#[trigger] rest[i]).ssid) == Some(ssid)
                            && rest[i].path@ == path && forall|k: int|
                            0 <= k < i ==> opt_text((#[trigger] rest[k]).ssid) != Some(ssid);
                    assert(profiles[i + 1] == rest[i]);
                    assert forall|k: int| 0 <= k < i + 1 implies opt_text(
                        (#[trigger] profiles[k]).ssid,
                    ) != Some(ssid) by {
                        if k > 0 {
                            assert(rest[k - 1] == profiles[k]);
                        }
                    }
                },
                None => {
                    assert forall|i: int| 0 <= i < profiles.len() implies opt_text(
                        (#[trigger] profiles[i]).ssid,
                    ) != Some(ssid) by {
                        if i > 0 {
                            assert(rest[i - 1] == profiles[i]);
                        }
                    }
                },
            }
        } else {
            assert(profiles[0].path@ == profile_for(profiles, ssid)->0);
        }
    }
}

/// A connection is on a device that its paths name.
pub proof fn law_connections_stand_on_their_own_device(
    paths: Seq<Seq<char>>,
    devices: Seq<Device>,
)
    ensures
        first_device(paths, devices) matches Some(i) ==> 0 <= i < devices.len() && paths.contains(
            devices[i].path@,
        ),
        first_device(paths, devices) is None ==> forall|i: int, k: int|
            0 <= i < devices.len() && 0 <= k < paths.len() ==> (#[trigger] devices[i]).path@
                != #[trigger] paths[k],
    decreases paths.len(),
{
    if paths.len() > 0 {
        let rest = paths.skip(1);
        lemma_device_at(devices, paths[0]);
        law_connections_stand_on_their_own_device(rest, devices);
        if device_at(devices, paths[0]) is None {
            if first_device(rest, devices) is Some {
                let path = devices[first_device(rest, devices)->0].path@;
                let k = choose|k: int| 0 <= k < rest.len() && rest[k] == path;
                assert(paths[k + 1] == path);
            } else {
                assert forall|i: int, k: int|
                    0 <= i < devices.len() && 0 <= k < paths.len() implies (
                #[trigger] devices[i]).path@ != #[trigger] paths[k] by {
                    if k > 0 {
                        assert(rest[k - 1] == paths[k]);
                    }
                }
            }
        }
    }
}

proof fn lemma_device_at(devices: Seq<Device>, path: Seq<char>)
    ensures
        device_at(devices, path) matches Some(i) ==> 0 <= i < devices.len() && devices[i].path@
            == path,
        device_at(devices, path) is None ==> forall|i: int|
            0 <= i < devices.len() ==> (#[trigger] devices[i]).path@ != path,
    decreases devices.len(),
{
    if devices.len() > 0 {
        let before = devices.drop_last();
        lemma_device_at(before, path);
        if device_at(devices, path) is None {
            assert forall|i: int| 0 <= i < devices.len() implies (#[trigger] devices[i]).path@
                != path by {
                if i < before.len() {
                    assert(before[i] == devices[i]);
                }
            }
        }
    }
}

/// Saved connections come in order: what is up before what is not.
pub proof fn law_what_is_up_comes_first(profiles: Seq<Profile>, i: int, j: int)
    requires
        0 <= i < j < in_line(profiles).len(),
    ensures
        in_line(profiles)[j].active is Some ==> in_line(profiles)[i].active is Some,
{
    assert forall|a: Profile, b: Profile| #[trigger] a.precedes(&b) implies !b.precedes(&a) by {
        lemma_text_order_total(lowercase(a.id@), lowercase(b.id@));
    }
    assert forall|a: Profile, b: Profile, c: Profile|
        #![trigger a.precedes(&b), b.precedes(&c)]
        !a.precedes(&b) && !b.precedes(&c) implies !a.precedes(&c) by {
        let (x, y, z) = (lowercase(a.id@), lowercase(b.id@), lowercase(c.id@));
        lemma_text_order_total(x, y);
        lemma_text_order_total(y, z);
        lemma_text_order_total(x, z);
        if x != y && y != z && text_before(z, y) && text_before(y, x) {
            lemma_text_order_transitive(z, y, x);
        }
    }
    law_sorting_sorts(profiles);
}

/// A change of a device is read again where it shows, and passed over where it
/// does not.
pub proof fn law_devices_are_read_again_where_it_shows(changed: Props, i: int, detailed: bool)
    requires
        0 <= i < changed.entries@.len(),
    ensures
        ({
            let name = changed.entries@[i].0@;
            let change = change_for(
                "PropertiesChanged"@,
                Some(("org.freedesktop.NetworkManager.Device"@, changed)),
                detailed,
            );
            &&& name == "State"@ || name == "ActiveConnection"@ || name == "Ip4Config"@ || name
                == "Carrier"@ || name == "Speed"@ || name == "ActiveAccessPoint"@ || name
                == "Bitrate"@ || name == "LastScan"@ ==> change == Change::Reread
            &&& changed.entries@.len() == 1 && !(name == "State"@ || name == "ActiveConnection"@
                || name == "Ip4Config"@ || name == "Carrier"@ || name == "Speed"@ || name
                == "ActiveAccessPoint"@ || name == "Bitrate"@ || name == "LastScan"@) ==> change
                == Change::Ignore
        }),
{
    lemma_members_differ();
    let device = "org.freedesktop.NetworkManager.Device"@;
    reveal_strlit("org.freedesktop.NetworkManager");
    reveal_strlit("org.freedesktop.NetworkManager.Device");
    reveal_strlit("org.freedesktop.NetworkManager.Connection.Active");
    reveal_strlit("org.freedesktop.NetworkManager.IP4Config");
    assert(device.len() == 37);
    assert("org.freedesktop.NetworkManager"@.len() == 30);
    assert("org.freedesktop.NetworkManager.Connection.Active"@.len() == 48);
    assert("org.freedesktop.NetworkManager.IP4Config"@.len() == 40);
    assert(device.subrange(0, 37) =~= device);
    assert(device.is_prefix_of(device));
    let name = changed.entries@[i].0@;
    if device_key(name) {
        assert(device_changed(changed));
    } else if changed.entries@.len() == 1 {
        assert(!device_changed(changed));
    }
}

/// Kinds and states are told by their own words.
pub proof fn law_kinds_and_states_have_their_own_words(
    kind: Seq<char>,
    state: u32,
    connectivity: u32,
)
    ensures
        kind == "802-11-wireless"@ ==> kind_text(kind) == "wifi"@,
        kind == "802-3-ethernet"@ ==> kind_text(kind) == "ethernet"@,
        kind == "vpn"@ || kind == "wireguard"@ ==> kind_text(kind) == "vpn"@,
        kind == "bridge"@ ==> kind_text(kind) == "bridge"@,
        connectivity == 4 || connectivity == 0 ==> {
            &&& state == 10 ==> state_text(state, connectivity) == "asleep"@
            &&& state == 20 ==> state_text(state, connectivity) == "disconnected"@
            &&& state == 30 ==> state_text(state, connectivity) == "disconnecting"@
            &&& state == 40 ==> state_text(state, connectivity) == "connecting"@
            &&& state == 50 ==> state_text(state, connectivity) == "connected (local)"@
            &&& state == 60 ==> state_text(state, connectivity) == "connected (site)"@
            &&& state == 70 ==> state_text(state, connectivity) == "connected"@
            &&& state == 0 ==> state_text(state, connectivity) == "unknown"@
        },
        state == 70 ==> {
            &&& connectivity == 1 ==> state_text(state, connectivity) == "connected"@
                + " · no connectivity"@
            &&& connectivity == 2 ==> state_text(state, connectivity) == "connected"@
                + " · captive portal"@
            &&& connectivity == 3 ==> state_text(state, connectivity) == "connected"@
                + " · limited"@
        },
{
    reveal_strlit("802-11-wireless");
    reveal_strlit("802-3-ethernet");
    reveal_strlit("vpn");
    reveal_strlit("wireguard");
    reveal_strlit("bridge");
    reveal_strlit("");
    assert("802-11-wireless"@.len() == 15 && "802-3-ethernet"@.len() == 14 && "vpn"@.len() == 3
        && "wireguard"@.len() == 9 && "bridge"@.len() == 6);
    assert("asleep"@ + ""@ =~= "asleep"@);
    assert("disconnected"@ + ""@ =~= "disconnected"@);
    assert("disconnecting"@ + ""@ =~= "disconnecting"@);
    assert("connecting"@ + ""@ =~= "connecting"@);
    assert("connected (local)"@ + ""@ =~= "connected (local)"@);
    assert("connected (site)"@ + ""@ =~= "connected (site)"@);
    assert("connected"@ + ""@ =~= "connected"@);
    assert("unknown"@ + ""@ =~= "unknown"@);
}

/// A signal tells of an access point where it says that one of its properties
/// changed.
pub proof fn law_access_points_tell_of_themselves(
    member: Seq<char>,
    interface: Seq<char>,
    changed: Props,
)
    ensures
        tells_of_ap(member, Some((interface, changed))) <==> member == "PropertiesChanged"@
            && interface == "org.freedesktop.NetworkManager.AccessPoint"@,
        !tells_of_ap(member, None),
{
}

/// There is a popup as long as the service is there and something was read.
pub proof fn law_there_is_a_popup_while_the_service_is_there(s: State)
    ensures
        s.pops_up() <==> s.available && s.snapshot is Some,
{
}

/// What comes up and stands in for a primary connection is the first wired or
/// wireless one that does.
pub proof fn law_the_first_that_comes_up_stands_in(actives: Seq<Active>)
    ensures
        first_coming(actives) matches Some(i) ==> 0 <= i < actives.len() && actives[i].state == 1
            && ("802-11-wireless"@.is_prefix_of(actives[i].kind@) || "802-3-ethernet"@.is_prefix_of(
            actives[i].kind@,
        )) && forall|k: int| 0 <= k < i ==> !comes_up(#[trigger] actives[k]),
        first_coming(actives) is None ==> forall|k: int|
            0 <= k < actives.len() ==> !comes_up(#[trigger] actives[k]),
        forall|k: int|
            0 <= k < actives.len() && (#[trigger] actives[k]).state == 1 && ("802-11-wireless"@.is_prefix_of(
                actives[k].kind@,
            ) || "802-3-ethernet"@.is_prefix_of(actives[k].kind@)) ==> comes_up(actives[k]),
    decreases actives.len(),
{
    if actives.len() > 0 {
        let before = actives.drop_last();
        law_the_first_that_comes_up_stands_in(before);
        assert forall|k: int| 0 <= k < before.len() implies (#[trigger] before[k])
            == actives[k] by {}
        if first_coming(before) is None {
            assert forall|k: int| 0 <= k < before.len() implies !comes_up(#[trigger] actives[k]) by {
                assert(before[k] == actives[k]);
            }
        } else {
            let i = first_coming(before)->0;
            assert(before[i] == actives[i]);
            assert forall|k: int| 0 <= k < i implies !comes_up(#[trigger] actives[k]) by {
                assert(before[k] == actives[k]);
            }
        }
    }
}

} // verus!
