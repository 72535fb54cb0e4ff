//! What the network module shows and what its buttons ask for.
use crate::modules::network::snapshot::{
    band, band_text, key_of, kind_name, kind_text, name_of, state_name, state_text, wifi_icon,
    wifi_symbol, Active, Ap, BarKey, Device, Profile, Snapshot, Tier,
};
use crate::number::{decimal, unsigned};
use crate::text::{
    concat, concat3, concat4, elide, elided, join, joined, opt_str, opt_text, same, texts,
};
use vstd::prelude::*;
use vstd::string::*;

verus! {

pub const ICON_LOCK: &'static str = "\u{f033e}";

pub const ICON_DOWN: &'static str = "\u{f01da}";

pub const ICON_UP: &'static str = "\u{f0552}";

/// Longest SSID rendered in a popup row.
pub const SSID_LIMIT: usize = 22;

/// Rows per popup list before it is cut off.
pub const AP_LIMIT: usize = 6;

pub const PROFILE_LIMIT: usize = 6;

/// Delays before connecting again, in seconds.
pub const RECONNECT_BACKOFF: [u64; 5] = [1, 2, 5, 10, 30];

/// A session that lasted this long, in seconds, was healthy.
pub const STABLE_SESSION: u64 = 60;

#[derive(Debug)]
pub enum Event {
    Snapshot(Snapshot),
    /// NetworkManager is gone or unreachable.
    Unavailable,
    /// The transfer rates, as the popup prints them.
    Rates { rx: String, tx: String },
    Activate { profile: String, device: String, specific: String },
    Deactivate { active: String },
    Rescan,
    SetWireless(bool),
    /// Flip the radio, whichever way it is set right now.
    ToggleWireless,
    /// A brand-new SSID needs a passphrase prompt, which the terminal has room for.
    Nmtui(String),
    /// Result of a call.
    Done(Result<(), String>),
}

/// A call to NetworkManager, or the program that talks to it.
#[derive(Debug, Clone)]
pub enum Call {
    Activate { profile: String, device: String, specific: String },
    Deactivate(String),
    Scan(String),
    SetWireless(bool),
    /// Open the network program in that terminal.
    Nmtui(String),
}

pub enum CallView {
    Activate { profile: Seq<char>, device: Seq<char>, specific: Seq<char> },
    Deactivate(Seq<char>),
    Scan(Seq<char>),
    SetWireless(bool),
    Nmtui(Seq<char>),
}

impl View for Call {
    type V = CallView;

    open spec fn view(&self) -> CallView {
        match *self {
            Call::Activate { profile, device, specific } => CallView::Activate {
                profile: profile@,
                device: device@,
                specific: specific@,
            },
            Call::Deactivate(active) => CallView::Deactivate(active@),
            Call::Scan(device) => CallView::Scan(device@),
            Call::SetWireless(enabled) => CallView::SetWireless(enabled),
            Call::Nmtui(terminal) => CallView::Nmtui(terminal@),
        }
    }
}

/// What an event calls for.
#[derive(Debug, Clone)]
pub struct Effects {
    pub call: Option<Call>,
    pub close_popup: bool,
}

pub open spec fn call_view(call: Option<Call>) -> Option<CallView> {
    match call {
        Some(call) => Some(call@),
        None => None,
    }
}

#[derive(Debug, Clone)]
pub struct State {
    pub snapshot: Option<Snapshot>,
    pub available: bool,
    /// Last sampled rates of the primary device, as printed.
    pub rates: Option<(String, String)>,
    /// Object path of the profile or active connection with a call in flight.
    pub busy: Option<String>,
    pub error: Option<String>,
}

/// The wifi device that a rescan is asked of.
pub open spec fn wifi_of(s: State) -> Option<Device> {
    match s.snapshot {
        Some(snapshot) => snapshot.wifi,
        None => None,
    }
}

/// The call that an event asks for.
pub open spec fn call_for(s: State, event: Event) -> Option<CallView> {
    match event {
        Event::Activate { profile, device, specific } => Some(
            CallView::Activate { profile: profile@, device: device@, specific: specific@ },
        ),
        Event::Deactivate { active } => Some(CallView::Deactivate(active@)),
        Event::Rescan => match wifi_of(s) {
            Some(wifi) => Some(CallView::Scan(wifi.path@)),
            None => None,
        },
        Event::SetWireless(enabled) => Some(CallView::SetWireless(enabled)),
        Event::ToggleWireless => match s.snapshot {
            Some(snapshot) => Some(CallView::SetWireless(!snapshot.wireless_enabled)),
            None => None,
        },
        Event::Nmtui(terminal) => Some(CallView::Nmtui(terminal@)),
        _ => None,
    }
}

/// Whether an event leaves nothing more to do in the popup.
pub open spec fn closes(event: Event) -> bool {
    event is Activate || event is Deactivate || event is Nmtui
}

/// How an event changes the state.
pub open spec fn follows(s: State, event: Event, t: State) -> bool {
    match event {
        Event::Snapshot(snapshot) => t == (State {
            snapshot: Some(snapshot),
            available: true,
            ..s
        }),
        Event::Unavailable => t == (State { available: false, rates: None, busy: None, ..s }),
        Event::Rates { rx, tx } => t == (State { rates: Some((rx, tx)), ..s }),
        Event::Activate { profile, device, specific } => t == (State {
            busy: t.busy,
            error: None,
            ..s
        }) && opt_text(t.busy) == Some(profile@),
        Event::Deactivate { active } => t == (State { busy: t.busy, error: None, ..s })
            && opt_text(t.busy) == Some(active@),
        Event::Done(Ok(_)) => t == (State { busy: None, error: None, ..s }),
        Event::Done(Err(error)) => t == (State { busy: None, error: Some(error), ..s }),
        _ => t == s,
    }
}

impl State {
    pub fn new() -> (r: State)
        ensures
            r == (State { snapshot: None, available: false, rates: None, busy: None, error: None }),
    {
        State { snapshot: None, available: false, rates: None, busy: None, error: None }
    }

    pub fn update(&mut self, event: Event) -> (r: Effects)
        ensures
            follows(*old(self), event, *final(self)),
            call_view(r.call) == call_for(*old(self), event),
            r.close_popup == closes(event),
            event matches Event::Activate { profile, device, specific } ==> (r.call matches Some(
                Call::Activate { profile: p, device: d, specific: o },
            ) && p@ == profile@ && d@ == device@ && o@ == specific@),
            event matches Event::Deactivate { active } ==> (r.call matches Some(
                Call::Deactivate(a),
            ) && a@ == active@),
            event matches Event::SetWireless(on) ==> r.call == Some(Call::SetWireless(on)),
            event matches Event::Nmtui(terminal) ==> (r.call matches Some(Call::Nmtui(with))
                && with@ == terminal@),
    {
        match event {
            Event::Snapshot(snapshot) => {
                self.snapshot = Some(snapshot);
                self.available = true;
                Effects { call: None, close_popup: false }
            },
            Event::Unavailable => {
                self.available = false;
                self.rates = None;
                self.busy = None;
                Effects { call: None, close_popup: false }
            },
            Event::Rates { rx, tx } => {
                self.rates = Some((rx, tx));
                Effects { call: None, close_popup: false }
            },
            Event::Activate { profile, device, specific } => {
                self.busy = Some(profile.as_str().to_owned());
                self.error = None;
                Effects {
                    call: Some(Call::Activate { profile, device, specific }),
                    close_popup: true,
                }
            },
            Event::Deactivate { active } => {
                self.busy = Some(active.as_str().to_owned());
                self.error = None;
                Effects { call: Some(Call::Deactivate(active)), close_popup: true }
            },
            Event::Rescan => {
                let call = match &self.snapshot {
                    Some(snapshot) => match &snapshot.wifi {
                        Some(wifi) => Some(Call::Scan(wifi.path.as_str().to_owned())),
                        None => None,
                    },
                    None => None,
                };
                Effects { call, close_popup: false }
            },
            Event::SetWireless(enabled) => Effects {
                call: Some(Call::SetWireless(enabled)),
                close_popup: false,
            },
            Event::ToggleWireless => {
                let call = match &self.snapshot {
                    Some(snapshot) => Some(Call::SetWireless(!snapshot.wireless_enabled)),
                    None => None,
                };
                Effects { call, close_popup: false }
            },
            Event::Nmtui(terminal) => Effects {
                call: Some(Call::Nmtui(terminal)),
                close_popup: true,
            },
            Event::Done(result) => {
                self.busy = None;
                self.error = match result {
                    Ok(_) => None,
                    Err(error) => Some(error),
                };
                Effects { call: None, close_popup: false }
            },
        }
    }

    /// The interface whose transfer rates are sampled while the popup is open.
    pub fn sampled(&self, open: bool) -> (r: Option<&str>)
        ensures
            opt_str(r) == match self.snapshot {
                Some(s) => match s.primary {
                    Some(active) => if open && self.available && active.device.iface@.len() > 0 {
                        Some(active.device.iface@)
                    } else {
                        None
                    },
                    None => None,
                },
                None => None,
            },
    {
        if !open || !self.available {
            return None;
        }
        match &self.snapshot {
            Some(snapshot) => match &snapshot.primary {
                Some(active) => if active.device.iface.as_str().is_empty() {
                    None
                } else {
                    Some(active.device.iface.as_str())
                },
                None => None,
            },
            None => None,
        }
    }

    /// The device that is kept scanning while the popup is open.
    pub fn scanned(&self, open: bool) -> (r: Option<&str>)
        ensures
            opt_str(r) == match self.snapshot {
                Some(s) => match s.wifi {
                    Some(wifi) => if open && self.available && s.wireless_enabled {
                        Some(wifi.path@)
                    } else {
                        None
                    },
                    None => None,
                },
                None => None,
            },
    {
        if !open || !self.available {
            return None;
        }
        match &self.snapshot {
            Some(snapshot) => match &snapshot.wifi {
                Some(wifi) => if snapshot.wireless_enabled {
                    Some(wifi.path.as_str())
                } else {
                    None
                },
                None => None,
            },
            None => None,
        }
    }

    /// Whether the module shows anything, in the bar or in a popup.
    pub open spec fn pops_up(self) -> bool {
        self.available && self.snapshot is Some
    }

    pub fn has_popup(&self) -> (r: bool)
        ensures
            r == self.pops_up(),
    {
        self.available && self.snapshot.is_some()
    }

    /// What the bar cell draws; nothing where the service is not there.
    pub fn cell(&self) -> (r: Option<BarKey>)
        ensures
            r is Some <==> self.pops_up(),
            r matches Some(key) ==> key@ == key_of(self.snapshot->0),
    {
        match &self.snapshot {
            Some(snapshot) => if self.available {
                Some(snapshot.bar_key())
            } else {
                None
            },
            None => None,
        }
    }
}

/// A line of the popup: what it is, and its value.
#[derive(Debug, Clone)]
pub struct Detail {
    pub label: &'static str,
    pub text: String,
}

pub open spec fn detail_view(d: Detail) -> (Seq<char>, Seq<char>) {
    (d.label@, d.text@)
}

pub open spec fn detail_views(s: Seq<Detail>) -> Seq<(Seq<char>, Seq<char>)> {
    s.map_values(|d: Detail| detail_view(d))
}

/// Strength, frequency and, where it is known, rate of a wifi link.
pub open spec fn signal_text(strength: u8, ghz: Seq<char>, bitrate: Option<u32>) -> Seq<char> {
    decimal(strength as nat) + "% · "@ + ghz + " GHz"@ + match bitrate {
        Some(bitrate) => " · "@ + decimal((bitrate / 1000) as nat) + " Mb/s"@,
        None => Seq::empty(),
    }
}

pub open spec fn link_text(speed: u32, carrier: Option<bool>) -> Seq<char> {
    decimal(speed as nat) + " Mb/s"@ + if carrier == Some(false) {
        " · no carrier"@
    } else {
        ""@
    }
}

pub open spec fn traffic_text(rates: Option<(String, String)>) -> Seq<char> {
    match rates {
        Some((rx, tx)) => ICON_DOWN@ + " "@ + rx@ + "   "@ + ICON_UP@ + " "@ + tx@,
        None => "sampling…"@,
    }
}

/// A line that is there only under a condition.
pub open spec fn line_if(shown: bool, label: Seq<char>, text: Seq<char>) -> Seq<
    (Seq<char>, Seq<char>),
> {
    if shown {
        seq![(label, text)]
    } else {
        Seq::empty()
    }
}

pub open spec fn ids(actives: Seq<Active>) -> Seq<Seq<char>> {
    actives.map_values(|a: Active| a.id@)
}

/// The lines on the primary connection. `ghz` is its access point's frequency,
/// as printed.
pub open spec fn primary_lines(
    active: Active,
    secondary: Seq<Active>,
    rates: Option<(String, String)>,
    ghz: Seq<char>,
) -> Seq<(Seq<char>, Seq<char>)> {
    line_if(active.device.iface@.len() > 0, "interface"@, active.device.iface@) + line_if(
        active.ip4.addresses@.len() > 0,
        "ipv4"@,
        joined(texts(active.ip4.addresses@), ", "@),
    ) + (match active.ip4.gateway {
        Some(gateway) => seq![("gateway"@, gateway@)],
        None => Seq::empty(),
    }) + line_if(
        active.ip4.dns@.len() > 0,
        "dns"@,
        joined(texts(active.ip4.dns@), ", "@),
    ) + (match active.ap {
        Some(ap) => seq![("signal"@, signal_text(ap.strength, ghz, active.bitrate))],
        None => Seq::empty(),
    }) + (match active.speed {
        Some(speed) => line_if(speed > 0, "link"@, link_text(speed, active.carrier)),
        None => Seq::empty(),
    }) + seq![("traffic"@, traffic_text(rates))] + line_if(
        secondary.len() > 0,
        "also up"@,
        joined(ids(secondary), ", "@),
    )
}

/// Every line above the lists.
pub open spec fn detail_lines(
    s: Snapshot,
    rates: Option<(String, String)>,
    ghz: Seq<char>,
) -> Seq<(Seq<char>, Seq<char>)> {
    seq![("state"@, state_text(s.state, s.connectivity))] + match s.primary {
        Some(active) => primary_lines(active, s.secondary@, rates, ghz),
        None => Seq::empty(),
    }
}

fn signal_line(strength: u8, ghz: &str, bitrate: Option<u32>) -> (r: String)
    ensures
        r@ == signal_text(strength, ghz@, bitrate),
{
    let strength = unsigned(strength as u64);
    let link = concat4(strength.as_str(), "% · ", ghz, " GHz");
    match bitrate {
        Some(bitrate) => {
            let rate = unsigned((bitrate / 1000) as u64);
            let more = concat3(" · ", rate.as_str(), " Mb/s");
            concat(link.as_str(), more.as_str())
        },
        None => {
            assert(link@ + Seq::<char>::empty() =~= link@);
            link
        },
    }
}

fn link_line(speed: u32, carrier: Option<bool>) -> (r: String)
    ensures
        r@ == link_text(speed, carrier),
{
    let speed = unsigned(speed as u64);
    let suffix: &str = match carrier {
        Some(false) => " · no carrier",
        _ => "",
    };
    concat3(speed.as_str(), " Mb/s", suffix)
}

fn traffic_line(rates: &Option<(String, String)>) -> (r: String)
    ensures
        r@ == traffic_text(*rates),
{
    match rates {
        Some((rx, tx)) => {
            let down = concat4(ICON_DOWN, " ", rx.as_str(), "   ");
            concat4(down.as_str(), ICON_UP, " ", tx.as_str())
        },
        None => "sampling…".to_owned(),
    }
}

fn id_list(actives: &Vec<Active>) -> (r: Vec<String>)
    ensures
        texts(r@) == ids(actives@),
{
    let mut out: Vec<String> = Vec::new();
    let mut i: usize = 0;
    while i < actives.len()
        invariant
            i <= actives@.len(),
            out@.len() == i,
            forall|j: int| 0 <= j < i ==> (#[trigger] out@[j])@ == actives@[j].id@,
        decreases actives@.len() - i,
    {
        out.push(actives[i].id.as_str().to_owned());
        i += 1;
    }
    assert(texts(out@) =~= ids(actives@));
    out
}

fn push_line(out: &mut Vec<Detail>, label: &'static str, text: String)
    ensures
        detail_views(final(out)@) == detail_views(old(out)@) + seq![(label@, text@)],
{
    let ghost had = out@;
    out.push(Detail { label, text });
    assert(detail_views(out@) =~= detail_views(had) + seq![(label@, text@)]);
}

fn push_line_if(out: &mut Vec<Detail>, shown: bool, label: &'static str, text: String)
    ensures
        detail_views(final(out)@) == detail_views(old(out)@) + line_if(shown, label@, text@),
{
    if shown {
        push_line(out, label, text);
    } else {
        assert(detail_views(out@) + Seq::empty() =~= detail_views(out@));
    }
}

fn primary_details(
    active: &Active,
    secondary: &Vec<Active>,
    rates: &Option<(String, String)>,
    ghz: &str,
) -> (r: Vec<Detail>)
    ensures
        detail_views(r@) == primary_lines(*active, secondary@, *rates, ghz@),
{
    let mut out: Vec<Detail> = Vec::new();
    let iface = &active.device.iface;
    push_line_if(&mut out, !iface.as_str().is_empty(), "interface", iface.as_str().to_owned());
    assert(detail_views(out@) =~= line_if(iface@.len() > 0, "interface"@, iface@));
    let addresses = &active.ip4.addresses;
    push_line_if(&mut out, addresses.len() > 0, "ipv4", join(addresses, ", "));
    let (shown, gateway): (bool, String) = match &active.ip4.gateway {
        Some(gateway) => (true, gateway.as_str().to_owned()),
        None => (false, String::new()),
    };
    push_line_if(&mut out, shown, "gateway", gateway);
    let dns = &active.ip4.dns;
    push_line_if(&mut out, dns.len() > 0, "dns", join(dns, ", "));
    let (shown, signal): (bool, String) = match &active.ap {
        Some(ap) => (true, signal_line(ap.strength, ghz, active.bitrate)),
        None => (false, String::new()),
    };
    push_line_if(&mut out, shown, "signal", signal);
    let (shown, link): (bool, String) = match active.speed {
        Some(speed) => (speed > 0, link_line(speed, active.carrier)),
        None => (false, String::new()),
    };
    push_line_if(&mut out, shown, "link", link);
    push_line(&mut out, "traffic", traffic_line(rates));
    let ids = id_list(secondary);
    push_line_if(&mut out, secondary.len() > 0, "also up", join(&ids, ", "));
    out
}

impl Snapshot {
    /// Every line above the popup's lists. `ghz` is the frequency of the
    /// primary connection's access point, as printed.
    pub fn details(&self, rates: &Option<(String, String)>, ghz: &str) -> (r: Vec<Detail>)
        ensures
            detail_views(r@) == detail_lines(*self, *rates, ghz@),
    {
        let mut out: Vec<Detail> = Vec::new();
        push_line(&mut out, "state", state_name(self.state, self.connectivity));
        let ghost first = out@;
        assert(detail_views(first) =~= seq![("state"@, state_text(self.state, self.connectivity))]);
        match &self.primary {
            Some(active) => {
                let mut rest = primary_details(active, &self.secondary, rates, ghz);
                let ghost lines = rest@;
                out.append(&mut rest);
                assert(detail_views(out@) =~= detail_views(first) + detail_views(lines));
            },
            None => {
                assert(detail_views(first) + Seq::empty() =~= detail_views(first));
            },
        }
        out
    }
}

/// What the button of a row does.
#[derive(Debug, Clone)]
pub enum Press {
    /// Nothing: its call is in flight.
    Wait,
    Down { active: String },
    Up { profile: String },
    /// Nothing: this is the network in use.
    Active,
    Join { profile: String, device: String, specific: String },
    /// Open the network program.
    Nmtui,
}

pub enum PressView {
    Wait,
    Down { active: Seq<char> },
    Up { profile: Seq<char> },
    Active,
    Join { profile: Seq<char>, device: Seq<char>, specific: Seq<char> },
    Nmtui,
}

impl View for Press {
    type V = PressView;

    open spec fn view(&self) -> PressView {
        match *self {
            Press::Wait => PressView::Wait,
            Press::Down { active } => PressView::Down { active: active@ },
            Press::Up { profile } => PressView::Up { profile: profile@ },
            Press::Active => PressView::Active,
            Press::Join { profile, device, specific } => PressView::Join {
                profile: profile@,
                device: device@,
                specific: specific@,
            },
            Press::Nmtui => PressView::Nmtui,
        }
    }
}

/// A row of one of the popup's lists.
#[derive(Debug, Clone)]
pub struct Row {
    pub name: String,
    pub note: String,
    pub lit: bool,
    pub press: Press,
}

pub struct RowView {
    pub name: Seq<char>,
    pub note: Seq<char>,
    pub lit: bool,
    pub press: PressView,
}

impl View for Row {
    type V = RowView;

    open spec fn view(&self) -> RowView {
        RowView { name: self.name@, note: self.note@, lit: self.lit, press: self.press@ }
    }
}

pub open spec fn row_views(rows: Seq<Row>) -> Seq<RowView> {
    rows.map_values(|row: Row| row@)
}

/// A saved profile's row.
pub open spec fn saved_row(busy: Option<Seq<char>>, p: Profile) -> RowView {
    RowView {
        name: elided(p.id@, SSID_LIMIT as nat),
        note: kind_text(p.kind@),
        lit: p.active is Some,
        press: match p.active {
            Some(active) => if busy == Some(active@) {
                PressView::Wait
            } else {
                PressView::Down { active: active@ }
            },
            None => if busy == Some(p.path@) {
                PressView::Wait
            } else {
                PressView::Up { profile: p.path@ }
            },
        },
    }
}

/// The profiles that are listed: all but the loopback device's.
pub open spec fn listed_profiles(profiles: Seq<Profile>) -> Seq<Profile> {
    profiles.filter(|p: Profile| p.kind@ != "loopback"@)
}

pub open spec fn security_text(security: Seq<char>) -> Seq<char> {
    if security == "open"@ {
        security
    } else {
        ICON_LOCK@ + " "@ + security
    }
}

/// A nearby access point's row.
pub open spec fn nearby_row(busy: Option<Seq<char>>, wifi: Device, ap: Ap) -> RowView {
    RowView {
        name: wifi_symbol(ap.strength) + " "@ + elided(ap.ssid@, SSID_LIMIT as nat),
        note: decimal(ap.strength as nat) + "% · "@ + band_text(ap.frequency) + " · "@
            + security_text(ap.security@),
        lit: ap.active,
        press: if ap.active {
            PressView::Active
        } else {
            match ap.profile {
                Some(profile) => if busy == Some(profile@) {
                    PressView::Wait
                } else {
                    PressView::Join { profile: profile@, device: wifi.path@, specific: ap.path@ }
                },
                None => PressView::Nmtui,
            }
        },
    }
}

/// How many rows a list of `total` cut off at `limit` hides.
pub open spec fn hidden(total: nat, limit: usize) -> nat {
    if total > limit {
        (total - limit) as nat
    } else {
        0
    }
}

pub open spec fn first_of<A>(s: Seq<A>, limit: usize) -> Seq<A> {
    if s.len() > limit {
        s.take(limit as int)
    } else {
        s
    }
}

impl State {
    fn is_busy(&self, key: &str) -> (r: bool)
        ensures
            r == (opt_text(self.busy) == Some(key@)),
    {
        match &self.busy {
            Some(busy) => same(busy.as_str(), key),
            None => false,
        }
    }

    fn saved(&self, p: &Profile) -> (r: Row)
        ensures
            r@ == saved_row(opt_text(self.busy), *p),
    {
        let press = match &p.active {
            Some(active) => if self.is_busy(active.as_str()) {
                Press::Wait
            } else {
                Press::Down { active: active.as_str().to_owned() }
            },
            None => if self.is_busy(p.path.as_str()) {
                Press::Wait
            } else {
                Press::Up { profile: p.path.as_str().to_owned() }
            },
        };
        Row {
            name: elide(p.id.as_str(), SSID_LIMIT),
            note: kind_name(p.kind.as_str()).to_owned(),
            lit: p.active.is_some(),
            press,
        }
    }

    fn nearby(&self, wifi: &Device, ap: &Ap) -> (r: Row)
        ensures
            r@ == nearby_row(opt_text(self.busy), *wifi, *ap),
    {
        let security: String = if same(ap.security, "open") {
            ap.security.to_owned()
        } else {
            concat3(ICON_LOCK, " ", ap.security)
        };
        let press = if ap.active {
            Press::Active
        } else {
            match &ap.profile {
                Some(profile) => if self.is_busy(profile.as_str()) {
                    Press::Wait
                } else {
                    Press::Join {
                        profile: profile.as_str().to_owned(),
                        device: wifi.path.as_str().to_owned(),
                        specific: ap.path.as_str().to_owned(),
                    }
                },
                None => Press::Nmtui,
            }
        };
        let ssid = elide(ap.ssid.as_str(), SSID_LIMIT);
        let strength = unsigned(ap.strength as u64);
        let link = concat4(strength.as_str(), "% · ", band(ap.frequency), " · ");
        Row {
            name: concat3(wifi_icon(ap.strength), " ", ssid.as_str()),
            note: concat(link.as_str(), security.as_str()),
            lit: ap.active,
            press,
        }
    }

    /// The rows of the saved profiles, and how many more there are.
    pub fn saved_rows(&self, profiles: &Vec<Profile>) -> (r: (Vec<Row>, usize))
        ensures
            row_views(r.0@) == first_of(listed_profiles(profiles@), PROFILE_LIMIT).map_values(
                |p: Profile| saved_row(opt_text(self.busy), p),
            ),
            r.1 == hidden(listed_profiles(profiles@).len(), PROFILE_LIMIT),
    {
        let ghost listed = |p: Profile| p.kind@ != "loopback"@;
        let ghost row = |p: Profile| saved_row(opt_text(self.busy), p);
        let mut out: Vec<Row> = Vec::new();
        let mut more: usize = 0;
        let mut i: usize = 0;
        assert(profiles@.take(0) =~= Seq::empty());
        proof {
            reveal(Seq::filter);
        }
        assert(row_views(out@) =~= first_of(
            profiles@.take(0).filter(listed),
            PROFILE_LIMIT,
        ).map_values(row));
        while i < profiles.len()
            invariant
                i <= profiles@.len(),
                listed == |p: Profile| p.kind@ != "loopback"@,
                row == |p: Profile| saved_row(opt_text(self.busy), p),
                more <= i,
                row_views(out@) == first_of(
                    profiles@.take(i as int).filter(listed),
                    PROFILE_LIMIT,
                ).map_values(row),
                more == hidden(profiles@.take(i as int).filter(listed).len(), PROFILE_LIMIT),
            decreases profiles@.len() - i,
        {
            let ghost had = out@;
            let ghost before = profiles@.take(i as int).filter(listed);
            let ghost after = profiles@.take(i + 1).filter(listed);
            let p = &profiles[i];
            proof {
                reveal(Seq::filter);
                assert(profiles@.take(i + 1).drop_last() =~= profiles@.take(i as int));
                assert(profiles@.take(i + 1).last() == *p);
                assert(row_views(had).len() == had.len());
            }
            if !same(p.kind.as_str(), "loopback") {
                assert(after =~= before.push(*p));
                if out.len() < PROFILE_LIMIT {
                    let shown = self.saved(p);
                    out.push(shown);
                    assert(row_views(out@) =~= row_views(had).push(shown@));
                    assert(first_of(after, PROFILE_LIMIT) =~= first_of(
                        before,
                        PROFILE_LIMIT,
                    ).push(*p));
                    assert(row_views(out@) =~= first_of(after, PROFILE_LIMIT).map_values(row));
                } else {
                    more += 1;
                    assert(first_of(after, PROFILE_LIMIT) =~= first_of(before, PROFILE_LIMIT));
                }
            } else {
                assert(after =~= before);
            }
            i += 1;
        }
        assert(profiles@.take(i as int) =~= profiles@);
        (out, more)
    }

    /// The rows of the nearby access points, and how many more there are.
    pub fn nearby_rows(&self, wifi: &Device, aps: &Vec<Ap>) -> (r: (Vec<Row>, usize))
        ensures
            row_views(r.0@) == first_of(aps@, AP_LIMIT).map_values(
                |ap: Ap| nearby_row(opt_text(self.busy), *wifi, ap),
            ),
            r.1 == hidden(aps@.len(), AP_LIMIT),
    {
        let n: usize = if aps.len() > AP_LIMIT {
            AP_LIMIT
        } else {
            aps.len()
        };
        let mut out: Vec<Row> = Vec::new();
        let mut i: usize = 0;
        while i < n
            invariant
                i <= n <= aps@.len(),
                out@.len() == i,
                forall|j: int|
                    0 <= j < i ==> (#[trigger] out@[j])@ == nearby_row(
                        opt_text(self.busy),
                        *wifi,
                        aps@[j],
                    ),
            decreases n - i,
        {
            out.push(self.nearby(wifi, &aps[i]));
            i += 1;
        }
        assert(row_views(out@) =~= first_of(aps@, AP_LIMIT).map_values(
            |ap: Ap| nearby_row(opt_text(self.busy), *wifi, ap),
        ));
        (out, aps.len() - n)
    }
}

/// What stands in place of the nearby access points, if anything.
pub open spec fn nearby_note(s: Snapshot) -> Option<Seq<char>> {
    if !s.wireless_enabled {
        Some("radio off"@)
    } else if s.aps@.len() == 0 {
        Some("scanning…"@)
    } else {
        None
    }
}

/// The nearby access points: a note above them, their rows, and how many more
/// there are.
#[derive(Debug, Clone)]
pub struct Nearby {
    pub note: Option<&'static str>,
    pub rows: Vec<Row>,
    pub more: usize,
}

/// What the popup shows.
#[derive(Debug, Clone)]
pub struct Popup {
    pub glyph: &'static str,
    pub name: String,
    pub tier: Tier,
    /// Whether there is a button to scan.
    pub scan: bool,
    /// What the radio's switch sets it to, where there is a radio.
    pub radio: Option<bool>,
    pub details: Vec<Detail>,
    pub saved: Vec<Row>,
    pub saved_more: usize,
    pub nearby: Option<Nearby>,
    pub error: Option<String>,
}

pub open spec fn shows_popup(s: State, snapshot: Snapshot, ghz: Seq<char>, p: Popup) -> bool {
    let busy = opt_text(s.busy);
    &&& p.glyph@ == key_of(snapshot).glyph
    &&& p.tier == key_of(snapshot).tier
    &&& p.name@ == name_of(snapshot)
    &&& p.scan == (snapshot.wifi is Some && snapshot.wireless_enabled)
    &&& p.radio == if snapshot.wifi is Some {
        Some(!snapshot.wireless_enabled)
    } else {
        None
    }
    &&& detail_views(p.details@) == detail_lines(snapshot, s.rates, ghz)
    &&& row_views(p.saved@) == first_of(
        listed_profiles(snapshot.profiles@),
        PROFILE_LIMIT,
    ).map_values(|x: Profile| saved_row(busy, x))
    &&& p.saved_more == hidden(listed_profiles(snapshot.profiles@).len(), PROFILE_LIMIT)
    &&& match snapshot.wifi {
        Some(wifi) => match p.nearby {
            Some(nearby) => {
                &&& opt_str(nearby.note) == nearby_note(snapshot)
                &&& row_views(nearby.rows@) == first_of(snapshot.aps@, AP_LIMIT).map_values(
                    |ap: Ap| nearby_row(busy, wifi, ap),
                )
                &&& nearby.more == hidden(snapshot.aps@.len(), AP_LIMIT)
            },
            None => false,
        },
        None => p.nearby is None,
    }
    &&& opt_text(p.error) == opt_text(s.error)
}

impl State {
    /// The popup, where there is one. `ghz` is the frequency of the primary
    /// connection's access point, as printed.
    pub fn popup(&self, ghz: &str) -> (r: Option<Popup>)
        ensures
            r is Some <==> self.pops_up(),
            r matches Some(p) ==> shows_popup(*self, self.snapshot->0, ghz@, p),
    {
        if !self.available {
            return None;
        }
        match &self.snapshot {
            Some(snapshot) => {
                let key = snapshot.bar_key();
                let (saved, saved_more) = self.saved_rows(&snapshot.profiles);
                let nearby = match &snapshot.wifi {
                    Some(wifi) => {
                        let (rows, more) = self.nearby_rows(wifi, &snapshot.aps);
                        let note = if !snapshot.wireless_enabled {
                            Some("radio off")
                        } else if snapshot.aps.len() == 0 {
                            Some("scanning…")
                        } else {
                            None
                        };
                        Some(Nearby { note, rows, more })
                    },
                    None => None,
                };
                Some(
                    Popup {
                        glyph: key.glyph,
                        name: snapshot.name(),
                        tier: key.tier,
                        scan: snapshot.wifi.is_some() && snapshot.wireless_enabled,
                        radio: if snapshot.wifi.is_some() {
                            Some(!snapshot.wireless_enabled)
                        } else {
                            None
                        },
                        details: snapshot.details(&self.rates, ghz),
                        saved,
                        saved_more,
                        nearby,
                        error: match &self.error {
                            Some(error) => Some(error.as_str().to_owned()),
                            None => None,
                        },
                    },
                )
            },
            None => None,
        }
    }
}

} // verus!
