//! What the bluetooth module shows and what its buttons ask for.
use crate::modules::bluetooth::tree::{
    battery_tier, device_views, key_of, tier, Adapter, BarKey, Device, DeviceView, Snapshot,
};
use crate::number::{decimal, signed, signed_decimal, unsigned};
use crate::text::{concat, concat3, elide, elided, opt_text, same};
use vstd::prelude::*;
use vstd::string::*;

verus! {

pub const ICON_BLUETOOTH: &'static str = "\u{f00af}";

pub const ICON_ON: &'static str = "\u{f00b0}";

pub const ICON_CONNECTED: &'static str = "\u{f00b1}";

pub const ICON_OFF: &'static str = "\u{f00b2}";

pub const ICON_HEADSET: &'static str = "\u{f02cb}";

pub const ICON_SPEAKER: &'static str = "\u{f04c3}";

pub const ICON_KEYBOARD: &'static str = "\u{f030c}";

pub const ICON_MOUSE: &'static str = "\u{f037d}";

pub const ICON_GAMEPAD: &'static str = "\u{f0296}";

pub const ICON_PHONE: &'static str = "\u{f011c}";

pub const ICON_COMPUTER: &'static str = "\u{f0322}";

pub const ICON_DISPLAY: &'static str = "\u{f0379}";

pub const ICON_PRINTER: &'static str = "\u{f042a}";

pub const ICON_WATCH: &'static str = "\u{f0589}";

/// Longest device name rendered in a popup row.
pub const ROW_LIMIT: usize = 18;

/// Unpaired devices listed while scanning.
pub const NEARBY_LIMIT: usize = 6;

/// Delays before connecting again, in seconds.
pub const RECONNECT_BACKOFF: [u64; 5] = [1, 2, 5, 10, 30];

/// A session that lasted this long, in seconds, was healthy.
pub const STABLE_SESSION: u64 = 60;

#[derive(Debug)]
pub enum Event {
    Snapshot(Snapshot),
    /// BlueZ is gone or unreachable.
    Unavailable,
    SetPowered(bool),
    /// Flip the adapter's power, whichever way it is set right now.
    TogglePowered,
    SetDiscovering(bool),
    Connect(String),
    Disconnect(String),
    Pair(String),
    /// Pairing that needs a PIN prompt, in that terminal.
    Terminal(String),
    Done {
        /// Object path the call was made on, so its row stops being busy.
        subject: Option<String>,
        result: Result<(), String>,
    },
}

/// A call to BlueZ, or the program that talks to it.
#[derive(Debug, Clone)]
pub enum Call {
    SetPowered { adapter: String, powered: bool },
    SetDiscovering { adapter: String, discovering: bool },
    Connect(String),
    Disconnect(String),
    /// Pair, then connect.
    Pair(String),
    /// Open the bluetooth program in that terminal.
    Terminal(String),
}

pub enum CallView {
    SetPowered { adapter: Seq<char>, powered: bool },
    SetDiscovering { adapter: Seq<char>, discovering: bool },
    Connect(Seq<char>),
    Disconnect(Seq<char>),
    Pair(Seq<char>),
    Terminal(Seq<char>),
}

impl View for Call {
    type V = CallView;

    open spec fn view(&self) -> CallView {
        match *self {
            Call::SetPowered { adapter, powered } => CallView::SetPowered {
                adapter: adapter@,
                powered,
            },
            Call::SetDiscovering { adapter, discovering } => CallView::SetDiscovering {
                adapter: adapter@,
                discovering,
            },
            Call::Connect(device) => CallView::Connect(device@),
            Call::Disconnect(device) => CallView::Disconnect(device@),
            Call::Pair(device) => CallView::Pair(device@),
            Call::Terminal(terminal) => CallView::Terminal(terminal@),
        }
    }
}

pub open spec fn call_view(call: Option<Call>) -> Option<CallView> {
    match call {
        Some(call) => Some(call@),
        None => None,
    }
}

/// What a call's reply names as its subject.
pub open spec fn subject_of(call: CallView) -> Seq<char> {
    match call {
        CallView::SetPowered { adapter, .. } => adapter,
        CallView::SetDiscovering { adapter, .. } => adapter,
        CallView::Connect(device) => device,
        CallView::Disconnect(device) => device,
        CallView::Pair(device) => device,
        CallView::Terminal(_) => ""@,
    }
}

impl Call {
    pub fn subject(&self) -> (r: &str)
        ensures
            r@ == subject_of(self@),
    {
        match self {
            Call::SetPowered { adapter, powered } => adapter.as_str(),
            Call::SetDiscovering { adapter, discovering } => adapter.as_str(),
            Call::Connect(device) => device.as_str(),
            Call::Disconnect(device) => device.as_str(),
            Call::Pair(device) => device.as_str(),
            Call::Terminal(terminal) => "",
        }
    }
}

#[derive(Debug, Clone)]
pub struct Effects {
    pub call: Option<Call>,
    pub close_popup: bool,
}

#[derive(Debug, Clone)]
pub struct State {
    pub snapshot: Option<Snapshot>,
    pub available: bool,
    /// Object path with a call in flight.
    pub busy: Option<String>,
    pub error: Option<String>,
}

pub open spec fn adapter_of(s: State) -> Option<Adapter> {
    match s.snapshot {
        Some(snapshot) => snapshot.adapter,
        None => None,
    }
}

/// The call that an event asks for.
pub open spec fn call_for(s: State, event: Event) -> Option<CallView> {
    match event {
        Event::SetPowered(powered) => match adapter_of(s) {
            Some(adapter) => Some(CallView::SetPowered { adapter: adapter.path@, powered }),
            None => None,
        },
        Event::TogglePowered => match adapter_of(s) {
            Some(adapter) => Some(
                CallView::SetPowered { adapter: adapter.path@, powered: !adapter.powered },
            ),
            None => None,
        },
        Event::SetDiscovering(discovering) => match adapter_of(s) {
            Some(adapter) => Some(CallView::SetDiscovering { adapter: adapter.path@, discovering }),
            None => None,
        },
        Event::Connect(device) => Some(CallView::Connect(device@)),
        Event::Disconnect(device) => Some(CallView::Disconnect(device@)),
        Event::Pair(device) => Some(CallView::Pair(device@)),
        Event::Terminal(terminal) => Some(CallView::Terminal(terminal@)),
        _ => None,
    }
}

/// How an event changes the state.
pub open spec fn follows(s: State, event: Event, t: State) -> bool {
    match event {
        Event::Snapshot(snapshot) => t == (State {
            snapshot: Some(snapshot),
            available: true,
            ..s
        }),
        Event::Unavailable => t == (State { available: false, busy: None, ..s }),
        Event::Terminal(_) => t == s,
        Event::Done { subject, result } => {
            &&& t == (State { busy: t.busy, error: t.error, ..s })
            &&& t.busy == if subject is None || opt_text(subject) == opt_text(s.busy) {
                None
            } else {
                s.busy
            }
            &&& t.error == match result {
                Ok(_) => None,
                Err(error) => Some(error),
            }
        },
        _ => match call_for(s, event) {
            Some(call) => t == (State { busy: t.busy, error: None, ..s }) && opt_text(t.busy)
                == Some(subject_of(call)),
            None => t == s,
        },
    }
}

/// A row whose call is in flight is freed by the reply to that call, or by one
/// without a subject, and by no other reply.
pub proof fn law_only_its_own_reply_frees_a_row(
    s: State,
    event: Event,
    t: State,
    subject: Option<String>,
    result: Result<(), String>,
    u: State,
)
    requires
        follows(s, event, t),
        call_for(s, event) is Some,
        !(event is Terminal),
        follows(t, Event::Done { subject, result }, u),
    ensures
        u.busy is None <==> subject is None || opt_text(subject) == Some(
            subject_of(call_for(s, event)->0),
        ),
        u.busy is Some ==> opt_text(u.busy) == Some(subject_of(call_for(s, event)->0)),
{
}

impl State {
    pub fn new() -> (r: State)
        ensures
            r == (State { snapshot: None, available: false, busy: None, error: None }),
    {
        State { snapshot: None, available: false, busy: None, error: None }
    }

    fn adapter_path(&self) -> (r: Option<String>)
        ensures
            opt_text(r) == match adapter_of(*self) {
                Some(adapter) => Some(adapter.path@),
                None => None,
            },
    {
        match &self.snapshot {
            Some(snapshot) => match &snapshot.adapter {
                Some(adapter) => Some(adapter.path.as_str().to_owned()),
                None => None,
            },
            None => None,
        }
    }

    fn set_powered(&mut self, powered: bool) -> (r: Option<Call>)
        ensures
            follows(*old(self), Event::SetPowered(powered), *final(self)),
            call_view(r) == call_for(*old(self), Event::SetPowered(powered)),
    {
        match self.adapter_path() {
            Some(adapter) => {
                self.busy = Some(adapter.as_str().to_owned());
                self.error = None;
                Some(Call::SetPowered { adapter, powered })
            },
            None => None,
        }
    }

    pub fn update(&mut self, event: Event) -> (r: Effects)
        ensures
            follows(*old(self), event, *final(self)),
            call_view(r.call) == call_for(*old(self), event),
            r.close_popup == (event is Terminal),
            event matches Event::Connect(device) ==> (r.call matches Some(Call::Connect(d)) && d@
                == device@),
            event matches Event::Disconnect(device) ==> (r.call matches Some(Call::Disconnect(d))
                && d@ == device@),
            event matches Event::Pair(device) ==> (r.call matches Some(Call::Pair(d)) && d@
                == device@),
    {
        match event {
            Event::Snapshot(snapshot) => {
                self.snapshot = Some(snapshot);
                self.available = true;
                Effects { call: None, close_popup: false }
            },
            Event::Unavailable => {
                self.available = false;
                self.busy = None;
                Effects { call: None, close_popup: false }
            },
            Event::SetPowered(powered) => Effects {
                call: self.set_powered(powered),
                close_popup: false,
            },
            Event::TogglePowered => {
                let powered: Option<bool> = match &self.snapshot {
                    Some(snapshot) => match &snapshot.adapter {
                        Some(adapter) => Some(adapter.powered),
                        None => None,
                    },
                    None => None,
                };
                let call = match powered {
                    Some(powered) => self.set_powered(!powered),
                    None => None,
                };
                Effects { call, close_popup: false }
            },
            Event::SetDiscovering(discovering) => {
                let call = match self.adapter_path() {
                    Some(adapter) => {
                        self.busy = Some(adapter.as_str().to_owned());
                        self.error = None;
                        Some(Call::SetDiscovering { adapter, discovering })
                    },
                    None => None,
                };
                Effects { call, close_popup: false }
            },
            Event::Connect(device) => {
                self.busy = Some(device.as_str().to_owned());
                self.error = None;
                Effects { call: Some(Call::Connect(device)), close_popup: false }
            },
            Event::Disconnect(device) => {
                self.busy = Some(device.as_str().to_owned());
                self.error = None;
                Effects { call: Some(Call::Disconnect(device)), close_popup: false }
            },
            Event::Pair(device) => {
                self.busy = Some(device.as_str().to_owned());
                self.error = None;
                Effects { call: Some(Call::Pair(device)), close_popup: false }
            },
            Event::Terminal(terminal) => Effects {
                call: Some(Call::Terminal(terminal)),
                close_popup: true,
            },
            Event::Done { subject, result } => {
                let own = match &subject {
                    Some(subject) => match &self.busy {
                        Some(busy) => same(subject.as_str(), busy.as_str()),
                        None => false,
                    },
                    None => true,
                };
                if own {
                    self.busy = None;
                }
                self.error = match result {
                    Ok(_) => None,
                    Err(error) => Some(error),
                };
                Effects { call: None, close_popup: false }
            },
        }
    }

    /// Whether the module shows anything, in the bar or in a popup.
    pub open spec fn pops_up(self) -> bool {
        self.available && adapter_of(self) is Some
    }

    pub fn has_popup(&self) -> (r: bool)
        ensures
            r == self.pops_up(),
    {
        match &self.snapshot {
            Some(snapshot) => self.available && snapshot.adapter.is_some(),
            None => false,
        }
    }
}

/// What the bar cell draws.
#[derive(Debug, Clone)]
pub struct Cell {
    pub glyph: &'static str,
    /// How many devices are connected, where the glyph does not say it.
    pub count: String,
    pub lit: bool,
    /// The worst battery, and its tier.
    pub battery: Option<(String, u8)>,
}

pub struct CellView {
    pub glyph: Seq<char>,
    pub count: Seq<char>,
    pub lit: bool,
    pub battery: Option<(Seq<char>, u8)>,
}

impl View for Cell {
    type V = CellView;

    open spec fn view(&self) -> CellView {
        CellView {
            glyph: self.glyph@,
            count: self.count@,
            lit: self.lit,
            battery: match self.battery {
                Some((text, tier)) => Some((text@, tier)),
                None => None,
            },
        }
    }
}

/// The cell that a key stands for: a count only past the first device.
pub open spec fn drawn(key: BarKey) -> Option<CellView> {
    match key {
        BarKey::Hidden => None,
        BarKey::Off => Some(
            CellView { glyph: ICON_OFF@, count: Seq::empty(), lit: false, battery: None },
        ),
        BarKey::On { connected, battery } => Some(
            CellView {
                glyph: if connected == 0 {
                    ICON_ON@
                } else {
                    ICON_CONNECTED@
                },
                count: if connected <= 1 {
                    Seq::empty()
                } else {
                    decimal(connected as nat)
                },
                lit: connected != 0,
                battery: match battery {
                    Some((battery, tier)) => Some((decimal(battery as nat) + "%"@, tier)),
                    None => None,
                },
            },
        ),
    }
}

impl State {
    /// The bar cell, where there is one.
    pub fn cell(&self) -> (r: Option<Cell>)
        ensures
            match r {
                Some(cell) => Some(cell@),
                None => None,
            } == match self.snapshot {
                Some(snapshot) => if self.available {
                    drawn(key_of(snapshot@))
                } else {
                    None
                },
                None => None,
            },
    {
        if !self.available {
            return None;
        }
        let key = match &self.snapshot {
            Some(snapshot) => snapshot.bar_key(),
            None => {
                return None;
            },
        };
        match key {
            BarKey::Hidden => None,
            BarKey::Off => Some(
                Cell { glyph: ICON_OFF, count: String::new(), lit: false, battery: None },
            ),
            BarKey::On { connected, battery } => {
                let battery = match battery {
                    Some((battery, tier)) => {
                        let text = unsigned(battery as u64);
                        Some((concat(text.as_str(), "%"), tier))
                    },
                    None => None,
                };
                Some(
                    Cell {
                        glyph: if connected == 0 {
                            ICON_ON
                        } else {
                            ICON_CONNECTED
                        },
                        count: if connected <= 1 {
                            String::new()
                        } else {
                            unsigned(connected as u64)
                        },
                        lit: connected != 0,
                        battery,
                    },
                )
            },
        }
    }
}

/// The glyph for the kind of device that an icon's name tells.
pub open spec fn icon_for(icon: Seq<char>) -> Seq<char> {
    if icon == "audio-headset"@ || icon == "audio-headphones"@ {
        ICON_HEADSET@
    } else if icon == "audio-card"@ || icon == "audio-speakers"@ {
        ICON_SPEAKER@
    } else if icon == "input-keyboard"@ {
        ICON_KEYBOARD@
    } else if icon == "input-mouse"@ || icon == "input-tablet"@ {
        ICON_MOUSE@
    } else if icon == "input-gaming"@ {
        ICON_GAMEPAD@
    } else if icon == "phone"@ {
        ICON_PHONE@
    } else if icon == "computer"@ {
        ICON_COMPUTER@
    } else if icon == "video-display"@ || icon == "camera-video"@ {
        ICON_DISPLAY@
    } else if icon == "printer"@ {
        ICON_PRINTER@
    } else if icon == "watch"@ || icon == "wearable"@ {
        ICON_WATCH@
    } else {
        ICON_BLUETOOTH@
    }
}

pub fn device_icon(icon: &str) -> (r: &'static str)
    ensures
        r@ == icon_for(icon@),
{
    if same(icon, "audio-headset") || same(icon, "audio-headphones") {
        ICON_HEADSET
    } else if same(icon, "audio-card") || same(icon, "audio-speakers") {
        ICON_SPEAKER
    } else if same(icon, "input-keyboard") {
        ICON_KEYBOARD
    } else if same(icon, "input-mouse") || same(icon, "input-tablet") {
        ICON_MOUSE
    } else if same(icon, "input-gaming") {
        ICON_GAMEPAD
    } else if same(icon, "phone") {
        ICON_PHONE
    } else if same(icon, "computer") {
        ICON_COMPUTER
    } else if same(icon, "video-display") || same(icon, "camera-video") {
        ICON_DISPLAY
    } else if same(icon, "printer") {
        ICON_PRINTER
    } else if same(icon, "watch") || same(icon, "wearable") {
        ICON_WATCH
    } else {
        ICON_BLUETOOTH
    }
}

/// A device's row in the popup.
#[derive(Debug, Clone)]
pub struct Row {
    pub path: String,
    pub glyph: &'static str,
    pub name: String,
    /// Battery and signal strength, as far as they are known.
    pub readings: String,
    /// The tier of a battery that is low enough to matter.
    pub low: Option<u8>,
    /// Whether its button can be pressed.
    pub idle: bool,
}

pub struct RowView {
    pub path: Seq<char>,
    pub glyph: Seq<char>,
    pub name: Seq<char>,
    pub readings: Seq<char>,
    pub low: Option<u8>,
    pub idle: bool,
}

impl View for Row {
    type V = RowView;

    open spec fn view(&self) -> RowView {
        RowView {
            path: self.path@,
            glyph: self.glyph@,
            name: self.name@,
            readings: self.readings@,
            low: self.low,
            idle: self.idle,
        }
    }
}

pub open spec fn readings_text(battery: Option<u8>, rssi: Option<i16>) -> Seq<char> {
    match (battery, rssi) {
        (Some(b), Some(r)) => decimal(b as nat) + "%"@ + " · "@ + (signed_decimal(r as int)
            + "dBm"@),
        (Some(b), None) => decimal(b as nat) + "%"@,
        (None, Some(r)) => signed_decimal(r as int) + "dBm"@,
        (None, None) => Seq::empty(),
    }
}

fn readings(battery: Option<u8>, rssi: Option<i16>) -> (r: String)
    ensures
        r@ == readings_text(battery, rssi),
{
    let strength: Option<String> = match rssi {
        Some(rssi) => {
            let text = signed(rssi as i64);
            Some(concat(text.as_str(), "dBm"))
        },
        None => None,
    };
    match battery {
        Some(battery) => {
            let text = unsigned(battery as u64);
            let level = concat(text.as_str(), "%");
            match strength {
                Some(strength) => concat3(level.as_str(), " · ", strength.as_str()),
                None => level,
            }
        },
        None => match strength {
            Some(strength) => strength,
            None => String::new(),
        },
    }
}

pub open spec fn row_of(busy: Option<Seq<char>>, d: DeviceView) -> RowView {
    RowView {
        path: d.path,
        glyph: icon_for(
            match d.icon {
                Some(icon) => icon,
                None => ""@,
            },
        ),
        name: elided(
            if d.name.len() == 0 {
                d.address
            } else {
                d.name
            },
            ROW_LIMIT as nat,
        ),
        readings: readings_text(d.battery, d.rssi),
        low: match d.battery {
            Some(b) => if tier(b) > 0 {
                Some(tier(b))
            } else {
                None
            },
            None => None,
        },
        idle: busy != Some(d.path),
    }
}

/// Which list of the popup a device stands in.
#[derive(Debug, Clone, Copy, PartialEq, Eq, Structural)]
pub enum Section {
    Connected,
    Paired,
    Nearby,
}

pub open spec fn section_of(d: DeviceView) -> Section {
    if d.connected {
        Section::Connected
    } else if d.paired {
        Section::Paired
    } else {
        Section::Nearby
    }
}

/// The rows of one of the popup's lists.
pub open spec fn rows_of(devices: Seq<DeviceView>, busy: Option<Seq<char>>, section: Section) -> Seq<
    RowView,
>
    decreases devices.len(),
{
    if devices.len() == 0 {
        Seq::empty()
    } else {
        let before = rows_of(devices.drop_last(), busy, section);
        if section_of(devices.last()) == section {
            before.push(row_of(busy, devices.last()))
        } else {
            before
        }
    }
}

pub open spec fn row_views(rows: Seq<Row>) -> Seq<RowView> {
    rows.map_values(|row: Row| row@)
}

/// The nearby devices that are listed.
pub open spec fn first_rows(rows: Seq<RowView>) -> Seq<RowView> {
    if rows.len() > NEARBY_LIMIT {
        rows.take(NEARBY_LIMIT as int)
    } else {
        rows
    }
}

/// What the popup shows.
#[derive(Debug, Clone)]
pub struct Popup {
    pub title: String,
    pub address: Option<String>,
    pub powered: bool,
    pub discovering: bool,
    /// Whether the adapter's buttons can be pressed.
    pub idle: bool,
    pub connected: Vec<Row>,
    pub paired: Vec<Row>,
    pub nearby: Vec<Row>,
    pub more: usize,
    /// Whether to say that a scan has found nothing yet.
    pub scanning: bool,
    pub error: Option<String>,
}

pub open spec fn shows_popup(s: State, snapshot: Snapshot, adapter: Adapter, p: Popup) -> bool {
    let busy = opt_text(s.busy);
    let devices = snapshot@.devices;
    let nearby = rows_of(devices, busy, Section::Nearby);
    &&& p.title@ == if adapter.alias@.len() == 0 {
        adapter.address@
    } else {
        adapter.alias@
    }
    &&& opt_text(p.address) == if adapter.alias@.len() == 0 {
        None
    } else {
        Some(adapter.address@)
    }
    &&& p.powered == adapter.powered
    &&& p.discovering == adapter.discovering
    &&& p.idle == (busy != Some(adapter.path@))
    &&& opt_text(p.error) == opt_text(s.error)
    &&& if adapter.powered {
        &&& row_views(p.connected@) == rows_of(devices, busy, Section::Connected)
        &&& row_views(p.paired@) == rows_of(devices, busy, Section::Paired)
        &&& row_views(p.nearby@) == first_rows(nearby)
        &&& p.more == nearby.len() - first_rows(nearby).len()
        &&& p.scanning == (nearby.len() == 0 && adapter.discovering)
    } else {
        &&& p.connected@.len() == 0
        &&& p.paired@.len() == 0
        &&& p.nearby@.len() == 0
        &&& p.more == 0
        &&& !p.scanning
    }
}

fn is_section(a: Section, b: Section) -> (r: bool)
    ensures
        r == (a == b),
{
    a == b
}

impl State {
    fn is_idle(&self, path: &str) -> (r: bool)
        ensures
            r == (opt_text(self.busy) != Some(path@)),
    {
        match &self.busy {
            Some(busy) => !same(busy.as_str(), path),
            None => true,
        }
    }

    fn row(&self, d: &Device) -> (r: Row)
        ensures
            r@ == row_of(opt_text(self.busy), d@),
    {
        let name: &str = if d.name.as_str().is_empty() {
            d.address.as_str()
        } else {
            d.name.as_str()
        };
        Row {
            path: d.path.as_str().to_owned(),
            glyph: device_icon(
                match &d.icon {
                    Some(icon) => icon.as_str(),
                    None => "",
                },
            ),
            name: elide(name, ROW_LIMIT),
            readings: readings(d.battery, d.rssi),
            low: match d.battery {
                Some(b) => {
                    let tier: u8 = battery_tier(b);
                    if tier > 0 {
                        Some(tier)
                    } else {
                        None
                    }
                },
                None => None,
            },
            idle: self.is_idle(d.path.as_str()),
        }
    }

    /// The rows of one of the popup's lists.
    pub fn rows(&self, devices: &Vec<Device>, section: Section) -> (r: Vec<Row>)
        ensures
            row_views(r@) == rows_of(
                device_views(devices@),
                opt_text(self.busy),
                section,
            ),
    {
        let ghost all = device_views(devices@);
        let ghost busy = opt_text(self.busy);
        let mut out: Vec<Row> = Vec::new();
        let mut i: usize = 0;
        assert(row_views(out@) =~= Seq::empty());
        while i < devices.len()
            invariant
                i <= devices@.len(),
                all == device_views(devices@),
                busy == opt_text(self.busy),
                row_views(out@) == rows_of(all.take(i as int), busy, section),
            decreases devices@.len() - i,
        {
            let d = &devices[i];
            proof {
                assert(all.take(i + 1).drop_last() =~= all.take(i as int));
                assert(all.take(i + 1).last() == d@);
            }
            let own = if d.connected {
                Section::Connected
            } else if d.paired {
                Section::Paired
            } else {
                Section::Nearby
            };
            if is_section(own, section) {
                let ghost had = out@;
                let row = self.row(d);
                out.push(row);
                assert(row_views(out@) =~= row_views(had).push(row@));
            }
            i += 1;
        }
        assert(all.take(i as int) =~= all);
        out
    }

    /// The popup, where there is one.
    pub fn popup(&self) -> (r: Option<Popup>)
        ensures
            r is Some <==> self.pops_up(),
            r matches Some(p) ==> shows_popup(
                *self,
                self.snapshot->0,
                adapter_of(*self)->0,
                p,
            ),
    {
        if !self.available {
            return None;
        }
        let snapshot = match &self.snapshot {
            Some(snapshot) => snapshot,
            None => {
                return None;
            },
        };
        let adapter = match &snapshot.adapter {
            Some(adapter) => adapter,
            None => {
                return None;
            },
        };
        let named = !adapter.alias.as_str().is_empty();
        let title = if named {
            adapter.alias.as_str().to_owned()
        } else {
            adapter.address.as_str().to_owned()
        };
        let address = if named {
            Some(adapter.address.as_str().to_owned())
        } else {
            None
        };
        let error = match &self.error {
            Some(error) => Some(error.as_str().to_owned()),
            None => None,
        };
        let idle = self.is_idle(adapter.path.as_str());
        if !adapter.powered {
            return Some(
                Popup {
                    title,
                    address,
                    powered: false,
                    discovering: adapter.discovering,
                    idle,
                    connected: Vec::new(),
                    paired: Vec::new(),
                    nearby: Vec::new(),
                    more: 0,
                    scanning: false,
                    error,
                },
            );
        }
        let mut nearby = self.rows(&snapshot.devices, Section::Nearby);
        let ghost rows = nearby@;
        let total: usize = nearby.len();
        let more: usize = if total > NEARBY_LIMIT {
            total - NEARBY_LIMIT
        } else {
            0
        };
        if total > NEARBY_LIMIT {
            nearby.truncate(NEARBY_LIMIT);
        }
        assert(row_views(rows).len() == rows.len());
        assert(row_views(nearby@) =~= first_rows(row_views(rows)));
        Some(
            Popup {
                title,
                address,
                powered: true,
                discovering: adapter.discovering,
                idle,
                connected: self.rows(&snapshot.devices, Section::Connected),
                paired: self.rows(&snapshot.devices, Section::Paired),
                nearby,
                more,
                scanning: total == 0 && adapter.discovering,
                error,
            },
        )
    }
}

} // verus!
