//! Battery module: the machine's own battery on the bar, and every device that
//! reports a charge in the popup.
use crate::number::{signed, signed_decimal};
use crate::order::{in_line, sort, Ranked};
use crate::reading::{tens, tens_of, Reading, HUNDRED, TEN, TWENTY};
use crate::text::{concat, concat3, concat4, join, joined, same, starts_with, texts, trim, trimmed};
use vstd::prelude::*;
use vstd::string::*;

verus! {

/// nf-md-flash.
pub const CHARGING_GLYPH: &'static str = "\u{f0241}";

/// nf-md-battery-unknown, for a device whose kind has no glyph of its own.
pub const UNKNOWN_GLYPH: &'static str = "\u{f0091}";

/// Reconnect ladder for a service that is down or restarting, in seconds.
pub const RECONNECT_BACKOFF_SECS: [u64; 5] = [1, 2, 5, 10, 30];

/// A session of so many seconds was healthy.
pub const STABLE_SESSION_SECS: u64 = 60;

/// The kinds of device that are told apart.
pub const KIND_UNKNOWN: u32 = 0;

pub const KIND_LINE_POWER: u32 = 1;

pub const KIND_BATTERY: u32 = 2;

pub const KIND_UPS: u32 = 3;

/// The states of a device.
pub const STATE_CHARGING: u32 = 1;

pub const STATE_DISCHARGING: u32 = 2;

pub const STATE_EMPTY: u32 = 3;

pub const STATE_FULLY_CHARGED: u32 = 4;

pub const STATE_PENDING_CHARGE: u32 = 5;

pub const STATE_PENDING_DISCHARGE: u32 = 6;

/// The coarse levels, as UPower numbers them. Unknown and none both mean that
/// the percentage is to be used; the others, that the device only reports a
/// coarse level. A device that only says that it discharges, 2, has no word.
pub const LEVEL_UNKNOWN: u32 = 0;

pub const LEVEL_NONE: u32 = 1;

pub const LEVEL_LOW: u32 = 3;

pub const LEVEL_CRITICAL: u32 = 4;

pub const LEVEL_ACTION: u32 = 5;

pub const LEVEL_NORMAL: u32 = 6;

pub const LEVEL_HIGH: u32 = 7;

pub const LEVEL_FULL: u32 = 8;

/// Does this device report a usable percentage?
pub fn exact(level: u32) -> (r: bool)
    ensures
        r == is_exact(level),
{
    level == LEVEL_UNKNOWN || level == LEVEL_NONE
}

pub open spec fn is_exact(level: u32) -> bool {
    level == LEVEL_UNKNOWN || level == LEVEL_NONE
}

#[derive(Debug, Clone)]
pub struct Device {
    pub kind: u32,
    pub state: u32,
    pub percentage: Reading,
    pub battery_level: u32,
    /// Seconds, 0 when there is no estimate.
    pub time_to_empty: i64,
    pub time_to_full: i64,
    /// The flow in watts as it is printed, where there is any.
    pub watts: Option<String>,
    /// True for something that powers the machine, false for a peripheral.
    pub power_supply: bool,
    pub present: bool,
    pub vendor: String,
    pub model: String,
    /// Unix seconds of the last refresh of this device.
    pub updated: i64,
}

/// A device that has a charge to report.
pub open spec fn is_charged(d: Device) -> bool {
    d.kind != KIND_LINE_POWER && d.kind != KIND_UNKNOWN && (d.percentage.order > 0 || !is_exact(
        d.battery_level,
    ))
}

/// Powers the machine, as opposed to a peripheral; a UPS counts.
pub open spec fn is_system(d: Device) -> bool {
    d.power_supply && (d.kind == KIND_BATTERY || d.kind == KIND_UPS) && d.present
}

pub open spec fn is_charging(d: Device) -> bool {
    d.state == STATE_CHARGING || d.state == STATE_PENDING_CHARGE
}

pub open spec fn name_of(d: Device) -> Seq<char> {
    let vendor = trimmed(d.vendor@);
    let model = trimmed(d.model@);
    if vendor.len() == 0 && model.len() == 0 {
        kind_text(d.kind)
    } else if vendor.len() == 0 {
        model
    } else if model.len() == 0 {
        vendor
    } else if vendor.is_prefix_of(model) {
        model
    } else {
        vendor + " "@ + model
    }
}

/// `55%`, or the coarse word for a device that only reports a level.
pub open spec fn charge_of(d: Device) -> Seq<char> {
    if is_exact(d.battery_level) {
        d.percentage.shown@ + "%"@
    } else {
        level_text(d.battery_level)
    }
}

/// The charge for threshold decisions; a coarse level maps onto the same
/// thresholds so both kinds of device colour alike.
pub open spec fn severity_of(d: Device) -> i64 {
    if d.battery_level == LEVEL_LOW {
        TWENTY
    } else if d.battery_level == LEVEL_CRITICAL || d.battery_level == LEVEL_ACTION {
        TEN
    } else if !is_exact(d.battery_level) {
        HUNDRED
    } else {
        d.percentage.order
    }
}

/// The colour band: charging first, then the two warning thresholds, then
/// whether the device powers the machine at all.
pub open spec fn tier_of(d: Device) -> u8 {
    if is_charging(d) {
        0
    } else if severity_of(d) <= TEN {
        1
    } else if severity_of(d) <= TWENTY {
        2
    } else if is_system(d) {
        3
    } else {
        4
    }
}

/// Empty through full, by tens of a percent.
pub open spec fn charge_glyph(step: int) -> Seq<char> {
    if step <= 0 {
        "\u{f008e}"@
    } else if step == 1 {
        "\u{f007b}"@
    } else if step == 2 {
        "\u{f007c}"@
    } else if step == 3 {
        "\u{f007d}"@
    } else if step == 4 {
        "\u{f007e}"@
    } else if step == 5 {
        "\u{f007f}"@
    } else if step == 6 {
        "\u{f0080}"@
    } else if step == 7 {
        "\u{f0081}"@
    } else if step == 8 {
        "\u{f0082}"@
    } else {
        "\u{f0079}"@
    }
}

fn glyph_at(step: usize) -> (r: &'static str)
    ensures
        r@ == charge_glyph(step as int),
{
    if step == 0 {
        "\u{f008e}"
    } else if step == 1 {
        "\u{f007b}"
    } else if step == 2 {
        "\u{f007c}"
    } else if step == 3 {
        "\u{f007d}"
    } else if step == 4 {
        "\u{f007e}"
    } else if step == 5 {
        "\u{f007f}"
    } else if step == 6 {
        "\u{f0080}"
    } else if step == 7 {
        "\u{f0081}"
    } else if step == 8 {
        "\u{f0082}"
    } else {
        "\u{f0079}"
    }
}

pub open spec fn glyph_of(d: Device) -> Seq<char> {
    if is_system(d) {
        if is_charging(d) {
            CHARGING_GLYPH@
        } else {
            charge_glyph(tens_of(d.percentage.order))
        }
    } else {
        kind_symbol(d.kind)
    }
}

impl Device {
    pub fn charged(&self) -> (r: bool)
        ensures
            r == is_charged(*self),
    {
        self.kind != KIND_LINE_POWER && self.kind != KIND_UNKNOWN && (self.percentage.order > 0
            || !exact(self.battery_level))
    }

    pub fn system(&self) -> (r: bool)
        ensures
            r == is_system(*self),
    {
        self.power_supply && (self.kind == KIND_BATTERY || self.kind == KIND_UPS) && self.present
    }

    pub fn charging(&self) -> (r: bool)
        ensures
            r == is_charging(*self),
    {
        self.state == STATE_CHARGING || self.state == STATE_PENDING_CHARGE
    }

    pub fn name(&self) -> (r: String)
        ensures
            r@ == name_of(*self),
    {
        let vendor = trim(self.vendor.as_str());
        let model = trim(self.model.as_str());
        if vendor.is_empty() && model.is_empty() {
            kind_name(self.kind).to_owned()
        } else if vendor.is_empty() {
            model.to_owned()
        } else if model.is_empty() {
            vendor.to_owned()
        } else if starts_with(model, vendor) {
            model.to_owned()
        } else {
            concat3(vendor, " ", model)
        }
    }

    pub fn charge(&self) -> (r: String)
        ensures
            r@ == charge_of(*self),
    {
        if exact(self.battery_level) {
            concat(self.percentage.shown.as_str(), "%")
        } else {
            level_name(self.battery_level).to_owned()
        }
    }

    pub fn glyph(&self) -> (r: &'static str)
        ensures
            r@ == glyph_of(*self),
    {
        if self.system() {
            if self.charging() {
                return CHARGING_GLYPH;
            }
            return glyph_at(tens(self.percentage.order));
        }
        kind_glyph(self.kind)
    }

    pub fn severity(&self) -> (r: i64)
        ensures
            r == severity_of(*self),
    {
        let level: u32 = self.battery_level;
        if level == LEVEL_LOW {
            TWENTY
        } else if level == LEVEL_CRITICAL || level == LEVEL_ACTION {
            TEN
        } else if !exact(level) {
            HUNDRED
        } else {
            self.percentage.order
        }
    }

    pub fn tier(&self) -> (r: u8)
        ensures
            r == tier_of(*self),
    {
        if self.charging() {
            return 0;
        }
        let severity: i64 = self.severity();
        if severity <= TEN {
            1
        } else if severity <= TWENTY {
            2
        } else if self.system() {
            3
        } else {
            4
        }
    }
}

/// Worst first: the popup wants the urgent one on top.
impl Ranked for Device {
    open spec fn precedes(&self, other: &Self) -> bool {
        severity_of(*self) < severity_of(*other)
    }

    fn before(&self, other: &Self) -> (r: bool) {
        self.severity() < other.severity()
    }
}

#[derive(Debug, Clone)]
pub struct Snapshot {
    pub on_battery: bool,
    /// The composite device, when there is one.
    pub display: Option<Device>,
    /// Every other battery, worst charge first.
    pub devices: Vec<Device>,
}

/// The devices among `all` that have a charge to report.
pub open spec fn charged_among(all: Seq<Device>) -> Seq<Device>
    decreases all.len(),
{
    if all.len() == 0 {
        Seq::empty()
    } else if is_charged(all.last()) {
        charged_among(all.drop_last()).push(all.last())
    } else {
        charged_among(all.drop_last())
    }
}

/// A snapshot of the devices that were read.
pub fn take_snapshot(on_battery: bool, display: Option<Device>, all: Vec<Device>) -> (r: Snapshot)
    ensures
        r.on_battery == on_battery,
        r.display == display,
        r.devices@ == in_line(charged_among(all@)),
{
    let ghost whole = all@;
    let mut rest = all;
    let mut kept: Vec<Device> = Vec::new();
    let ghost mut n: int = 0;
    assert(whole.skip(0) =~= whole);
    while rest.len() > 0
        invariant
            0 <= n <= whole.len(),
            rest@ == whole.skip(n),
            kept@ == charged_among(whole.take(n)),
        decreases rest@.len(),
    {
        let device = rest.remove(0);
        proof {
            assert(device == whole[n]);
            assert(rest@ =~= whole.skip(n + 1));
            assert(whole.take(n + 1).drop_last() =~= whole.take(n));
            n = n + 1;
        }
        if device.charged() {
            kept.push(device);
        }
    }
    assert(whole.take(n) =~= whole);
    Snapshot { on_battery, display, devices: sort(kept) }
}

/// The first device that powers the machine.
pub open spec fn first_system(devices: Seq<Device>) -> Option<Device>
    decreases devices.len(),
{
    if devices.len() == 0 {
        None
    } else if is_system(devices[0]) {
        Some(devices[0])
    } else {
        first_system(devices.skip(1))
    }
}

/// The device the bar cell speaks for: a battery that powers the machine, never
/// a peripheral.
pub open spec fn headline_of(s: Snapshot) -> Option<Device> {
    if s.display matches Some(device) && is_system(device) {
        s.display
    } else {
        first_system(s.devices@)
    }
}

/// What the bar cell draws: a glyph, the charge as it is printed, and the
/// colour band.
#[derive(Debug, Clone)]
pub struct BarKey {
    pub glyph: &'static str,
    pub charge: String,
    pub tier: u8,
}

pub struct BarKeyView {
    pub glyph: Seq<char>,
    pub charge: Seq<char>,
    pub tier: u8,
}

impl View for BarKey {
    type V = BarKeyView;

    open spec fn view(&self) -> BarKeyView {
        BarKeyView { glyph: self.glyph@, charge: self.charge@, tier: self.tier }
    }
}

pub open spec fn key_of(s: Snapshot) -> Option<BarKeyView> {
    match headline_of(s) {
        Some(device) => Some(
            BarKeyView { glyph: glyph_of(device), charge: charge_of(device), tier: tier_of(device) },
        ),
        None => None,
    }
}

pub open spec fn opt_key(key: Option<BarKey>) -> Option<BarKeyView> {
    match key {
        Some(key) => Some(key@),
        None => None,
    }
}

impl Snapshot {
    pub fn headline(&self) -> (r: Option<&Device>)
        ensures
            match r {
                Some(device) => headline_of(*self) == Some(*device),
                None => headline_of(*self) is None,
            },
    {
        match &self.display {
            Some(device) => if device.system() {
                return Some(device);
            },
            None => {},
        }
        let ghost all = self.devices@;
        let mut i: usize = 0;
        assert(all.skip(0) =~= all);
        while i < self.devices.len()
            invariant
                i <= all.len(),
                all == self.devices@,
                !(self.display matches Some(device) && is_system(device)),
                first_system(all.skip(i as int)) == first_system(all),
            decreases all.len() - i,
        {
            proof {
                assert(all.skip(i as int)[0] == all[i as int]);
                assert(all.skip(i as int).skip(1) =~= all.skip(i + 1));
            }
            if self.devices[i].system() {
                return Some(&self.devices[i]);
            }
            i += 1;
        }
        None
    }

    /// What the bar cell draws, and nothing else. A peripheral's percentage
    /// moving is popup detail and must not repaint the bar.
    pub fn bar_key(&self) -> (r: Option<BarKey>)
        ensures
            opt_key(r) == key_of(*self),
    {
        match self.headline() {
            Some(device) => Some(
                BarKey { glyph: device.glyph(), charge: device.charge(), tier: device.tier() },
            ),
            None => None,
        }
    }
}

/// Which snapshots reach the bar.
#[derive(Debug, Clone)]
pub struct Gate {
    /// What the last snapshot that was sent drew.
    pub drawn: Option<Option<BarKey>>,
}

pub open spec fn drawn_view(drawn: Option<Option<BarKey>>) -> Option<Option<BarKeyView>> {
    match drawn {
        Some(key) => Some(opt_key(key)),
        None => None,
    }
}

impl Gate {
    pub fn new() -> (r: Gate)
        ensures
            r.drawn is None,
    {
        Gate { drawn: None }
    }

    /// Whether a snapshot is to be sent: every one while the popup is on
    /// screen, else one that draws another cell than the last that was sent.
    pub fn passes(&mut self, snapshot: &Snapshot, detailed: bool) -> (r: bool)
        ensures
            r == (detailed || drawn_view(old(self).drawn) != Some(key_of(*snapshot))),
            drawn_view(final(self).drawn) == Some(key_of(*snapshot)),
    {
        let key = snapshot.bar_key();
        let fresh = match &self.drawn {
            Some(drawn) => match (drawn, &key) {
                (Some(a), Some(b)) => !(same(a.glyph, b.glyph) && same(
                    a.charge.as_str(),
                    b.charge.as_str(),
                ) && a.tier == b.tier),
                (None, None) => false,
                _ => true,
            },
            None => true,
        };
        if detailed || fresh {
            self.drawn = Some(key);
            true
        } else {
            false
        }
    }
}

#[derive(Debug, Clone)]
pub enum Event {
    Snapshot(Snapshot),
    /// The service went away; the module hides until it comes back.
    Unavailable,
}

#[derive(Debug, Clone)]
pub struct State {
    pub snapshot: Option<Snapshot>,
}

impl State {
    pub fn update(&mut self, event: Event)
        ensures
            final(self).snapshot == match event {
                Event::Snapshot(snapshot) => Some(snapshot),
                Event::Unavailable => None,
            },
    {
        self.snapshot = match event {
            Event::Snapshot(snapshot) => Some(snapshot),
            Event::Unavailable => None,
        };
    }

    /// Whether there is a popup.
    pub open spec fn pops_up(self) -> bool {
        self.snapshot is Some
    }

    pub fn has_popup(&self) -> (r: bool)
        ensures
            r == self.pops_up(),
    {
        self.snapshot.is_some()
    }
}

/// What the bar cell draws.
#[derive(Debug, Clone)]
pub struct Cell {
    pub glyph: &'static str,
    pub charge: String,
    pub tier: u8,
}

impl State {
    /// What the bar cell draws of the device that it speaks for; nothing where
    /// there is none.
    pub fn cell(&self) -> (r: Option<Cell>)
        ensures
            match self.snapshot {
                Some(snapshot) => match headline_of(snapshot) {
                    Some(d) => r matches Some(cell) && cell.glyph@ == glyph_of(d) && cell.charge@
                        == charge_of(d) && cell.tier == tier_of(d),
                    None => r is None,
                },
                None => r is None,
            },
    {
        match &self.snapshot {
            Some(snapshot) => match snapshot.headline() {
                Some(device) => Some(
                    Cell { glyph: device.glyph(), charge: device.charge(), tier: device.tier() },
                ),
                None => None,
            },
            None => None,
        }
    }
}

/// One detail of a device, or none.
pub open spec fn part(present: bool, text: Seq<char>) -> Seq<Seq<char>> {
    if present {
        seq![text]
    } else {
        Seq::empty()
    }
}

/// What the popup says under a device's name.
pub open spec fn details_of(d: Device, now_ms: i64) -> Seq<Seq<char>> {
    seq![state_text(d.state), kind_text(d.kind)] + part(
        d.time_to_empty > 0,
        duration_text(d.time_to_empty as int) + " to empty"@,
    ) + part(d.time_to_full > 0, duration_text(d.time_to_full as int) + " to full"@) + (
    match d.watts {
        Some(watts) => seq![watts@ + " W"@],
        None => Seq::empty(),
    }) + (match stale_text(d.updated as int, now_ms as int) {
        Some(ago) => seq!["updated "@ + ago + " ago"@],
        None => Seq::empty(),
    })
}

/// The line under a device's name.
pub fn detail(d: &Device, now_ms: i64) -> (r: String)
    ensures
        r@ == joined(details_of(*d, now_ms), " · "@),
{
    let mut parts: Vec<String> = Vec::new();
    parts.push(state_name(d.state).to_owned());
    parts.push(kind_name(d.kind).to_owned());
    let ghost a = texts(parts@);
    assert(a =~= seq![state_text(d.state), kind_text(d.kind)]);
    if d.time_to_empty > 0 {
        parts.push(concat(duration(d.time_to_empty).as_str(), " to empty"));
    }
    let ghost b = part(
        d.time_to_empty > 0,
        duration_text(d.time_to_empty as int) + " to empty"@,
    );
    assert(texts(parts@) =~= a + b);
    if d.time_to_full > 0 {
        parts.push(concat(duration(d.time_to_full).as_str(), " to full"));
    }
    let ghost c = part(d.time_to_full > 0, duration_text(d.time_to_full as int) + " to full"@);
    assert(texts(parts@) =~= a + b + c);
    match &d.watts {
        Some(watts) => {
            parts.push(concat(watts.as_str(), " W"));
        },
        None => {},
    }
    let ghost e = match &d.watts {
        Some(watts) => seq![watts@ + " W"@],
        None => Seq::empty(),
    };
    assert(texts(parts@) =~= a + b + c + e);
    match stale(d.updated, now_ms) {
        Some(ago) => {
            parts.push(concat3("updated ", ago.as_str(), " ago"));
        },
        None => {},
    }
    assert(texts(parts@) =~= details_of(*d, now_ms));
    join(&parts, " · ")
}

/// A device as the popup lists it.
#[derive(Debug, Clone)]
pub struct Row {
    pub glyph: &'static str,
    pub name: String,
    pub detail: String,
    pub charge: String,
    pub tier: u8,
}

pub open spec fn shows_row(d: Device, now_ms: i64, row: Row) -> bool {
    &&& row.glyph@ == glyph_of(d)
    &&& row.name@ == name_of(d)
    &&& row.detail@ == joined(details_of(d, now_ms), " · "@)
    &&& row.charge@ == charge_of(d)
    &&& row.tier == tier_of(d)
}

fn row_of(d: &Device, now_ms: i64) -> (r: Row)
    ensures
        shows_row(*d, now_ms, r),
{
    Row {
        glyph: d.glyph(),
        name: d.name(),
        detail: detail(d, now_ms),
        charge: d.charge(),
        tier: d.tier(),
    }
}

/// The devices that the popup lists: the composite one where it powers the
/// machine, then every other.
pub open spec fn listed(s: Snapshot) -> Seq<Device> {
    (if s.display matches Some(device) && is_system(device) {
        seq![s.display->0]
    } else {
        Seq::empty()
    }) + s.devices@
}

/// Which side of the wall socket the machine is on, the charge that the cell
/// speaks for with its colour band, and the devices.
#[derive(Debug, Clone)]
pub struct Popup {
    pub title: &'static str,
    /// Whether the title warns.
    pub warns: bool,
    pub charge: Option<(String, u8)>,
    pub rows: Vec<Row>,
}

pub open spec fn shows_popup(s: Snapshot, now_ms: i64, p: Popup) -> bool {
    &&& p.title@ == if s.on_battery {
        "on battery"@
    } else {
        "on AC power"@
    }
    &&& p.warns == s.on_battery
    &&& match headline_of(s) {
        Some(d) => p.charge matches Some((charge, tier)) && charge@ == charge_of(d) && tier
            == tier_of(d),
        None => p.charge is None,
    }
    &&& p.rows@.len() == listed(s).len()
    &&& forall|i: int|
        0 <= i < listed(s).len() ==> shows_row(listed(s)[i], now_ms, #[trigger] p.rows@[i])
}

impl State {
    pub fn popup(&self, now_ms: i64) -> (r: Option<Popup>)
        ensures
            r is Some <==> self.pops_up(),
            r matches Some(p) ==> shows_popup(self.snapshot->0, now_ms, p),
    {
        let snapshot = match &self.snapshot {
            Some(snapshot) => snapshot,
            None => {
                return None;
            },
        };
        let ghost all = listed(*snapshot);
        let mut rows: Vec<Row> = Vec::new();
        match &snapshot.display {
            Some(device) => {
                if device.system() {
                    rows.push(row_of(device, now_ms));
                }
            },
            None => {},
        }
        let ghost lead = rows@.len() as int;
        let mut i: usize = 0;
        while i < snapshot.devices.len()
            invariant
                i <= snapshot.devices@.len(),
                all == listed(*snapshot),
                all.len() == lead + snapshot.devices@.len(),
                forall|j: int|
                    0 <= j < snapshot.devices@.len() ==> all[lead + j]
                        == #[trigger] snapshot.devices@[j],
                rows@.len() == lead + i,
                forall|j: int|
                    0 <= j < lead + i ==> shows_row(all[j], now_ms, #[trigger] rows@[j]),
            decreases snapshot.devices@.len() - i,
        {
            rows.push(row_of(&snapshot.devices[i], now_ms));
            assert(all[lead + i] == snapshot.devices@[i as int]);
            i += 1;
        }
        let charge = match snapshot.headline() {
            Some(device) => Some((device.charge(), device.tier())),
            None => None,
        };
        let title = if snapshot.on_battery {
            "on battery"
        } else {
            "on AC power"
        };
        Some(Popup { title, warns: snapshot.on_battery, charge, rows })
    }
}

pub open spec fn kind_text(kind: u32) -> Seq<char> {
    if kind == 1 {
        "AC"@
    } else if kind == 2 {
        "battery"@
    } else if kind == 3 {
        "UPS"@
    } else if kind == 4 {
        "monitor"@
    } else if kind == 5 {
        "mouse"@
    } else if kind == 6 {
        "keyboard"@
    } else if kind == 7 {
        "PDA"@
    } else if kind == 8 {
        "phone"@
    } else if kind == 9 {
        "media player"@
    } else if kind == 10 {
        "tablet"@
    } else if kind == 11 {
        "computer"@
    } else if kind == 12 {
        "gaming input"@
    } else if kind == 13 {
        "pen"@
    } else if kind == 14 {
        "touchpad"@
    } else if kind == 15 {
        "modem"@
    } else if kind == 16 {
        "network device"@
    } else if kind == 17 {
        "headset"@
    } else if kind == 18 {
        "speakers"@
    } else if kind == 19 {
        "headphones"@
    } else if kind == 20 {
        "video"@
    } else if kind == 21 {
        "audio device"@
    } else if kind == 22 {
        "remote control"@
    } else if kind == 23 {
        "printer"@
    } else if kind == 24 {
        "scanner"@
    } else if kind == 25 {
        "camera"@
    } else if kind == 26 {
        "wearable"@
    } else if kind == 27 {
        "toy"@
    } else if kind == 28 {
        "bluetooth device"@
    } else {
        "device"@
    }
}

pub fn kind_name(kind: u32) -> (r: &'static str)
    ensures
        r@ == kind_text(kind),
{
    match kind {
        1 => "AC",
        2 => "battery",
        3 => "UPS",
        4 => "monitor",
        5 => "mouse",
        6 => "keyboard",
        7 => "PDA",
        8 => "phone",
        9 => "media player",
        10 => "tablet",
        11 => "computer",
        12 => "gaming input",
        13 => "pen",
        14 => "touchpad",
        15 => "modem",
        16 => "network device",
        17 => "headset",
        18 => "speakers",
        19 => "headphones",
        20 => "video",
        21 => "audio device",
        22 => "remote control",
        23 => "printer",
        24 => "scanner",
        25 => "camera",
        26 => "wearable",
        27 => "toy",
        28 => "bluetooth device",
        _ => "device",
    }
}

/// Peripheral glyphs: mouse, keyboard, headset, headphones, phone, tablet,
/// gamepad.
pub open spec fn kind_symbol(kind: u32) -> Seq<char> {
    if kind == 5 {
        "\u{f037d}"@
    } else if kind == 6 {
        "\u{f030c}"@
    } else if kind == 17 {
        "\u{f02ce}"@
    } else if kind == 18 || kind == 19 || kind == 21 {
        "\u{f02cb}"@
    } else if kind == 8 || kind == 9 {
        "\u{f011c}"@
    } else if kind == 10 {
        "\u{f04f6}"@
    } else if kind == 12 {
        "\u{f0297}"@
    } else {
        UNKNOWN_GLYPH@
    }
}

pub fn kind_glyph(kind: u32) -> (r: &'static str)
    ensures
        r@ == kind_symbol(kind),
{
    match kind {
        5 => "\u{f037d}",
        6 => "\u{f030c}",
        17 => "\u{f02ce}",
        18 | 19 | 21 => "\u{f02cb}",
        8 | 9 => "\u{f011c}",
        10 => "\u{f04f6}",
        12 => "\u{f0297}",
        _ => UNKNOWN_GLYPH,
    }
}

pub open spec fn state_text(value: u32) -> Seq<char> {
    if value == STATE_CHARGING {
        "charging"@
    } else if value == STATE_DISCHARGING {
        "discharging"@
    } else if value == STATE_EMPTY {
        "empty"@
    } else if value == STATE_FULLY_CHARGED {
        "fully charged"@
    } else if value == STATE_PENDING_CHARGE {
        "pending charge"@
    } else if value == STATE_PENDING_DISCHARGE {
        "pending discharge"@
    } else {
        "state unknown"@
    }
}

pub fn state_name(value: u32) -> (r: &'static str)
    ensures
        r@ == state_text(value),
{
    if value == STATE_CHARGING {
        "charging"
    } else if value == STATE_DISCHARGING {
        "discharging"
    } else if value == STATE_EMPTY {
        "empty"
    } else if value == STATE_FULLY_CHARGED {
        "fully charged"
    } else if value == STATE_PENDING_CHARGE {
        "pending charge"
    } else if value == STATE_PENDING_DISCHARGE {
        "pending discharge"
    } else {
        "state unknown"
    }
}

pub open spec fn level_text(value: u32) -> Seq<char> {
    if value == LEVEL_LOW {
        "low"@
    } else if value == LEVEL_CRITICAL {
        "critical"@
    } else if value == LEVEL_ACTION {
        "action"@
    } else if value == LEVEL_NORMAL {
        "normal"@
    } else if value == LEVEL_HIGH {
        "high"@
    } else if value == LEVEL_FULL {
        "full"@
    } else {
        "unknown"@
    }
}

/// The word for a coarse level.
pub fn level_name(value: u32) -> (r: &'static str)
    ensures
        r@ == level_text(value),
{
    if value == LEVEL_LOW {
        "low"
    } else if value == LEVEL_CRITICAL {
        "critical"
    } else if value == LEVEL_ACTION {
        "action"
    } else if value == LEVEL_NORMAL {
        "normal"
    } else if value == LEVEL_HIGH {
        "high"
    } else if value == LEVEL_FULL {
        "full"
    } else {
        "unknown"
    }
}

/// The quotient without its fraction, towards zero.
pub open spec fn towards_zero(n: int, d: int) -> int {
    if n >= 0 {
        n / d
    } else {
        -((-n) / d)
    }
}

fn divide(n: i64, d: i64) -> (r: i64)
    requires
        d > 0,
    ensures
        r == towards_zero(n as int, d as int),
{
    if n >= 0 {
        n / d
    } else {
        let size: u64 = if n == i64::MIN {
            0x8000_0000_0000_0000
        } else {
            (-n) as u64
        };
        let q: u64 = size / d as u64;
        assert(q <= size) by (nonlinear_arith)
            requires
                q == size / (d as u64),
                d > 0,
        ;
        if q == 0x8000_0000_0000_0000 {
            i64::MIN
        } else {
            -(q as i64)
        }
    }
}

/// `1 hr 5 min`
pub open spec fn duration_text(seconds: int) -> Seq<char> {
    let minutes = towards_zero(seconds, 60);
    let hours = towards_zero(minutes, 60);
    if hours == 0 {
        signed_decimal(minutes) + " min"@
    } else {
        signed_decimal(hours) + " hr "@ + signed_decimal(minutes - 60 * hours) + " min"@
    }
}

pub fn duration(seconds: i64) -> (r: String)
    ensures
        r@ == duration_text(seconds as int),
{
    let minutes: i64 = divide(seconds, 60);
    let hours: i64 = divide(minutes, 60);
    if hours == 0 {
        concat(signed(minutes).as_str(), " min")
    } else {
        concat4(
            signed(hours).as_str(),
            " hr ",
            signed(minutes - 60 * hours).as_str(),
            " min",
        )
    }
}

/// How long ago a device was last heard from, in seconds, after which that
/// matters.
pub const STALE_AFTER: i64 = 600;

/// How long ago a device was last heard from, once that is long enough to
/// matter.
pub open spec fn stale_text(updated: int, now_ms: int) -> Option<Seq<char>> {
    let age = towards_zero(now_ms, 1000) - updated;
    if updated <= 0 || age < STALE_AFTER {
        None
    } else if age < 3600 {
        Some(signed_decimal(age / 60) + " min"@)
    } else if age < 86400 {
        Some(signed_decimal(age / 3600) + " hr"@)
    } else {
        Some(signed_decimal(age / 86400) + " d"@)
    }
}

pub fn stale(updated: i64, now_ms: i64) -> (r: Option<String>)
    ensures
        crate::text::opt_text(r) == stale_text(updated as int, now_ms as int),
{
    let now: i64 = divide(now_ms, 1000);
    if updated <= 0 || now < updated {
        return None;
    }
    let age: i64 = now - updated;
    if age < STALE_AFTER {
        None
    } else if age < 3600 {
        Some(concat(signed(age / 60).as_str(), " min"))
    } else if age < 86400 {
        Some(concat(signed(age / 3600).as_str(), " hr"))
    } else {
        Some(concat(signed(age / 86400).as_str(), " d"))
    }
}

/// Snapshots with the same key draw the same cell, and one that is held back
/// draws the cell that is on the bar.
pub proof fn law_held_back_snapshots_change_nothing(drawn: Snapshot, next: Snapshot)
    requires
        key_of(drawn) == key_of(next),
    ensures
        headline_of(drawn) is Some <==> headline_of(next) is Some,
        headline_of(drawn) matches Some(a) ==> {
            let b = headline_of(next)->0;
            glyph_of(a) == glyph_of(b) && charge_of(a) == charge_of(b) && tier_of(a) == tier_of(b)
        },
{
}

} // verus!
