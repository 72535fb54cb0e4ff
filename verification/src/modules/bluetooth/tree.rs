//! The adapter, its devices, and what the bar cell draws of them.
use crate::order::{in_line, sort, Ranked};
use crate::text::{comes_before, lowercase, opt_text, same, text_before, to_lowercase};
use vstd::prelude::*;
use vstd::string::*;

verus! {

pub const BATTERY_CRITICAL: u8 = 20;

pub const BATTERY_WARNING: u8 = 35;

#[derive(Debug, Clone)]
pub struct Adapter {
    pub path: String,
    pub alias: String,
    pub address: String,
    pub powered: bool,
    pub discovering: bool,
}

pub struct AdapterView {
    pub path: Seq<char>,
    pub alias: Seq<char>,
    pub address: Seq<char>,
    pub powered: bool,
    pub discovering: bool,
}

impl View for Adapter {
    type V = AdapterView;

    open spec fn view(&self) -> AdapterView {
        AdapterView {
            path: self.path@,
            alias: self.alias@,
            address: self.address@,
            powered: self.powered,
            discovering: self.discovering,
        }
    }
}

#[derive(Debug, Clone)]
pub struct Device {
    pub path: String,
    pub address: String,
    pub name: String,
    pub icon: Option<String>,
    pub connected: bool,
    pub paired: bool,
    pub battery: Option<u8>,
    pub rssi: Option<i16>,
}

pub struct DeviceView {
    pub path: Seq<char>,
    pub address: Seq<char>,
    pub name: Seq<char>,
    pub icon: Option<Seq<char>>,
    pub connected: bool,
    pub paired: bool,
    pub battery: Option<u8>,
    pub rssi: Option<i16>,
}

impl View for Device {
    type V = DeviceView;

    open spec fn view(&self) -> DeviceView {
        DeviceView {
            path: self.path@,
            address: self.address@,
            name: self.name@,
            icon: opt_text(self.icon),
            connected: self.connected,
            paired: self.paired,
            battery: self.battery,
            rssi: self.rssi,
        }
    }
}

/// The object tree, reduced to what the module renders.
#[derive(Debug, Clone)]
pub struct Snapshot {
    pub adapter: Option<Adapter>,
    pub devices: Vec<Device>,
}

pub struct TreeView {
    pub adapter: Option<AdapterView>,
    pub devices: Seq<DeviceView>,
}

pub open spec fn device_views(devices: Seq<Device>) -> Seq<DeviceView> {
    devices.map_values(|d: Device| d@)
}

impl View for Snapshot {
    type V = TreeView;

    open spec fn view(&self) -> TreeView {
        TreeView {
            adapter: match self.adapter {
                Some(adapter) => Some(adapter@),
                None => None,
            },
            devices: device_views(self.devices@),
        }
    }
}

/// The batteries of the connected devices.
pub open spec fn connected(devices: Seq<DeviceView>) -> Seq<Option<u8>>
    decreases devices.len(),
{
    if devices.len() == 0 {
        Seq::empty()
    } else {
        let before = connected(devices.drop_last());
        if devices.last().connected {
            before.push(devices.last().battery)
        } else {
            before
        }
    }
}

/// The lowest of the batteries that are known.
pub open spec fn lowest(batteries: Seq<Option<u8>>) -> Option<u8>
    decreases batteries.len(),
{
    if batteries.len() == 0 {
        None
    } else {
        match (lowest(batteries.drop_last()), batteries.last()) {
            (Some(a), Some(b)) => Some(
                if b < a {
                    b
                } else {
                    a
                },
            ),
            (Some(a), None) => Some(a),
            (None, b) => b,
        }
    }
}

/// The lowest battery is one of them, and no other is lower.
pub proof fn law_the_worst_battery_is_shown(batteries: Seq<Option<u8>>)
    ensures
        match lowest(batteries) {
            Some(b) => batteries.contains(Some(b)) && forall|i: int|
                0 <= i < batteries.len() ==> ((#[trigger] batteries[i]) matches Some(x) ==> b
                    <= x),
            None => forall|i: int| 0 <= i < batteries.len() ==> (#[trigger] batteries[i]) is None,
        },
    decreases batteries.len(),
{
    if batteries.len() > 0 {
        let most = batteries.drop_last();
        law_the_worst_battery_is_shown(most);
        assert(batteries[batteries.len() - 1] == batteries.last());
        assert forall|i: int| 0 <= i < most.len() implies batteries[i] == #[trigger] most[i] by {}
        if lowest(batteries) is Some {
            let b = lowest(batteries)->0;
            if batteries.last() != Some(b) {
                let k = choose|k: int| 0 <= k < most.len() && most[k] == Some(b);
                assert(batteries[k] == Some(b));
            }
        }
        assert forall|i: int| 0 <= i < batteries.len() implies ((#[trigger] batteries[i]) matches
            Some(x) ==> lowest(batteries) is Some && lowest(batteries)->0 <= x) by {
            if i < most.len() {
                assert(most[i] == batteries[i]);
            }
        }
    }
}

/// How low a battery is: 0 above the warning level, 1 from it down, 2 from
/// critical down.
pub open spec fn tier(battery: u8) -> u8 {
    if battery <= BATTERY_CRITICAL {
        2
    } else if battery <= BATTERY_WARNING {
        1
    } else {
        0
    }
}

pub fn battery_tier(battery: u8) -> (r: u8)
    ensures
        r == tier(battery),
{
    if battery <= BATTERY_CRITICAL {
        2
    } else if battery <= BATTERY_WARNING {
        1
    } else {
        0
    }
}

/// What the bar cell draws, and nothing else.
#[derive(Debug, Clone, Copy)]
pub enum BarKey {
    /// No adapter, so no cell at all.
    Hidden,
    Off,
    On {
        connected: usize,
        /// Percentage of the worst connected battery, and its tier.
        battery: Option<(u8, u8)>,
    },
}

pub open spec fn key_of(tree: TreeView) -> BarKey {
    match tree.adapter {
        None => BarKey::Hidden,
        Some(adapter) => if !adapter.powered {
            BarKey::Off
        } else {
            let batteries = connected(tree.devices);
            BarKey::On {
                connected: batteries.len() as usize,
                battery: match lowest(batteries) {
                    Some(b) => Some((b, tier(b))),
                    None => None,
                },
            }
        },
    }
}

pub proof fn lemma_fewer_connected(devices: Seq<DeviceView>)
    ensures
        connected(devices).len() <= devices.len(),
    decreases devices.len(),
{
    if devices.len() > 0 {
        lemma_fewer_connected(devices.drop_last());
    }
}

impl BarKey {
    /// Whether two cells look the same.
    pub fn is(&self, other: &BarKey) -> (r: bool)
        ensures
            r == (*self == *other),
    {
        match (self, other) {
            (BarKey::Hidden, BarKey::Hidden) => true,
            (BarKey::Off, BarKey::Off) => true,
            (
                BarKey::On { connected: a, battery: b },
                BarKey::On { connected: c, battery: d },
            ) => *a == *c && match (b, d) {
                (Some((b, s)), Some((d, t))) => *b == *d && *s == *t,
                (None, None) => true,
                _ => false,
            },
            _ => false,
        }
    }
}

/// Devices as the popup lists them: connected first, then paired, then the
/// strongest advertisements, then by name.
impl Ranked for Device {
    open spec fn precedes(&self, other: &Self) -> bool {
        if self.connected != other.connected {
            self.connected
        } else if self.paired != other.paired {
            self.paired
        } else if self.rssi != other.rssi {
            match (self.rssi, other.rssi) {
                (Some(a), Some(b)) => a > b,
                (Some(_), None) => true,
                _ => false,
            }
        } else {
            text_before(lowercase(self.name@), lowercase(other.name@))
        }
    }

    fn before(&self, other: &Self) -> (r: bool) {
        if self.connected != other.connected {
            self.connected
        } else if self.paired != other.paired {
            self.paired
        } else {
            match (self.rssi, other.rssi) {
                (Some(a), Some(b)) => if a != b {
                    return a > b;
                },
                (Some(_), None) => {
                    return true;
                },
                (None, Some(_)) => {
                    return false;
                },
                (None, None) => {},
            }
            let a = to_lowercase(self.name.as_str());
            let b = to_lowercase(other.name.as_str());
            comes_before(a.as_str(), b.as_str())
        }
    }
}

impl Snapshot {
    pub fn new() -> (r: Snapshot)
        ensures
            r.adapter is None,
            r.devices@.len() == 0,
    {
        Snapshot { adapter: None, devices: Vec::new() }
    }

    pub fn bar_key(&self) -> (r: BarKey)
        ensures
            r == key_of(self@),
    {
        let powered = match &self.adapter {
            None => {
                return BarKey::Hidden;
            },
            Some(adapter) => adapter.powered,
        };
        if !powered {
            return BarKey::Off;
        }
        let ghost all = self@.devices;
        let mut count: usize = 0;
        let mut worst: Option<u8> = None;
        let mut i: usize = 0;
        while i < self.devices.len()
            invariant
                i <= self.devices@.len(),
                all == device_views(self.devices@),
                count <= i,
                count == connected(all.take(i as int)).len(),
                worst == lowest(connected(all.take(i as int))),
            decreases self.devices@.len() - i,
        {
            let device = &self.devices[i];
            proof {
                assert(all.take(i + 1).drop_last() =~= all.take(i as int));
                assert(all.take(i + 1).last() == device@);
            }
            if device.connected {
                proof {
                    let before = connected(all.take(i as int));
                    assert(before.push(device.battery).drop_last() =~= before);
                }
                count += 1;
                worst = match (worst, device.battery) {
                    (Some(a), Some(b)) => Some(
                        if b < a {
                            b
                        } else {
                            a
                        },
                    ),
                    (Some(a), None) => Some(a),
                    (None, b) => b,
                };
            }
            i += 1;
        }
        assert(all.take(i as int) =~= all);
        BarKey::On {
            connected: count,
            battery: match worst {
                Some(b) => Some((b, battery_tier(b))),
                None => None,
            },
        }
    }

    /// Put the devices in the order of the popup.
    pub fn sort(&mut self)
        ensures
            final(self).adapter == old(self).adapter,
            final(self).devices@ == in_line(old(self).devices@),
    {
        let mut devices: Vec<Device> = Vec::new();
        core::mem::swap(&mut devices, &mut self.devices);
        self.devices = sort(devices);
    }
}

} // verus!
