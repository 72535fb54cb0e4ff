//! Signals folded into the tree.
use crate::dbus::Props;
use crate::modules::bluetooth::tree::{
    connected, Adapter, AdapterView, Device, DeviceView, Snapshot, TreeView,
};
use crate::text::{opt_text, same};
use vstd::prelude::*;
use vstd::string::*;

verus! {

pub const IF_ADAPTER: &'static str = "org.bluez.Adapter1";

pub const IF_DEVICE: &'static str = "org.bluez.Device1";

pub const IF_BATTERY: &'static str = "org.bluez.Battery1";

/// How far one signal reached, in ascending order of what it costs the bar.
#[derive(Debug, Clone, Copy, PartialEq, Eq, Structural)]
pub enum Change {
    Ignore,
    /// The tree was updated in place, but only in what the popup renders.
    Detail,
    /// The tree was updated in place and the cell can draw the difference.
    Patch,
    Restart,
}

pub open spec fn loudness(c: Change) -> int {
    match c {
        Change::Ignore => 0,
        Change::Detail => 1,
        Change::Patch => 2,
        Change::Restart => 3,
    }
}

pub open spec fn louder(a: Change, b: Change) -> Change {
    if loudness(a) >= loudness(b) {
        a
    } else {
        b
    }
}

fn loud(c: Change) -> (r: u8)
    ensures
        r == loudness(c),
{
    match c {
        Change::Ignore => 0,
        Change::Detail => 1,
        Change::Patch => 2,
        Change::Restart => 3,
    }
}

/// The louder of two changes.
pub fn loudest(a: Change, b: Change) -> (r: Change)
    ensures
        r == louder(a, b),
{
    if loud(a) >= loud(b) {
        a
    } else {
        b
    }
}

/// A device's own state reaches the cell only while it is connected.
pub open spec fn device_change_of(connected: bool) -> Change {
    if connected {
        Change::Patch
    } else {
        Change::Detail
    }
}

pub fn device_change(connected: bool) -> (r: Change)
    ensures
        r == device_change_of(connected),
{
    if connected {
        Change::Patch
    } else {
        Change::Detail
    }
}

/// A change, where it happened at all.
pub open spec fn when(happened: bool, c: Change) -> Change {
    if happened {
        c
    } else {
        Change::Ignore
    }
}

fn only_if(happened: bool, c: Change) -> (r: Change)
    ensures
        r == when(happened, c),
{
    if happened {
        c
    } else {
        Change::Ignore
    }
}

/// What the user named an object, or else what it calls itself.
pub open spec fn alias_in(props: Props) -> Option<Seq<char>> {
    match props.text_at("Alias"@) {
        Some(alias) => Some(alias),
        None => props.text_at("Name"@),
    }
}

fn alias_of(props: &Props) -> (r: Option<String>)
    ensures
        opt_text(r) == alias_in(*props),
{
    match props.string_of("Alias") {
        Some(alias) => Some(alias),
        None => props.string_of("Name"),
    }
}

/// A new value where one is given, else the one there was.
pub open spec fn or_kept<A>(given: Option<A>, kept: A) -> A {
    match given {
        Some(x) => x,
        None => kept,
    }
}

/// Whether a value is given that is another than the one there was.
pub open spec fn differs<A>(given: Option<A>, kept: A) -> bool {
    match given {
        Some(x) => x != kept,
        None => false,
    }
}

pub open spec fn new_adapter(path: Seq<char>) -> AdapterView {
    AdapterView {
        path,
        alias: Seq::empty(),
        address: Seq::empty(),
        powered: false,
        discovering: false,
    }
}

pub open spec fn adapter_after(a: AdapterView, props: Props) -> AdapterView {
    AdapterView {
        path: a.path,
        alias: or_kept(alias_in(props), a.alias),
        address: or_kept(props.text_at("Address"@), a.address),
        powered: or_kept(props.bool_at("Powered"@), a.powered),
        discovering: or_kept(props.bool_at("Discovering"@), a.discovering),
    }
}

/// An adapter appearing unhides the module, and its power is what the cell
/// shows; the rest is the popup's.
pub open spec fn adapter_change(a: AdapterView, created: bool, props: Props) -> Change {
    if created || differs(props.bool_at("Powered"@), a.powered) {
        Change::Patch
    } else if differs(props.bool_at("Discovering"@), a.discovering) || differs(
        alias_in(props),
        a.alias,
    ) || differs(props.text_at("Address"@), a.address) {
        Change::Detail
    } else {
        Change::Ignore
    }
}

pub open spec fn new_device(path: Seq<char>) -> DeviceView {
    DeviceView {
        path,
        address: Seq::empty(),
        name: Seq::empty(),
        icon: None,
        connected: false,
        paired: false,
        battery: None,
        rssi: None,
    }
}

/// A name that was taken from an address does not outlive that address.
pub open spec fn name_kept(d: DeviceView, props: Props) -> Seq<char> {
    if differs(props.text_at("Address"@), d.address) && d.name == d.address {
        Seq::empty()
    } else {
        d.name
    }
}

/// A device after some of its properties changed: what is missing keeps its
/// value, and a device without a name goes by its address.
pub open spec fn device_after(d: DeviceView, props: Props) -> DeviceView {
    let address = or_kept(props.text_at("Address"@), d.address);
    let name = or_kept(alias_in(props), name_kept(d, props));
    DeviceView {
        path: d.path,
        address,
        name: if name.len() == 0 {
            address
        } else {
            name
        },
        icon: match props.text_at("Icon"@) {
            Some(icon) => Some(icon),
            None => d.icon,
        },
        connected: or_kept(props.bool_at("Connected"@), d.connected),
        paired: or_kept(props.bool_at("Paired"@), d.paired),
        battery: d.battery,
        rssi: match props.i16_at("RSSI"@) {
            Some(rssi) => Some(rssi),
            None => d.rssi,
        },
    }
}

/// Which devices are connected is the cell's; so are the name of a connected
/// one, and its address where it goes by that. The rest is the popup's.
pub open spec fn device_reach(d: DeviceView, is_new: bool, props: Props) -> Change {
    let after = device_after(d, props);
    let own = device_change_of(after.connected);
    let readdressed = differs(props.text_at("Address"@), d.address);
    louder(
        when(
            is_new || differs(props.bool_at("Paired"@), d.paired) || (match props.text_at("Icon"@) {
                Some(icon) => d.icon != Some(icon),
                None => false,
            }) || (match props.i16_at("RSSI"@) {
                Some(rssi) => d.rssi != Some(rssi),
                None => false,
            }) || readdressed,
            Change::Detail,
        ),
        louder(
            when(differs(props.bool_at("Connected"@), d.connected), Change::Patch),
            when(
                differs(alias_in(props), name_kept(d, props)) || (readdressed && after.name
                    == after.address),
                own,
            ),
        ),
    )
}

/// Where the device with that path stands.
pub open spec fn place(devices: Seq<DeviceView>, path: Seq<char>) -> Option<int>
    decreases devices.len(),
{
    if devices.len() == 0 {
        None
    } else if devices[0].path == path {
        Some(0int)
    } else {
        match place(devices.skip(1), path) {
            Some(i) => Some(i + 1),
            None => None,
        }
    }
}

proof fn lemma_place(devices: Seq<DeviceView>, path: Seq<char>, k: int)
    requires
        0 <= k <= devices.len(),
        forall|j: int| 0 <= j < k ==> (#[trigger] devices[j]).path != path,
        k < devices.len() ==> devices[k].path == path,
    ensures
        place(devices, path) == if k < devices.len() {
            Some(k)
        } else {
            None::<int>
        },
    decreases devices.len(),
{
    if k > 0 && devices.len() > 0 {
        let rest = devices.skip(1);
        assert(devices[0].path != path);
        assert forall|j: int| 0 <= j < k - 1 implies (#[trigger] rest[j]).path != path by {
            assert(rest[j] == devices[j + 1]);
        }
        lemma_place(rest, path, k - 1);
    }
}

/// A device's place is among the devices, and it is that device's.
pub proof fn lemma_placed(devices: Seq<DeviceView>, path: Seq<char>)
    ensures
        match place(devices, path) {
            Some(i) => 0 <= i < devices.len() && devices[i].path == path,
            None => forall|j: int| 0 <= j < devices.len() ==> (#[trigger] devices[j]).path != path,
        },
    decreases devices.len(),
{
    if devices.len() > 0 && devices[0].path != path {
        let rest = devices.skip(1);
        lemma_placed(rest, path);
        if place(rest, path) is None {
            assert forall|j: int| 0 <= j < devices.len() implies (#[trigger] devices[j]).path
                != path by {
                if j > 0 {
                    assert(rest[j - 1] == devices[j]);
                }
            }
        }
    }
}

/// The tree with one interface's properties folded in, and how far that
/// reached.
pub open spec fn merged(
    tree: TreeView,
    path: Seq<char>,
    interface: Seq<char>,
    props: Props,
) -> (TreeView, Change) {
    if interface == IF_ADAPTER@ {
        match tree.adapter {
            Some(a) => if a.path != path {
                (tree, Change::Ignore)
            } else {
                (
                    TreeView { adapter: Some(adapter_after(a, props)), ..tree },
                    adapter_change(a, false, props),
                )
            },
            None => (
                TreeView { adapter: Some(adapter_after(new_adapter(path), props)), ..tree },
                adapter_change(new_adapter(path), true, props),
            ),
        }
    } else if interface == IF_DEVICE@ {
        match place(tree.devices, path) {
            Some(i) => (
                TreeView {
                    devices: tree.devices.update(i, device_after(tree.devices[i], props)),
                    ..tree
                },
                device_reach(tree.devices[i], false, props),
            ),
            None => (
                TreeView {
                    devices: tree.devices.push(device_after(new_device(path), props)),
                    ..tree
                },
                device_reach(new_device(path), true, props),
            ),
        }
    } else if interface == IF_BATTERY@ {
        match (place(tree.devices, path), props.u8_at("Percentage"@)) {
            (Some(i), Some(percentage)) => (
                TreeView {
                    devices: tree.devices.update(
                        i,
                        DeviceView { battery: Some(percentage), ..tree.devices[i] },
                    ),
                    ..tree
                },
                when(
                    tree.devices[i].battery != Some(percentage),
                    device_change_of(tree.devices[i].connected),
                ),
            ),
            _ => (tree, Change::Ignore),
        }
    } else {
        (tree, Change::Ignore)
    }
}

/// Put a given value in place of the one there was; whether it is another.
fn set_flag(slot: &mut bool, given: Option<bool>) -> (changed: bool)
    ensures
        *final(slot) == or_kept(given, *old(slot)),
        changed == differs(given, *old(slot)),
{
    match given {
        Some(value) => {
            let changed = *slot != value;
            *slot = value;
            changed
        },
        None => false,
    }
}

fn set_text(slot: &mut String, given: Option<String>) -> (changed: bool)
    ensures
        final(slot)@ == or_kept(opt_text(given), old(slot)@),
        changed == differs(opt_text(given), old(slot)@),
{
    match given {
        Some(value) => {
            let changed = !same(slot.as_str(), value.as_str());
            *slot = value;
            changed
        },
        None => false,
    }
}

fn set_icon(slot: &mut Option<String>, given: Option<String>) -> (changed: bool)
    ensures
        opt_text(*final(slot)) == match given {
            Some(icon) => Some(icon@),
            None => opt_text(*old(slot)),
        },
        changed == match given {
            Some(icon) => opt_text(*old(slot)) != Some(icon@),
            None => false,
        },
{
    match given {
        Some(icon) => {
            let known = match &*slot {
                Some(had) => same(had.as_str(), icon.as_str()),
                None => false,
            };
            *slot = Some(icon);
            !known
        },
        None => false,
    }
}

fn set_rssi(slot: &mut Option<i16>, given: Option<i16>) -> (changed: bool)
    ensures
        *final(slot) == match given {
            Some(rssi) => Some(rssi),
            None => *old(slot),
        },
        changed == match given {
            Some(rssi) => *old(slot) != Some(rssi),
            None => false,
        },
{
    match given {
        Some(rssi) => {
            let known = match *slot {
                Some(had) => had == rssi,
                None => false,
            };
            *slot = Some(rssi);
            !known
        },
        None => false,
    }
}

impl Adapter {
    fn merge(&mut self, created: bool, props: &Props) -> (r: Change)
        ensures
            final(self)@ == adapter_after(old(self)@, *props),
            r == adapter_change(old(self)@, created, *props),
    {
        let powered = set_flag(&mut self.powered, props.bool_of("Powered"));
        let discovering = set_flag(&mut self.discovering, props.bool_of("Discovering"));
        let renamed = set_text(&mut self.alias, alias_of(props));
        let readdressed = set_text(&mut self.address, props.string_of("Address"));
        if created || powered {
            Change::Patch
        } else if discovering || renamed || readdressed {
            Change::Detail
        } else {
            Change::Ignore
        }
    }
}

impl Device {
    fn merge(&mut self, is_new: bool, props: &Props) -> (r: Change)
        ensures
            final(self)@ == device_after(old(self)@, *props),
            r == device_reach(old(self)@, is_new, *props),
    {
        let ghost before = self@;
        let by_address = same(self.name.as_str(), self.address.as_str());
        let switched = set_flag(&mut self.connected, props.bool_of("Connected"));
        let paired = set_flag(&mut self.paired, props.bool_of("Paired"));
        let readdressed = set_text(&mut self.address, props.string_of("Address"));
        if readdressed && by_address {
            self.name = String::new();
        }
        assert(self.name@ =~= name_kept(before, *props));
        let renamed = set_text(&mut self.name, alias_of(props));
        let redrawn = set_icon(&mut self.icon, props.string_of("Icon"));
        let moved = set_rssi(&mut self.rssi, props.i16_of("RSSI"));
        if self.name.as_str().is_empty() {
            self.name = self.address.as_str().to_owned();
        }
        let own = device_change(self.connected);
        let named = renamed || (readdressed && same(self.name.as_str(), self.address.as_str()));
        loudest(
            only_if(is_new || paired || redrawn || moved || readdressed, Change::Detail),
            loudest(only_if(switched, Change::Patch), only_if(named, own)),
        )
    }
}

impl Snapshot {
    pub fn find(&self, path: &str) -> (r: Option<usize>)
        ensures
            match r {
                Some(i) => i < self.devices@.len() && place(self@.devices, path@) == Some(i as int),
                None => place(self@.devices, path@) is None,
            },
    {
        let mut i: usize = 0;
        while i < self.devices.len() && !same(self.devices[i].path.as_str(), path)
            invariant
                i <= self.devices@.len(),
                forall|j: int| 0 <= j < i ==> (#[trigger] self@.devices[j]).path != path@,
            ensures
                i <= self.devices@.len(),
                forall|j: int| 0 <= j < i ==> (#[trigger] self@.devices[j]).path != path@,
                i < self.devices@.len() ==> self@.devices[i as int].path == path@,
            decreases self.devices@.len() - i,
        {
            i += 1;
        }
        proof {
            lemma_place(self@.devices, path@, i as int);
        }
        if i < self.devices.len() {
            Some(i)
        } else {
            None
        }
    }

    /// Fold one interface's properties into the tree, creating the object when
    /// it is new, and report how far the fold reached.
    pub fn merge(&mut self, path: &str, interface: &str, props: &Props) -> (r: Change)
        ensures
            (final(self)@, r) == merged(old(self)@, path@, interface@, *props),
    {
        let ghost before = self@;
        if same(interface, IF_ADAPTER) {
            match &mut self.adapter {
                Some(adapter) => {
                    if !same(adapter.path.as_str(), path) {
                        return Change::Ignore;
                    }
                    return adapter.merge(false, props);
                },
                None => {},
            }
            let mut adapter = Adapter {
                path: path.to_owned(),
                alias: String::new(),
                address: String::new(),
                powered: false,
                discovering: false,
            };
            let change = adapter.merge(true, props);
            self.adapter = Some(adapter);
            change
        } else if same(interface, IF_DEVICE) {
            match self.find(path) {
                Some(i) => {
                    let change = self.devices[i].merge(false, props);
                    assert(self@.devices =~= before.devices.update(
                        i as int,
                        device_after(before.devices[i as int], *props),
                    ));
                    change
                },
                None => {
                    let mut device = Device {
                        path: path.to_owned(),
                        address: String::new(),
                        name: String::new(),
                        icon: None,
                        connected: false,
                        paired: false,
                        battery: None,
                        rssi: None,
                    };
                    let change = device.merge(true, props);
                    self.devices.push(device);
                    assert(self@.devices =~= before.devices.push(device@));
                    change
                },
            }
        } else if same(interface, IF_BATTERY) {
            let percentage: u8 = match props.u8_of("Percentage") {
                Some(percentage) => percentage,
                None => {
                    return Change::Ignore;
                },
            };
            match self.find(path) {
                Some(i) => {
                    let known = match self.devices[i].battery {
                        Some(had) => had == percentage,
                        None => false,
                    };
                    let change = only_if(!known, device_change(self.devices[i].connected));
                    self.devices[i].battery = Some(percentage);
                    assert(self@.devices =~= before.devices.update(
                        i as int,
                        DeviceView { battery: Some(percentage), ..before.devices[i as int] },
                    ));
                    change
                },
                None => Change::Ignore,
            }
        } else {
            Change::Ignore
        }
    }
}

} // verus!
