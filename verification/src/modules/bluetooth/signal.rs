//! What a signal from BlueZ does to the tree, and which trees reach the bar.
use crate::dbus::Props;
use crate::modules::bluetooth::merge::{
    device_change, device_change_of, loudest, louder, merged, place, Change, IF_ADAPTER, IF_BATTERY,
    IF_DEVICE,
};
use crate::modules::bluetooth::tree::{
    connected, device_views, Device, DeviceView, Snapshot, TreeView,
};
use crate::order::{in_line, sort, Ranked};
use crate::text::{byte_len, same, texts, utf8_len};
use vstd::prelude::*;
use vstd::string::*;

verus! {

/// Fold order within one object: an adapter owns devices, a device owns its
/// battery, so each has to exist before the next is applied.
pub open spec fn order_of(interface: Seq<char>) -> int {
    if interface == IF_ADAPTER@ {
        0
    } else if interface == IF_DEVICE@ {
        1
    } else {
        2
    }
}

pub fn merge_order(interface: &str) -> (r: u8)
    ensures
        r == order_of(interface@),
{
    if same(interface, IF_ADAPTER) {
        0
    } else if same(interface, IF_DEVICE) {
        1
    } else {
        2
    }
}

/// An interface of an object, with its properties.
#[derive(Debug)]
pub struct Object {
    pub path: String,
    pub interface: String,
    pub props: Props,
}

/// An interface of the object that a signal is about.
#[derive(Debug)]
pub struct Added {
    pub interface: String,
    pub props: Props,
}

impl Ranked for Added {
    open spec fn precedes(&self, other: &Self) -> bool {
        order_of(self.interface@) < order_of(other.interface@)
    }

    fn before(&self, other: &Self) -> (r: bool) {
        merge_order(self.interface.as_str()) < merge_order(other.interface.as_str())
    }
}

impl Ranked for Object {
    open spec fn precedes(&self, other: &Self) -> bool {
        let (a, b) = (order_of(self.interface@), order_of(other.interface@));
        a < b || (a == b && utf8_len(self.path@) < utf8_len(other.path@))
    }

    fn before(&self, other: &Self) -> (r: bool) {
        let a: u8 = merge_order(self.interface.as_str());
        let b: u8 = merge_order(other.interface.as_str());
        a < b || (a == b && byte_len(self.path.as_str()) < byte_len(other.path.as_str()))
    }
}

/// The tree that the interfaces of all objects make, in the order they stand.
pub open spec fn tree_of(objects: Seq<Object>) -> TreeView
    decreases objects.len(),
{
    if objects.len() == 0 {
        TreeView { adapter: None, devices: Seq::empty() }
    } else {
        let last = objects.last();
        merged(tree_of(objects.drop_last()), last.path@, last.interface@, last.props).0
    }
}

/// The whole tree: the adapter first, then the devices, then the rest.
pub fn read_tree(objects: Vec<Object>) -> (r: Snapshot)
    ensures
        r@ == tree_of(in_line(objects@)),
{
    let line = sort(objects);
    let ghost all = line@;
    let mut snapshot = Snapshot::new();
    let mut i: usize = 0;
    assert(snapshot@.devices =~= Seq::empty());
    while i < line.len()
        invariant
            i <= line@.len(),
            all == line@,
            snapshot@ == tree_of(all.take(i as int)),
        decreases line@.len() - i,
    {
        proof {
            assert(all.take(i + 1).drop_last() =~= all.take(i as int));
            assert(all.take(i + 1).last() == all[i as int]);
        }
        let object = &line[i];
        let _ = snapshot.merge(object.path.as_str(), object.interface.as_str(), &object.props);
        i += 1;
    }
    assert(all.take(i as int) =~= all);
    snapshot
}

/// The tree with each of an object's interfaces folded in.
pub open spec fn added(tree: TreeView, path: Seq<char>, interfaces: Seq<Added>) -> (
    TreeView,
    Change,
)
    decreases interfaces.len(),
{
    if interfaces.len() == 0 {
        (tree, Change::Ignore)
    } else {
        let (before, change) = added(tree, path, interfaces.drop_last());
        let last = interfaces.last();
        let (after, more) = merged(before, path, last.interface@, last.props);
        (after, louder(change, more))
    }
}

/// How far the removal of the devices at a path reaches.
pub open spec fn removal(devices: Seq<DeviceView>, path: Seq<char>) -> Change
    decreases devices.len(),
{
    if devices.len() == 0 {
        Change::Ignore
    } else {
        let before = removal(devices.drop_last(), path);
        if devices.last().path == path {
            louder(before, device_change_of(devices.last().connected))
        } else {
            before
        }
    }
}

/// The devices that are not at a path.
pub open spec fn without(devices: Seq<DeviceView>, path: Seq<char>) -> Seq<DeviceView>
    decreases devices.len(),
{
    if devices.len() == 0 {
        Seq::empty()
    } else {
        let before = without(devices.drop_last(), path);
        if devices.last().path == path {
            before
        } else {
            before.push(devices.last())
        }
    }
}

/// The tree without one interface of an object, and how far that reached.
pub open spec fn removed_one(tree: TreeView, path: Seq<char>, interface: Seq<char>) -> (
    TreeView,
    Change,
) {
    if interface == IF_DEVICE@ {
        (
            TreeView { devices: without(tree.devices, path), ..tree },
            removal(tree.devices, path),
        )
    } else if interface == IF_BATTERY@ {
        match place(tree.devices, path) {
            Some(i) => if tree.devices[i].battery is Some {
                (
                    TreeView {
                        devices: tree.devices.update(
                            i,
                            DeviceView { battery: None, ..tree.devices[i] },
                        ),
                        ..tree
                    },
                    device_change_of(tree.devices[i].connected),
                )
            } else {
                (tree, Change::Ignore)
            },
            None => (tree, Change::Ignore),
        }
    } else if interface == IF_ADAPTER@ && is_adapter(tree, path) {
        (TreeView { adapter: None, devices: Seq::empty() }, Change::Patch)
    } else {
        (tree, Change::Ignore)
    }
}

pub open spec fn is_adapter(tree: TreeView, path: Seq<char>) -> bool {
    match tree.adapter {
        Some(adapter) => adapter.path == path,
        None => false,
    }
}

/// The tree without some of an object's interfaces.
pub open spec fn removed(tree: TreeView, path: Seq<char>, interfaces: Seq<Seq<char>>) -> (
    TreeView,
    Change,
)
    decreases interfaces.len(),
{
    if interfaces.len() == 0 {
        (tree, Change::Ignore)
    } else {
        let (before, change) = removed(tree, path, interfaces.drop_last());
        let (after, more) = removed_one(before, path, interfaces.last());
        (after, louder(change, more))
    }
}

/// A signal, by its name.
#[derive(Debug, Clone, Copy, PartialEq, Eq, Structural)]
pub enum Member {
    NameOwnerChanged,
    InterfacesAdded,
    InterfacesRemoved,
    PropertiesChanged,
    Other,
}

pub open spec fn member_named(name: Seq<char>) -> Member {
    if name == "NameOwnerChanged"@ {
        Member::NameOwnerChanged
    } else if name == "InterfacesAdded"@ {
        Member::InterfacesAdded
    } else if name == "InterfacesRemoved"@ {
        Member::InterfacesRemoved
    } else if name == "PropertiesChanged"@ {
        Member::PropertiesChanged
    } else {
        Member::Other
    }
}

impl Member {
    pub fn of(name: &str) -> (r: Member)
        ensures
            r == member_named(name@),
    {
        if same(name, "NameOwnerChanged") {
            Member::NameOwnerChanged
        } else if same(name, "InterfacesAdded") {
            Member::InterfacesAdded
        } else if same(name, "InterfacesRemoved") {
            Member::InterfacesRemoved
        } else if same(name, "PropertiesChanged") {
            Member::PropertiesChanged
        } else {
            Member::Other
        }
    }
}

/// A signal with what it carries.
#[derive(Debug)]
pub enum Signal {
    /// BlueZ came or went.
    Owner,
    Added { path: String, interfaces: Vec<Added> },
    Removed { path: String, names: Vec<String> },
    Changed { path: String, interface: String, props: Props },
    /// Another signal, or one that does not carry what it should.
    Other,
}

/// What a signal makes of the tree, and how far that reached.
pub open spec fn applied(tree: TreeView, signal: Signal) -> (TreeView, Change) {
    match signal {
        Signal::Owner => (tree, Change::Restart),
        Signal::Added { path, interfaces } => added(tree, path@, in_line(interfaces@)),
        Signal::Removed { path, names } => removed(tree, path@, texts(names@)),
        Signal::Changed { path, interface, props } => merged(tree, path@, interface@, props),
        Signal::Other => (tree, Change::Ignore),
    }
}

impl Snapshot {
    fn drop_devices(&mut self, path: &str) -> (r: Change)
        ensures
            final(self).adapter == old(self).adapter,
            final(self)@.devices == without(old(self)@.devices, path@),
            r == removal(old(self)@.devices, path@),
    {
        let ghost all = self@.devices;
        let ghost devices = self.devices@;
        let mut rest: Vec<Device> = Vec::new();
        core::mem::swap(&mut rest, &mut self.devices);
        let mut kept: Vec<Device> = Vec::new();
        let mut change = Change::Ignore;
        let ghost mut k: int = 0;
        assert(device_views(kept@) =~= Seq::empty());
        assert(devices.skip(0) =~= devices);
        while rest.len() > 0
            invariant
                0 <= k <= devices.len(),
                all == device_views(devices),
                rest@ == devices.skip(k),
                device_views(kept@) == without(all.take(k), path@),
                change == removal(all.take(k), path@),
            decreases rest@.len(),
        {
            let device = rest.remove(0);
            proof {
                assert(device == devices[k]);
                assert(rest@ =~= devices.skip(k + 1));
                assert(all.take(k + 1).drop_last() =~= all.take(k));
                assert(all.take(k + 1).last() == device@);
                k = k + 1;
            }
            if same(device.path.as_str(), path) {
                change = loudest(change, device_change(device.connected));
            } else {
                let ghost before = kept@;
                kept.push(device);
                assert(device_views(kept@) =~= device_views(before).push(device@));
            }
        }
        assert(all.take(k) =~= all);
        self.devices = kept;
        change
    }

    fn drop_interface(&mut self, path: &str, interface: &str) -> (r: Change)
        ensures
            (final(self)@, r) == removed_one(old(self)@, path@, interface@),
    {
        let ghost before = self@;
        if same(interface, IF_DEVICE) {
            self.drop_devices(path)
        } else if same(interface, IF_BATTERY) {
            match self.find(path) {
                Some(i) => {
                    if self.devices[i].battery.is_some() {
                        self.devices[i].battery = None;
                        assert(self@.devices =~= before.devices.update(
                            i as int,
                            DeviceView { battery: None, ..before.devices[i as int] },
                        ));
                        device_change(self.devices[i].connected)
                    } else {
                        Change::Ignore
                    }
                },
                None => Change::Ignore,
            }
        } else if same(interface, IF_ADAPTER) {
            let ours = match &self.adapter {
                Some(adapter) => same(adapter.path.as_str(), path),
                None => false,
            };
            if ours {
                self.adapter = None;
                self.devices = Vec::new();
                assert(self@.devices =~= Seq::empty());
                Change::Patch
            } else {
                Change::Ignore
            }
        } else {
            Change::Ignore
        }
    }

    /// Apply one signal to the tree, and report how far the change reached.
    pub fn apply(&mut self, signal: Signal) -> (r: Change)
        ensures
            (final(self)@, r) == applied(old(self)@, signal),
    {
        let ghost before = self@;
        match signal {
            Signal::Owner => Change::Restart,
            Signal::Added { path, interfaces } => {
                let line = sort(interfaces);
                let ghost all = line@;
                let mut change = Change::Ignore;
                let mut i: usize = 0;
                while i < line.len()
                    invariant
                        i <= line@.len(),
                        all == line@,
                        (self@, change) == added(before, path@, all.take(i as int)),
                    decreases line@.len() - i,
                {
                    proof {
                        assert(all.take(i + 1).drop_last() =~= all.take(i as int));
                        assert(all.take(i + 1).last() == all[i as int]);
                    }
                    let reach = self.merge(
                        path.as_str(),
                        line[i].interface.as_str(),
                        &line[i].props,
                    );
                    change = loudest(change, reach);
                    i += 1;
                }
                assert(all.take(i as int) =~= all);
                change
            },
            Signal::Removed { path, names } => {
                let ghost all = texts(names@);
                let mut change = Change::Ignore;
                let mut i: usize = 0;
                while i < names.len()
                    invariant
                        i <= names@.len(),
                        all == texts(names@),
                        (self@, change) == removed(before, path@, all.take(i as int)),
                    decreases names@.len() - i,
                {
                    proof {
                        assert(all.take(i + 1).drop_last() =~= all.take(i as int));
                        assert(all.take(i + 1).last() == all[i as int]);
                    }
                    let reach = self.drop_interface(path.as_str(), names[i].as_str());
                    change = loudest(change, reach);
                    i += 1;
                }
                assert(all.take(i as int) =~= all);
                change
            },
            Signal::Changed { path, interface, props } => self.merge(
                path.as_str(),
                interface.as_str(),
                &props,
            ),
            Signal::Other => Change::Ignore,
        }
    }
}

} // verus!
