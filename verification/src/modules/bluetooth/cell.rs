//! What the bar redraws for.
use crate::dbus::Props;
use crate::modules::bluetooth::merge::{
    adapter_after, alias_in, device_after, device_reach, lemma_placed, loudness, merged, new_device,
    place, Change, IF_ADAPTER, IF_DEVICE,
};
use crate::modules::bluetooth::signal::{
    added, applied, removal, removed, removed_one, without, Added, Signal,
};
use crate::modules::bluetooth::tree::{
    connected, key_of, AdapterView, BarKey, DeviceView, Snapshot, TreeView,
};
use crate::order::in_line;
use crate::text::texts;
use vstd::prelude::*;

verus! {

/// Which snapshots reach the bar.
#[derive(Debug, Clone)]
pub struct Gate {
    pub drawn: Option<BarKey>,
}

impl Gate {
    pub fn new() -> (r: Gate)
        ensures
            r.drawn is None,
    {
        Gate { drawn: None }
    }

    /// Whether a snapshot is to be sent: every one while the popup is on
    /// screen, else unless the cell would look as it already does.
    pub fn passes(&mut self, snapshot: &Snapshot, detailed: bool) -> (r: bool)
        ensures
            r == (detailed || old(self).drawn != Some(key_of(snapshot@))),
            final(self).drawn == Some(key_of(snapshot@)),
    {
        let key = snapshot.bar_key();
        let same = match &self.drawn {
            Some(drawn) => drawn.is(&key),
            None => false,
        };
        self.drawn = Some(key);
        detailed || !same
    }
}

/// What a change leaves to be done.
#[derive(Debug, Clone, Copy, PartialEq, Eq, Structural)]
pub enum Next {
    /// Go on as before.
    Wait,
    /// Send a snapshot once no more signals come for a while.
    Settle,
    /// Every object path is stale: end the session.
    End,
}

/// What a change calls for, with the popup on screen or not.
pub fn next(change: Change, detailed: bool) -> (r: Next)
    ensures
        r == match change {
            Change::Ignore => Next::Wait,
            Change::Detail => if detailed {
                Next::Settle
            } else {
                Next::Wait
            },
            Change::Patch => Next::Settle,
            Change::Restart => Next::End,
        },
{
    match change {
        Change::Ignore => Next::Wait,
        Change::Detail => if detailed {
            Next::Settle
        } else {
            Next::Wait
        },
        Change::Patch => Next::Settle,
        Change::Restart => Next::End,
    }
}

/// A change that the bar cell cannot show.
pub open spec fn quiet(change: Change) -> bool {
    loudness(change) <= loudness(Change::Detail)
}

proof fn lemma_updated(devices: Seq<DeviceView>, i: int, d: DeviceView)
    requires
        0 <= i < devices.len(),
        d.connected == devices[i].connected,
        d.connected ==> d.battery == devices[i].battery,
    ensures
        connected(devices.update(i, d)) == connected(devices),
    decreases devices.len(),
{
    let after = devices.update(i, d);
    if i == devices.len() - 1 {
        assert(after.drop_last() =~= devices.drop_last());
    } else {
        lemma_updated(devices.drop_last(), i, d);
        assert(after.drop_last() =~= devices.drop_last().update(i, d));
    }
}

proof fn lemma_pushed(devices: Seq<DeviceView>, d: DeviceView)
    requires
        !d.connected,
    ensures
        connected(devices.push(d)) == connected(devices),
{
    assert(devices.push(d).drop_last() =~= devices);
}

proof fn lemma_without(devices: Seq<DeviceView>, path: Seq<char>)
    requires
        quiet(removal(devices, path)),
    ensures
        connected(without(devices, path)) == connected(devices),
    decreases devices.len(),
{
    if devices.len() > 0 {
        let most = devices.drop_last();
        lemma_without(most, path);
        if devices.last().path != path {
            let before = without(most, path);
            assert(before.push(devices.last()).drop_last() =~= before);
        }
    }
}

proof fn lemma_quiet_merge(tree: TreeView, path: Seq<char>, interface: Seq<char>, props: Props)
    requires
        quiet(merged(tree, path, interface, props).1),
    ensures
        key_of(merged(tree, path, interface, props).0) == key_of(tree),
{
    lemma_placed(tree.devices, path);
    let (after, change) = merged(tree, path, interface, props);
    if after.devices != tree.devices {
        match place(tree.devices, path) {
            Some(i) => {
                lemma_updated(tree.devices, i, after.devices[i]);
            },
            None => {
                lemma_pushed(tree.devices, device_after(new_device(path), props));
            },
        }
    }
}

proof fn lemma_quiet_removal(tree: TreeView, path: Seq<char>, interface: Seq<char>)
    requires
        quiet(removed_one(tree, path, interface).1),
    ensures
        key_of(removed_one(tree, path, interface).0) == key_of(tree),
{
    let (after, change) = removed_one(tree, path, interface);
    lemma_placed(tree.devices, path);
    if interface == IF_DEVICE@ {
        lemma_without(tree.devices, path);
    } else if after.devices != tree.devices {
        let i = place(tree.devices, path)->0;
        lemma_updated(tree.devices, i, after.devices[i]);
    }
}

proof fn lemma_quiet_additions(
    tree: TreeView,
    path: Seq<char>,
    interfaces: Seq<Added>,
)
    requires
        quiet(added(tree, path, interfaces).1),
    ensures
        key_of(added(tree, path, interfaces).0) == key_of(tree),
    decreases interfaces.len(),
{
    if interfaces.len() > 0 {
        let last = interfaces.last();
        lemma_quiet_additions(tree, path, interfaces.drop_last());
        lemma_quiet_merge(
            added(tree, path, interfaces.drop_last()).0,
            path,
            last.interface@,
            last.props,
        );
    }
}

proof fn lemma_quiet_removals(tree: TreeView, path: Seq<char>, interfaces: Seq<Seq<char>>)
    requires
        quiet(removed(tree, path, interfaces).1),
    ensures
        key_of(removed(tree, path, interfaces).0) == key_of(tree),
    decreases interfaces.len(),
{
    if interfaces.len() > 0 {
        lemma_quiet_removals(tree, path, interfaces.drop_last());
        lemma_quiet_removal(
            removed(tree, path, interfaces.drop_last()).0,
            path,
            interfaces.last(),
        );
    }
}

/// A signal that is not reported as reaching the cell leaves the cell as it was.
pub proof fn law_quiet_signals_leave_the_cell(tree: TreeView, signal: Signal)
    requires
        quiet(applied(tree, signal).1),
    ensures
        key_of(applied(tree, signal).0) == key_of(tree),
{
    match signal {
        Signal::Added { path, interfaces } => {
            lemma_quiet_additions(tree, path@, in_line(interfaces@));
        },
        Signal::Removed { path, names } => {
            lemma_quiet_removals(tree, path@, texts(names@));
        },
        Signal::Changed { path, interface, props } => {
            lemma_quiet_merge(tree, path@, interface@, props);
        },
        _ => {},
    }
}

/// No two devices have one path.
pub open spec fn distinct(devices: Seq<DeviceView>) -> bool {
    forall|i: int, j: int|
        0 <= i < j < devices.len() ==> (#[trigger] devices[i]).path != (#[trigger] devices[j]).path
}

proof fn lemma_distinct_merge(tree: TreeView, path: Seq<char>, interface: Seq<char>, props: Props)
    requires
        distinct(tree.devices),
    ensures
        distinct(merged(tree, path, interface, props).0.devices),
{
    lemma_placed(tree.devices, path);
}

proof fn lemma_without_within(devices: Seq<DeviceView>, path: Seq<char>)
    requires
        distinct(devices),
    ensures
        distinct(without(devices, path)),
        forall|i: int|
            0 <= i < without(devices, path).len() ==> devices.contains(
                #[trigger] without(devices, path)[i],
            ),
    decreases devices.len(),
{
    if devices.len() > 0 {
        let most = devices.drop_last();
        let kept = without(most, path);
        let all = without(devices, path);
        lemma_without_within(most, path);
        assert forall|i: int| 0 <= i < kept.len() implies exists|k: int|
            0 <= k < most.len() && devices[k] == #[trigger] kept[i] by {
            assert(most.contains(kept[i]));
            let k = choose|k: int| 0 <= k < most.len() && most[k] == kept[i];
            assert(devices[k] == kept[i]);
        }
        assert(devices[devices.len() - 1] == devices.last());
        assert forall|i: int| 0 <= i < all.len() implies devices.contains(#[trigger] all[i]) by {
            if i < kept.len() {
                assert(all[i] == kept[i]);
            }
        }
    }
}

proof fn lemma_distinct_additions(
    tree: TreeView,
    path: Seq<char>,
    interfaces: Seq<Added>,
)
    requires
        distinct(tree.devices),
    ensures
        distinct(added(tree, path, interfaces).0.devices),
    decreases interfaces.len(),
{
    if interfaces.len() > 0 {
        let last = interfaces.last();
        lemma_distinct_additions(tree, path, interfaces.drop_last());
        lemma_distinct_merge(
            added(tree, path, interfaces.drop_last()).0,
            path,
            last.interface@,
            last.props,
        );
    }
}

proof fn lemma_distinct_removals(tree: TreeView, path: Seq<char>, interfaces: Seq<Seq<char>>)
    requires
        distinct(tree.devices),
    ensures
        distinct(removed(tree, path, interfaces).0.devices),
    decreases interfaces.len(),
{
    if interfaces.len() > 0 {
        lemma_distinct_removals(tree, path, interfaces.drop_last());
        let before = removed(tree, path, interfaces.drop_last()).0;
        lemma_placed(before.devices, path);
        lemma_without_within(before.devices, path);
    }
}

/// Every signal leaves each path to one device at most.
pub proof fn law_one_device_per_path(tree: TreeView, signal: Signal)
    requires
        distinct(tree.devices),
    ensures
        distinct(applied(tree, signal).0.devices),
{
    match signal {
        Signal::Added { path, interfaces } => {
            lemma_distinct_additions(tree, path@, in_line(interfaces@));
        },
        Signal::Removed { path, names } => {
            lemma_distinct_removals(tree, path@, texts(names@));
        },
        Signal::Changed { path, interface, props } => {
            lemma_distinct_merge(tree, path@, interface@, props);
        },
        _ => {},
    }
}

/// Properties that a signal does not tell of keep their values; and a signal
/// that tells of none changes nothing of a device that goes by some name.
pub proof fn law_missing_properties_are_kept(d: DeviceView, a: AdapterView, props: Props)
    ensures
        props.bool_at("Connected"@) is None ==> device_after(d, props).connected == d.connected,
        props.bool_at("Paired"@) is None ==> device_after(d, props).paired == d.paired,
        props.text_at("Address"@) is None ==> device_after(d, props).address == d.address,
        props.text_at("Icon"@) is None ==> device_after(d, props).icon == d.icon,
        props.i16_at("RSSI"@) is None ==> device_after(d, props).rssi == d.rssi,
        device_after(d, props).battery == d.battery,
        device_after(d, props).path == d.path,
        alias_in(props) is None && props.text_at("Address"@) is None && d.name.len() > 0
            ==> device_after(d, props).name == d.name,
        props.entries@.len() == 0 && d.name.len() > 0 ==> device_after(d, props) == d
            && device_reach(d, false, props) == Change::Ignore,
        props.bool_at("Powered"@) is None ==> adapter_after(a, props).powered == a.powered,
        props.bool_at("Discovering"@) is None ==> adapter_after(a, props).discovering
            == a.discovering,
        alias_in(props) is None ==> adapter_after(a, props).alias == a.alias,
        props.text_at("Address"@) is None ==> adapter_after(a, props).address == a.address,
{
}

/// A device without a name goes by its address.
pub open spec fn all_named(devices: Seq<DeviceView>) -> bool {
    forall|i: int|
        0 <= i < devices.len() ==> (#[trigger] devices[i]).name.len() > 0
            || devices[i].address.len() == 0
}

proof fn lemma_merge(tree: TreeView, path: Seq<char>, interface: Seq<char>, props: Props)
    requires
        all_named(tree.devices),
    ensures
        all_named(merged(tree, path, interface, props).0.devices),
        merged(tree, path, interface, props).1 == Change::Ignore ==> merged(
            tree,
            path,
            interface,
            props,
        ).0 == tree,
{
    let (after, change) = merged(tree, path, interface, props);
    lemma_placed(tree.devices, path);
    if interface == IF_ADAPTER@ {
    } else if change == Change::Ignore {
        if let Some(i) = place(tree.devices, path) {
            let d = tree.devices[i];
            assert(d.name.len() == 0 ==> d.name =~= d.address);
            assert(after.devices[i] == d);
        }
        assert(after.devices =~= tree.devices);
    }
}

proof fn lemma_additions(tree: TreeView, path: Seq<char>, interfaces: Seq<Added>)
    requires
        all_named(tree.devices),
    ensures
        all_named(added(tree, path, interfaces).0.devices),
        added(tree, path, interfaces).1 == Change::Ignore ==> added(tree, path, interfaces).0
            == tree,
    decreases interfaces.len(),
{
    if interfaces.len() > 0 {
        let last = interfaces.last();
        lemma_additions(tree, path, interfaces.drop_last());
        lemma_merge(
            added(tree, path, interfaces.drop_last()).0,
            path,
            last.interface@,
            last.props,
        );
    }
}

proof fn lemma_nothing_dropped(devices: Seq<DeviceView>, path: Seq<char>)
    ensures
        removal(devices, path) == Change::Ignore ==> without(devices, path) == devices,
        all_named(devices) ==> all_named(without(devices, path)),
    decreases devices.len(),
{
    if devices.len() > 0 {
        let most = devices.drop_last();
        lemma_nothing_dropped(most, path);
        assert(devices =~= most.push(devices.last()));
        if all_named(devices) {
            assert forall|i: int| 0 <= i < most.len() implies (#[trigger] most[i]).name.len() > 0
                || most[i].address.len() == 0 by {
                assert(most[i] == devices[i]);
            }
            assert(devices[devices.len() - 1] == devices.last());
        }
    }
}

proof fn lemma_removals(tree: TreeView, path: Seq<char>, interfaces: Seq<Seq<char>>)
    requires
        all_named(tree.devices),
    ensures
        all_named(removed(tree, path, interfaces).0.devices),
        removed(tree, path, interfaces).1 == Change::Ignore ==> removed(tree, path, interfaces).0
            == tree,
    decreases interfaces.len(),
{
    if interfaces.len() > 0 {
        lemma_removals(tree, path, interfaces.drop_last());
        let before = removed(tree, path, interfaces.drop_last()).0;
        lemma_placed(before.devices, path);
        lemma_nothing_dropped(before.devices, path);
    }
}

/// Every device of a tree goes by some name that it has, whatever signals have
/// made of a tree without devices.
pub proof fn law_devices_go_by_a_name(tree: TreeView, signal: Signal)
    ensures
        all_named(Seq::empty()),
        all_named(tree.devices) ==> all_named(applied(tree, signal).0.devices),
{
    if all_named(tree.devices) {
        match signal {
            Signal::Added { path, interfaces } => {
                lemma_additions(tree, path@, in_line(interfaces@));
            },
            Signal::Removed { path, names } => {
                lemma_removals(tree, path@, texts(names@));
            },
            Signal::Changed { path, interface, props } => {
                lemma_merge(tree, path@, interface@, props);
            },
            _ => {},
        }
    }
}

/// A signal that is ignored leaves the whole tree as it was; so whenever the
/// tree changes, something is reported.
pub proof fn law_ignored_signals_change_nothing(tree: TreeView, signal: Signal)
    requires
        all_named(tree.devices),
        applied(tree, signal).1 == Change::Ignore,
    ensures
        applied(tree, signal).0 == tree,
{
    match signal {
        Signal::Added { path, interfaces } => {
            lemma_additions(tree, path@, in_line(interfaces@));
        },
        Signal::Removed { path, names } => {
            lemma_removals(tree, path@, texts(names@));
        },
        Signal::Changed { path, interface, props } => {
            lemma_merge(tree, path@, interface@, props);
        },
        _ => {},
    }
}

/// What a merge reports is what it changed: nothing where it is ignored, nothing
/// that the cell draws where it is a detail; so a change of the cell is always
/// a patch.
pub proof fn law_merges_report_what_they_change(
    tree: TreeView,
    path: Seq<char>,
    interface: Seq<char>,
    props: Props,
)
    requires
        all_named(tree.devices),
    ensures
        ({
            let (after, change) = merged(tree, path, interface, props);
            &&& all_named(after.devices)
            &&& change == Change::Ignore ==> after == tree
            &&& change == Change::Detail ==> key_of(after) == key_of(tree)
            &&& key_of(after) != key_of(tree) ==> change == Change::Patch
        }),
{
    lemma_merge(tree, path, interface, props);
    if quiet(merged(tree, path, interface, props).1) {
        lemma_quiet_merge(tree, path, interface, props);
    }
}

} // verus!
