//! What holds of what the bluetooth module shows, and of what it asks for.
use crate::dbus::Props;
use crate::modules::bluetooth::merge::{
    device_after, merged, new_adapter, new_device, place, Change,
};
use crate::modules::bluetooth::signal::{
    applied, member_named, order_of, removed_one, without, Member, Signal,
};
use crate::modules::bluetooth::state::{
    call_for, call_view, drawn, follows, icon_for, readings_text, row_of, row_views, rows_of,
    section_of, shows_popup, Call, Cell, Effects, Event, Popup, Row, RowView, Section, State,
};
use crate::modules::bluetooth::tree::{
    connected, device_views, key_of, law_the_worst_battery_is_shown, lowest, tier, Adapter, BarKey,
    Device, DeviceView, Snapshot, TreeView,
};
use crate::number::{decimal, signed_decimal};
use crate::order::{in_line, law_sorting_sorts, orders_by_key, sorted, Ranked};
use crate::text::{
    lemma_text_order_total, lemma_text_order_transitive, lowercase, opt_text, text_before,
};
use vstd::prelude::*;
use vstd::string::*;

verus! {

/// What is asked of the service is what was pressed: a device is connected,
/// disconnected or paired as the event says and by its own path, the adapter's
/// power and scan are set as asked, and each call comes of its own kind of
/// event only.
pub proof fn law_calls_do_what_was_pressed(s: State, event: Event, t: State, r: Effects)
    requires
        follows(s, event, t),
        call_view(r.call) == call_for(s, event),
    ensures
        r.call matches Some(Call::Connect(_)) <==> event is Connect,
        r.call matches Some(Call::Disconnect(_)) <==> event is Disconnect,
        r.call matches Some(Call::Pair(_)) <==> event is Pair,
        r.call matches Some(Call::Terminal(_)) <==> event is Terminal,
        event matches Event::Connect(device) ==> (r.call matches Some(Call::Connect(d)) && d@
            == device@ && opt_text(t.busy) == Some(device@) && t.error is None),
        event matches Event::Disconnect(device) ==> (r.call matches Some(Call::Disconnect(d)) && d@
            == device@ && opt_text(t.busy) == Some(device@) && t.error is None),
        event matches Event::Pair(device) ==> (r.call matches Some(Call::Pair(d)) && d@ == device@
            && opt_text(t.busy) == Some(device@) && t.error is None),
        event matches Event::Terminal(terminal) ==> (r.call matches Some(Call::Terminal(w)) && w@
            == terminal@),
        event is Terminal ==> t == s,
        event is Snapshot || event is Unavailable || event is Done ==> r.call is None,
{
}

/// The adapter's power and scan are set on the adapter there is, the way it was
/// asked; to toggle the power is to turn it over. Without an adapter nothing is
/// asked.
pub proof fn law_the_adapter_is_set_as_it_was_asked(s: State, event: Event, t: State, r: Effects)
    requires
        follows(s, event, t),
        call_view(r.call) == call_for(s, event),
    ensures
        ({
            let adapter = match s.snapshot {
                Some(snapshot) => snapshot.adapter,
                None => None,
            };
            &&& event is SetPowered || event is TogglePowered || event is SetDiscovering ==> (
            r.call is Some <==> adapter is Some)
            &&& adapter is None && (event is SetPowered || event is TogglePowered
                || event is SetDiscovering) ==> t == s
            &&& adapter matches Some(a) ==> {
                &&& event matches Event::SetPowered(on) ==> (r.call matches Some(
                    Call::SetPowered { adapter: path, powered },
                ) && path@ == a.path@ && powered == on && opt_text(t.busy) == Some(a.path@))
                &&& event is TogglePowered ==> (r.call matches Some(
                    Call::SetPowered { adapter: path, powered },
                ) && path@ == a.path@ && powered != a.powered && opt_text(t.busy) == Some(a.path@))
                &&& event matches Event::SetDiscovering(on) ==> (r.call matches Some(
                    Call::SetDiscovering { adapter: path, discovering },
                ) && path@ == a.path@ && discovering == on && opt_text(t.busy) == Some(a.path@))
            }
            &&& r.call matches Some(Call::SetPowered { .. }) ==> event is SetPowered
                || event is TogglePowered
            &&& r.call matches Some(Call::SetDiscovering { .. }) ==> event is SetDiscovering
        }),
{
}

/// What was read is shown, a service that is gone takes its call along, and a
/// reply says how the call went and frees its own row only.
pub proof fn law_events_change_what_they_tell_of(s: State, event: Event, t: State)
    requires
        follows(s, event, t),
    ensures
        event matches Event::Snapshot(snapshot) ==> t.snapshot == Some(snapshot) && t.available
            && t.busy == s.busy && t.error == s.error,
        event is Unavailable ==> !t.available && t.busy is None && t.snapshot == s.snapshot
            && t.error == s.error,
        event matches Event::Done { subject, result } ==> {
            &&& t.snapshot == s.snapshot && t.available == s.available
            &&& result is Ok ==> t.error is None
            &&& result matches Err(error) ==> t.error == Some(error)
            &&& subject is None ==> t.busy is None
            &&& subject matches Some(path) ==> (match s.busy {
                Some(busy) => if busy@ == path@ {
                    t.busy is None
                } else {
                    t.busy == s.busy
                },
                None => t.busy is None,
            })
        },
        !(event is Snapshot) ==> t.snapshot == s.snapshot,
        !(event is Snapshot || event is Unavailable) ==> t.available == s.available,
{
}

/// Every device has its row where it belongs, under its own path, and no row
/// stands for a device that is not there.
pub proof fn law_devices_are_listed_where_they_belong(
    s: State,
    snapshot: Snapshot,
    adapter: Adapter,
    p: Popup,
)
    requires
        shows_popup(s, snapshot, adapter, p),
        adapter.powered,
    ensures
        forall|i: int|
            0 <= i < p.connected@.len() ==> stands_for(
                snapshot.devices@,
                (#[trigger] p.connected@[i]).path@,
                |d: Device| d.connected,
            ),
        forall|i: int|
            0 <= i < p.paired@.len() ==> stands_for(
                snapshot.devices@,
                (#[trigger] p.paired@[i]).path@,
                |d: Device| !d.connected && d.paired,
            ),
        forall|i: int|
            0 <= i < p.nearby@.len() ==> stands_for(
                snapshot.devices@,
                (#[trigger] p.nearby@[i]).path@,
                |d: Device| !d.connected && !d.paired,
            ),
        forall|k: int|
            0 <= k < snapshot.devices@.len() && (#[trigger] snapshot.devices@[k]).connected
                ==> has_row(s, snapshot.devices@[k], p.connected@),
        forall|k: int|
            0 <= k < snapshot.devices@.len() && !(#[trigger] snapshot.devices@[k]).connected
                && snapshot.devices@[k].paired ==> has_row(s, snapshot.devices@[k], p.paired@),
        forall|k: int|
            0 <= k < snapshot.devices@.len() && !(#[trigger] snapshot.devices@[k]).connected
                && !snapshot.devices@[k].paired && p.more == 0 ==> has_row(
                s,
                snapshot.devices@[k],
                p.nearby@,
            ),
        p.connected@.len() + p.paired@.len() + p.nearby@.len() + p.more == snapshot.devices@.len(),
        p.nearby@.len() <= 6,
        p.more > 0 ==> p.nearby@.len() == 6,
        p.scanning <==> p.nearby@.len() == 0 && adapter.discovering,
{
    let busy = opt_text(s.busy);
    let devices = snapshot@.devices;
    lemma_rows(devices, busy, Section::Connected);
    lemma_rows(devices, busy, Section::Paired);
    lemma_rows(devices, busy, Section::Nearby);
    lemma_rows_add_up(devices, busy);
    let nearby = rows_of(devices, busy, Section::Nearby);
    assert(row_views(p.connected@).len() == p.connected@.len());
    assert(row_views(p.paired@).len() == p.paired@.len());
    assert(row_views(p.nearby@).len() == p.nearby@.len());
    assert(devices.len() == snapshot.devices@.len());
    assert forall|i: int| 0 <= i < p.connected@.len() implies stands_for(
        snapshot.devices@,
        (#[trigger] p.connected@[i]).path@,
        |d: Device| d.connected,
    ) by {
        let row = rows_of(devices, busy, Section::Connected)[i];
        assert(row_views(p.connected@)[i] == p.connected@[i]@);
        let k = choose|k: int|
            0 <= k < devices.len() && row == row_of(busy, #[trigger] devices[k]) && section_of(
                devices[k],
            ) == Section::Connected;
        assert(devices[k] == snapshot.devices@[k]@);
    }
    assert forall|i: int| 0 <= i < p.paired@.len() implies stands_for(
        snapshot.devices@,
        (#[trigger] p.paired@[i]).path@,
        |d: Device| !d.connected && d.paired,
    ) by {
        let row = rows_of(devices, busy, Section::Paired)[i];
        assert(row_views(p.paired@)[i] == p.paired@[i]@);
        let k = choose|k: int|
            0 <= k < devices.len() && row == row_of(busy, #[trigger] devices[k]) && section_of(
                devices[k],
            ) == Section::Paired;
        assert(devices[k] == snapshot.devices@[k]@);
    }
    assert forall|i: int| 0 <= i < p.nearby@.len() implies stands_for(
        snapshot.devices@,
        (#[trigger] p.nearby@[i]).path@,
        |d: Device| !d.connected && !d.paired,
    ) by {
        let row = nearby[i];
        assert(row_views(p.nearby@)[i] == p.nearby@[i]@);
        let k = choose|k: int|
            0 <= k < devices.len() && row == row_of(busy, #[trigger] devices[k]) && section_of(
                devices[k],
            ) == Section::Nearby;
        assert(devices[k] == snapshot.devices@[k]@);
    }
    assert forall|k: int|
        0 <= k < snapshot.devices@.len() && (#[trigger] snapshot.devices@[k]).connected implies has_row(
        s,
        snapshot.devices@[k],
        p.connected@,
    ) by {
        assert(devices[k] == snapshot.devices@[k]@);
        lemma_shown(s, snapshot.devices@[k], p.connected@, rows_of(devices, busy, Section::Connected));
    }
    assert forall|k: int|
        0 <= k < snapshot.devices@.len() && !(#[trigger] snapshot.devices@[k]).connected
            && snapshot.devices@[k].paired implies has_row(s, snapshot.devices@[k], p.paired@) by {
        assert(devices[k] == snapshot.devices@[k]@);
        lemma_shown(s, snapshot.devices@[k], p.paired@, rows_of(devices, busy, Section::Paired));
    }
    assert forall|k: int|
        0 <= k < snapshot.devices@.len() && !(#[trigger] snapshot.devices@[k]).connected
            && !snapshot.devices@[k].paired && p.more == 0 implies has_row(
        s,
        snapshot.devices@[k],
        p.nearby@,
    ) by {
        assert(devices[k] == snapshot.devices@[k]@);
        lemma_shown(s, snapshot.devices@[k], p.nearby@, nearby);
    }
}

/// Whether a path is that of a device of which something holds.
pub open spec fn stands_for(devices: Seq<Device>, path: Seq<char>, holds: spec_fn(Device) -> bool) -> bool {
    exists|k: int| 0 <= k < devices.len() && (#[trigger] devices[k]).path@ == path && holds(devices[k])
}

/// Whether a row is the device's own: it goes by the device's path and name, and
/// its button waits while a call on the device is in flight.
pub open spec fn is_row(s: State, d: Device, row: Row) -> bool {
    &&& row.path@ == d.path@
    &&& 0 < d.name@.len() <= 18 ==> row.name@ == d.name@
    &&& d.name@.len() == 0 && d.address@.len() <= 18 ==> row.name@ == d.address@
    &&& row.idle <==> opt_text(s.busy) != Some(d.path@)
    &&& row.low is Some <==> d.battery is Some && d.battery->0 <= 35
    &&& row.low == Some(2u8) <==> d.battery is Some && d.battery->0 <= 20
    &&& row.readings@.len() == 0 <==> d.battery is None && d.rssi is None
}

/// Whether a device has a row of its own.
pub open spec fn has_row(s: State, d: Device, rows: Seq<Row>) -> bool {
    exists|i: int| 0 <= i < rows.len() && is_row(s, d, #[trigger] rows[i])
}

proof fn lemma_shown(s: State, d: Device, rows: Seq<Row>, views: Seq<RowView>)
    requires
        row_views(rows) == views,
        views.contains(row_of(opt_text(s.busy), d@)),
    ensures
        has_row(s, d, rows),
{
    let row = row_of(opt_text(s.busy), d@);
    let i = choose|i: int| 0 <= i < views.len() && views[i] == row;
    assert(row_views(rows)[i] == rows[i]@);
    reveal_strlit("%");
    reveal_strlit("dBm");
    assert(rows[i].readings@ == readings_text(d.battery, d.rssi));
    assert(d@.battery == d.battery && d@.rssi == d.rssi);
    assert(is_row(s, d, rows[i]));
}

proof fn lemma_rows(devices: Seq<DeviceView>, busy: Option<Seq<char>>, section: Section)
    ensures
        forall|i: int|
            0 <= i < rows_of(devices, busy, section).len() ==> exists|k: int|
                0 <= k < devices.len() && #[trigger] rows_of(devices, busy, section)[i] == row_of(
                    busy,
                    #[trigger] devices[k],
                ) && section_of(devices[k]) == section,
        forall|k: int|
            0 <= k < devices.len() && section_of(#[trigger] devices[k]) == section ==> rows_of(
                devices,
                busy,
                section,
            ).contains(row_of(busy, devices[k])),
    decreases devices.len(),
{
    if devices.len() > 0 {
        let before = devices.drop_last();
        lemma_rows(before, busy, section);
        let rows = rows_of(before, busy, section);
        let all = rows_of(devices, busy, section);
        assert forall|i: int| 0 <= i < all.len() implies exists|k: int|
            0 <= k < devices.len() && #[trigger] all[i] == row_of(busy, #[trigger] devices[k])
                && section_of(devices[k]) == section by {
            if i < rows.len() {
                assert(all[i] == rows[i]);
                let k = choose|k: int|
                    0 <= k < before.len() && rows[i] == row_of(busy, #[trigger] before[k])
                        && section_of(before[k]) == section;
                assert(devices[k] == before[k]);
            } else {
                assert(devices[devices.len() - 1] == devices.last());
            }
        }
        assert forall|k: int|
            0 <= k < devices.len() && section_of(#[trigger] devices[k]) == section implies all.contains(
        row_of(busy, devices[k])) by {
            if k < before.len() {
                assert(before[k] == devices[k]);
                let i = choose|i: int| 0 <= i < rows.len() && rows[i] == row_of(busy, before[k]);
                assert(all[i] == rows[i]);
            } else {
                assert(all[all.len() - 1] == row_of(busy, devices[k]));
            }
        }
    }
}

proof fn lemma_rows_add_up(devices: Seq<DeviceView>, busy: Option<Seq<char>>)
    ensures
        rows_of(devices, busy, Section::Connected).len() + rows_of(
            devices,
            busy,
            Section::Paired,
        ).len() + rows_of(devices, busy, Section::Nearby).len() == devices.len(),
    decreases devices.len(),
{
    if devices.len() > 0 {
        lemma_rows_add_up(devices.drop_last(), busy);
    }
}

/// The popup shows the adapter it is of, and waits for the call on it.
pub proof fn law_the_popup_shows_its_adapter(
    s: State,
    snapshot: Snapshot,
    adapter: Adapter,
    p: Popup,
)
    requires
        shows_popup(s, snapshot, adapter, p),
    ensures
        p.powered == adapter.powered,
        p.discovering == adapter.discovering,
        adapter.alias@.len() > 0 ==> p.title@ == adapter.alias@ && opt_text(p.address) == Some(
            adapter.address@,
        ),
        adapter.alias@.len() == 0 ==> p.title@ == adapter.address@ && p.address is None,
        p.idle <==> opt_text(s.busy) != Some(adapter.path@),
        opt_text(p.error) == opt_text(s.error),
        !adapter.powered ==> p.connected@.len() == 0 && p.paired@.len() == 0 && p.nearby@.len() == 0
            && p.more == 0 && !p.scanning,
{
}

/// The cell is hidden without an adapter and dim with nothing connected, counts
/// what is connected, and shows the lowest battery of it.
pub proof fn law_the_cell_counts_what_is_connected(tree: Snapshot)
    ensures
        key_of(tree@) is Hidden <==> tree.adapter is None,
        key_of(tree@) is Off <==> tree.adapter is Some && !tree.adapter->0.powered,
        key_of(tree@) matches BarKey::On { connected: n, battery } ==> {
            &&& n == tree.devices@.filter(|d: Device| d.connected).len()
            &&& battery matches Some((b, tier)) ==> {
                &&& exists|i: int|
                    0 <= i < tree.devices@.len() && (#[trigger] tree.devices@[i]).connected
                        && tree.devices@[i].battery == Some(b)
                &&& forall|i: int|
                    0 <= i < tree.devices@.len() && (#[trigger] tree.devices@[i]).connected ==> (
                    tree.devices@[i].battery matches Some(other) ==> b <= other)
                &&& tier == if b <= 20 {
                    2u8
                } else if b <= 35 {
                    1u8
                } else {
                    0u8
                }
            }
            &&& battery is None ==> forall|i: int|
                0 <= i < tree.devices@.len() && (#[trigger] tree.devices@[i]).connected
                    ==> tree.devices@[i].battery is None
        },
{
    lemma_counted(tree.devices@);
    lemma_connected(tree.devices@);
    law_the_worst_battery_is_shown(connected(device_views(tree.devices@)));
    let batteries = connected(device_views(tree.devices@));
    assert(tree.devices.len() == tree.devices@.len());
    if key_of(tree@) is On {
        match lowest(batteries) {
            Some(b) => {
                let j = choose|j: int| 0 <= j < batteries.len() && batteries[j] == Some(b);
                assert(is_of(batteries[j], tree.devices@));
            },
            None => {},
        }
    }
}

proof fn lemma_counted(devices: Seq<Device>)
    ensures
        connected(device_views(devices)).len() == devices.filter(|d: Device| d.connected).len(),
        connected(device_views(devices)).len() <= devices.len(),
    decreases devices.len(),
{
    reveal_with_fuel(Seq::filter, 2);
    if devices.len() > 0 {
        let before = devices.drop_last();
        lemma_counted(before);
        assert(device_views(devices).drop_last() =~= device_views(before));
        assert(device_views(devices).last() == devices.last()@);
    }
}

/// The readings of what is connected are those of devices that are.
spec fn all_of(batteries: Seq<Option<u8>>, devices: Seq<Device>) -> bool {
    forall|j: int|
        0 <= j < batteries.len() ==> is_of(#[trigger] batteries[j], devices)
}

spec fn is_of(battery: Option<u8>, devices: Seq<Device>) -> bool {
    exists|i: int|
        0 <= i < devices.len() && (#[trigger] devices[i]).connected && devices[i].battery == battery
}

proof fn lemma_connected(devices: Seq<Device>)
    ensures
        all_of(connected(device_views(devices)), devices),
        forall|i: int|
            0 <= i < devices.len() && (#[trigger] devices[i]).connected ==> connected(
                device_views(devices),
            ).contains(devices[i].battery),
    decreases devices.len(),
{
    if devices.len() > 0 {
        let before = devices.drop_last();
        let all = connected(device_views(devices));
        let some = connected(device_views(before));
        lemma_connected(before);
        assert(device_views(devices).drop_last() =~= device_views(before));
        assert(device_views(devices).last() == devices.last()@);
        assert(devices[devices.len() - 1] == devices.last());
        assert forall|j: int| 0 <= j < all.len() implies is_of(#[trigger] all[j], devices) by {
            if j < some.len() {
                assert(all[j] == some[j]);
                assert(is_of(some[j], before));
                let i = choose|i: int|
                    0 <= i < before.len() && (#[trigger] before[i]).connected && before[i].battery
                        == some[j];
                assert(devices[i] == before[i]);
            }
        }
        assert forall|i: int|
            0 <= i < devices.len() && (#[trigger] devices[i]).connected implies all.contains(
            devices[i].battery,
        ) by {
            if i < before.len() {
                assert(before[i] == devices[i]);
                let j = choose|j: int| 0 <= j < some.len() && some[j] == before[i].battery;
                assert(all[j] == some[j]);
            } else {
                assert(all[all.len() - 1] == devices[i].battery);
            }
        }
    }
}

/// What the cell draws of it: no cell without an adapter, a count only past one,
/// lit only with something connected, and the battery with its percentage.
pub proof fn law_the_cell_draws_what_it_counted(key: BarKey, cell: Option<Cell>)
    requires
        match cell {
            Some(cell) => Some(cell@),
            None => None,
        } == drawn(key),
    ensures
        cell is None <==> key is Hidden,
        cell matches Some(c) ==> {
            &&& key is Off ==> c.glyph@ == "\u{f00b2}"@ && c.count@.len() == 0 && !c.lit
                && c.battery is None
            &&& key matches BarKey::On { connected: n, battery } ==> {
                &&& c.lit <==> n > 0
                &&& c.count@ == if n > 1 {
                    decimal(n as nat)
                } else {
                    Seq::empty()
                }
                &&& n == 0 ==> c.glyph@ == "\u{f00b0}"@
                &&& n > 0 ==> c.glyph@ == "\u{f00b1}"@
                &&& battery is None <==> c.battery is None
                &&& battery matches Some((b, tier)) ==> (c.battery matches Some((text, t)) && text@
                    == decimal(b as nat) + "%"@ && t == tier)
            }
        },
{
}

/// Devices are told apart by what they are.
pub proof fn law_devices_have_the_glyph_of_their_kind(icon: Seq<char>)
    ensures
        icon == "audio-headset"@ || icon == "audio-headphones"@ ==> icon_for(icon)
            == "\u{f02cb}"@,
        icon == "audio-card"@ || icon == "audio-speakers"@ ==> icon_for(icon) == "\u{f04c3}"@,
        icon == "input-keyboard"@ ==> icon_for(icon) == "\u{f030c}"@,
        icon == "input-mouse"@ || icon == "input-tablet"@ ==> icon_for(icon) == "\u{f037d}"@,
        icon == "input-gaming"@ ==> icon_for(icon) == "\u{f0296}"@,
        icon == "phone"@ ==> icon_for(icon) == "\u{f011c}"@,
        icon == "computer"@ ==> icon_for(icon) == "\u{f0322}"@,
        icon == "video-display"@ || icon == "camera-video"@ ==> icon_for(icon) == "\u{f0379}"@,
        icon == "printer"@ ==> icon_for(icon) == "\u{f042a}"@,
        icon == "watch"@ || icon == "wearable"@ ==> icon_for(icon) == "\u{f0589}"@,
        icon.len() == 0 ==> icon_for(icon) == "\u{f00af}"@,
{
    reveal_strlit("audio-headset");
    reveal_strlit("audio-headphones");
    reveal_strlit("audio-card");
    reveal_strlit("audio-speakers");
    reveal_strlit("input-keyboard");
    reveal_strlit("input-mouse");
    reveal_strlit("input-tablet");
    reveal_strlit("input-gaming");
    reveal_strlit("phone");
    reveal_strlit("computer");
    reveal_strlit("video-display");
    reveal_strlit("camera-video");
    reveal_strlit("printer");
    reveal_strlit("watch");
    reveal_strlit("wearable");
    assert("audio-headset"@.len() == 13 && "audio-headphones"@.len() == 16 && "audio-card"@.len()
        == 10 && "audio-speakers"@.len() == 14 && "input-keyboard"@.len() == 14
        && "input-mouse"@.len() == 11 && "input-tablet"@.len() == 12 && "input-gaming"@.len() == 12
        && "phone"@.len() == 5 && "computer"@.len() == 8 && "video-display"@.len() == 13
        && "camera-video"@.len() == 12 && "printer"@.len() == 7 && "watch"@.len() == 5
        && "wearable"@.len() == 8);
    assert("audio-headset"@[0] == 'a' && "video-display"@[0] == 'v' && "audio-speakers"@[0] == 'a'
        && "input-keyboard"@[0] == 'i' && "input-tablet"@[6] == 't' && "input-gaming"@[6] == 'g'
        && "camera-video"@[0] == 'c' && "input-tablet"@[0] == 'i' && "input-gaming"@[0] == 'i'
        && "phone"@[0] == 'p' && "watch"@[0] == 'w' && "computer"@[0] == 'c' && "wearable"@[0]
        == 'w');
}

/// What the service says of a device is what the device has: each property
/// under its own name.
pub proof fn law_properties_reach_their_field(d: DeviceView, props: Props)
    ensures
        props.bool_at("Connected"@) matches Some(on) ==> device_after(d, props).connected == on,
        props.bool_at("Paired"@) matches Some(on) ==> device_after(d, props).paired == on,
        props.text_at("Address"@) matches Some(address) ==> device_after(d, props).address
            == address,
        props.text_at("Icon"@) matches Some(icon) ==> device_after(d, props).icon == Some(icon),
        props.i16_at("RSSI"@) matches Some(rssi) ==> device_after(d, props).rssi == Some(rssi),
        props.text_at("Alias"@) matches Some(alias) ==> (alias.len() > 0 ==> device_after(
            d,
            props,
        ).name == alias),
        props.text_at("Alias"@) is None ==> (props.text_at("Name"@) matches Some(name) ==> (
        name.len() > 0 ==> device_after(d, props).name == name)),
        props.text_at("Alias"@) is None && props.text_at("Name"@) is None && d.name.len() > 0
            && d.name != d.address ==> device_after(d, props).name == d.name,
        props.text_at("Alias"@) is None && props.text_at("Name"@) is None && d.name == d.address
            ==> device_after(d, props).name == device_after(d, props).address,
        device_after(d, props).path == d.path,
{
}

/// A change of one device leaves the others and the adapter, and one of the
/// adapter leaves the devices; what was told of a path stands under that path.
pub proof fn law_changes_stay_with_their_object(
    tree: TreeView,
    path: Seq<char>,
    interface: Seq<char>,
    props: Props,
)
    ensures
        ({
            let after = merged(tree, path, interface, props).0;
            &&& interface != "org.bluez.Adapter1"@ ==> after.adapter == tree.adapter
            &&& interface == "org.bluez.Adapter1"@ ==> after.devices == tree.devices
            &&& after.devices.len() >= tree.devices.len()
            &&& forall|i: int|
                0 <= i < tree.devices.len() ==> (#[trigger] after.devices[i]).path
                    == tree.devices[i].path && (tree.devices[i].path != path ==> after.devices[i]
                    == tree.devices[i])
            &&& after.devices.len() > tree.devices.len() ==> after.devices.len()
                == tree.devices.len() + 1 && after.devices.last().path == path
            &&& interface == "org.bluez.Device1"@ ==> exists|i: int|
                0 <= i < after.devices.len() && (#[trigger] after.devices[i]).path == path && (
                props.bool_at("Connected"@) matches Some(on) ==> after.devices[i].connected == on)
            &&& interface == "org.bluez.Battery1"@ && props.u8_at("Percentage"@) is Some ==> (
            forall|i: int|
                0 <= i < tree.devices.len() && (#[trigger] tree.devices[i]).path == path && (
                forall|k: int| 0 <= k < i ==> (#[trigger] tree.devices[k]).path != path)
                    ==> after.devices[i] == (DeviceView {
                    battery: props.u8_at("Percentage"@),
                    ..tree.devices[i]
                }))
            &&& interface == "org.bluez.Adapter1"@ ==> (after.adapter matches Some(a) && (
            tree.adapter is None ==> a.path == path) && (a.path == path ==> (
            props.bool_at("Powered"@) matches Some(on) ==> a.powered == on) && (
            props.bool_at("Discovering"@) matches Some(on) ==> a.discovering == on) && (
            props.text_at("Alias"@) matches Some(alias) ==> a.alias == alias) && (
            props.text_at("Address"@) matches Some(address) ==> a.address == address)))
        }),
{
    lemma_place(tree.devices, path);
    reveal_strlit("org.bluez.Adapter1");
    reveal_strlit("org.bluez.Device1");
    reveal_strlit("org.bluez.Battery1");
    assert("org.bluez.Adapter1"@.len() == 18 && "org.bluez.Device1"@.len() == 17
        && "org.bluez.Battery1"@.len() == 18);
    assert("org.bluez.Adapter1"@[10] == 'A' && "org.bluez.Battery1"@[10] == 'B');
    let after = merged(tree, path, interface, props).0;
    if interface == "org.bluez.Device1"@ {
        match place(tree.devices, path) {
            Some(i) => {
                assert(after.devices[i] == device_after(tree.devices[i], props));
            },
            None => {
                assert(after.devices.last() == device_after(new_device(path), props));
                assert(after.devices[after.devices.len() - 1] == after.devices.last());
            },
        }
    }
}

proof fn lemma_place(devices: Seq<DeviceView>, path: Seq<char>)
    ensures
        place(devices, path) matches Some(i) ==> 0 <= i < devices.len() && devices[i].path == path
            && forall|k: int| 0 <= k < i ==> (#[trigger] devices[k]).path != path,
        place(devices, path) is None ==> forall|i: int|
            0 <= i < devices.len() ==> (#[trigger] devices[i]).path != path,
    decreases devices.len(),
{
    if devices.len() > 0 {
        let rest = devices.skip(1);
        lemma_place(rest, path);
        assert forall|i: int| 0 < i < devices.len() implies (#[trigger] devices[i]) == rest[i
            - 1] by {}
    }
}

/// A device that is gone has no row left, its battery goes alone, and the
/// adapter takes everything along; nothing else is dropped.
pub proof fn law_what_is_removed_is_gone(tree: TreeView, path: Seq<char>, interface: Seq<char>)
    ensures
        ({
            let after = removed_one(tree, path, interface).0;
            &&& interface == "org.bluez.Device1"@ ==> {
                &&& after.adapter == tree.adapter
                &&& forall|i: int|
                    0 <= i < after.devices.len() ==> (#[trigger] after.devices[i]).path != path
                        && tree.devices.contains(after.devices[i])
                &&& forall|i: int|
                    0 <= i < tree.devices.len() && (#[trigger] tree.devices[i]).path != path
                        ==> after.devices.contains(tree.devices[i])
            }
            &&& interface == "org.bluez.Battery1"@ ==> {
                &&& after.adapter == tree.adapter
                &&& after.devices.len() == tree.devices.len()
                &&& forall|i: int|
                    0 <= i < tree.devices.len() ==> (#[trigger] after.devices[i]
                        == tree.devices[i] || (tree.devices[i].path == path && after.devices[i] == (
                    DeviceView { battery: None, ..tree.devices[i] })))
            }
            &&& interface == "org.bluez.Adapter1"@ && tree.adapter is Some && tree.adapter->0.path
                == path ==> after.adapter is None && after.devices.len() == 0
            &&& interface == "org.bluez.Adapter1"@ && !(tree.adapter is Some
                && tree.adapter->0.path == path) ==> after == tree
        }),
{
    lemma_place(tree.devices, path);
    lemma_without(tree.devices, path);
    reveal_strlit("org.bluez.Adapter1");
    reveal_strlit("org.bluez.Device1");
    reveal_strlit("org.bluez.Battery1");
    assert("org.bluez.Adapter1"@.len() == 18 && "org.bluez.Device1"@.len() == 17
        && "org.bluez.Battery1"@.len() == 18);
    assert("org.bluez.Adapter1"@[10] == 'A' && "org.bluez.Battery1"@[10] == 'B');
}

proof fn lemma_without(devices: Seq<DeviceView>, path: Seq<char>)
    ensures
        forall|i: int|
            0 <= i < without(devices, path).len() ==> (#[trigger] without(devices, path)[i]).path
                != path && devices.contains(without(devices, path)[i]),
        forall|i: int|
            0 <= i < devices.len() && (#[trigger] devices[i]).path != path ==> without(
                devices,
                path,
            ).contains(devices[i]),
    decreases devices.len(),
{
    if devices.len() > 0 {
        let before = devices.drop_last();
        lemma_without(before, path);
        let some = without(before, path);
        let all = without(devices, path);
        assert forall|i: int| 0 <= i < all.len() implies (#[trigger] all[i]).path != path
            && devices.contains(all[i]) by {
            if i < some.len() {
                assert(all[i] == some[i]);
                let k = choose|k: int| 0 <= k < before.len() && before[k] == some[i];
                assert(devices[k] == some[i]);
            } else {
                assert(devices[devices.len() - 1] == all[i]);
            }
        }
        assert forall|i: int|
            0 <= i < devices.len() && (#[trigger] devices[i]).path != path implies all.contains(
            devices[i],
        ) by {
            if i < before.len() {
                assert(before[i] == devices[i]);
                let k = choose|k: int| 0 <= k < some.len() && some[k] == before[i];
                assert(all[k] == some[k]);
            } else {
                assert(all[all.len() - 1] == devices[i]);
            }
        }
    }
}

/// A service that came or went makes every path stale, and nothing else does.
pub proof fn law_only_a_restart_restarts(tree: TreeView, signal: Signal)
    ensures
        signal is Owner ==> applied(tree, signal) == (tree, Change::Restart),
        signal is Other ==> applied(tree, signal) == (tree, Change::Ignore),
        signal matches Signal::Changed { path, interface, props } ==> applied(tree, signal).1
            != Change::Restart,
{
}

/// Devices come in order: what is connected, then what is paired, then by how
/// near it is.
pub proof fn law_nearer_devices_come_first(devices: Seq<Device>, i: int, j: int)
    requires
        0 <= i < j < in_line(devices).len(),
    ensures
        ({
            let (a, b) = (in_line(devices)[i], in_line(devices)[j]);
            &&& b.connected ==> a.connected
            &&& a.connected == b.connected && b.paired ==> a.paired
            &&& a.connected == b.connected && a.paired == b.paired && b.rssi is Some
                ==> a.rssi is Some && a.rssi->0 >= b.rssi->0
        }),
{
    lemma_devices_order();
    law_sorting_sorts(devices);
    assert(sorted(in_line(devices)));
}

proof fn lemma_devices_order()
    ensures
        orders_by_key::<Device>(),
{
    assert forall|a: Device, b: Device| #[trigger] a.precedes(&b) implies !b.precedes(&a) by {
        lemma_text_order_total(lowercase(a.name@), lowercase(b.name@));
    }
    assert forall|a: Device, b: Device, c: Device|
        #![trigger a.precedes(&b), b.precedes(&c)]
        !a.precedes(&b) && !b.precedes(&c) implies !a.precedes(&c) by {
        let (x, y, z) = (lowercase(a.name@), lowercase(b.name@), lowercase(c.name@));
        lemma_text_order_total(x, y);
        lemma_text_order_total(y, z);
        lemma_text_order_total(x, z);
        if x != y && y != z && text_before(z, y) && text_before(y, x) {
            lemma_text_order_transitive(z, y, x);
        }
    }
}

/// Signals are told apart by their names.
pub proof fn law_signals_are_told_apart_by_name(name: Seq<char>)
    ensures
        member_named(name) == Member::NameOwnerChanged <==> name == "NameOwnerChanged"@,
        member_named(name) == Member::InterfacesAdded <==> name == "InterfacesAdded"@,
        member_named(name) == Member::InterfacesRemoved <==> name == "InterfacesRemoved"@,
        member_named(name) == Member::PropertiesChanged <==> name == "PropertiesChanged"@,
{
    reveal_strlit("NameOwnerChanged");
    reveal_strlit("InterfacesAdded");
    reveal_strlit("InterfacesRemoved");
    reveal_strlit("PropertiesChanged");
    assert("NameOwnerChanged"@.len() == 16 && "InterfacesAdded"@.len() == 15
        && "InterfacesRemoved"@.len() == 17 && "PropertiesChanged"@.len() == 17);
    assert("InterfacesRemoved"@[0] == 'I' && "PropertiesChanged"@[0] == 'P');
}

/// Adapters are read before devices, and devices before what belongs to them.
pub proof fn law_adapters_are_read_before_devices(interface: Seq<char>)
    ensures
        order_of("org.bluez.Adapter1"@) < order_of("org.bluez.Device1"@) < order_of(
            "org.bluez.Battery1"@,
        ),
        interface != "org.bluez.Adapter1"@ && interface != "org.bluez.Device1"@ ==> order_of(
            interface,
        ) == order_of("org.bluez.Battery1"@),
{
    reveal_strlit("org.bluez.Adapter1");
    reveal_strlit("org.bluez.Device1");
    reveal_strlit("org.bluez.Battery1");
    assert("org.bluez.Adapter1"@.len() == 18 && "org.bluez.Device1"@.len() == 17
        && "org.bluez.Battery1"@.len() == 18);
    assert("org.bluez.Adapter1"@[10] == 'A' && "org.bluez.Battery1"@[10] == 'B');
}

/// There is a popup as long as the service is there and has an adapter.
pub proof fn law_there_is_a_popup_with_an_adapter(s: State)
    ensures
        s.pops_up() <==> s.available && s.snapshot is Some && s.snapshot->0.adapter is Some,
{
}

/// Readings are told with their units, the battery before the signal.
pub proof fn law_readings_are_told_with_their_units(battery: u8, rssi: i16)
    ensures
        readings_text(Some(battery), None) == decimal(battery as nat) + "%"@,
        readings_text(None, Some(rssi)) == signed_decimal(rssi as int) + "dBm"@,
        readings_text(Some(battery), Some(rssi)) == decimal(battery as nat) + "%"@ + " · "@ + (
        signed_decimal(rssi as int) + "dBm"@),
        readings_text(None, None).len() == 0,
{
}

/// What is new starts out with nothing but its path.
pub proof fn law_what_is_new_starts_out_with_nothing(path: Seq<char>)
    ensures
        ({
            let a = new_adapter(path);
            a.path == path && a.alias.len() == 0 && a.address.len() == 0 && !a.powered
                && !a.discovering
        }),
        ({
            let d = new_device(path);
            d.path == path && d.address.len() == 0 && d.name.len() == 0 && d.icon is None
                && !d.connected && !d.paired && d.battery is None && d.rssi is None
        }),
{
}

} // verus!
