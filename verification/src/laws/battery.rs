//! What holds of batteries, and of the readings that they are told by.
use crate::modules::battery::{
    charge_of, charged_among, details_of, duration_text, first_system, glyph_of, headline_of,
    is_charged, is_charging, is_system, key_of, kind_symbol, kind_text, level_text, listed, name_of,
    opt_key, severity_of, shows_popup, shows_row, stale_text, state_text, tier_of, BarKey, Device, Popup,
    Snapshot, State,
};
use crate::number::signed_decimal;
use crate::order::{in_line, law_sorting_keeps_everything, law_sorting_sorts, Ranked};
use crate::reading::{
    tens_of, EIGHTY, EIGHTY_FIVE, FIFTY, FORTY, HUNDRED, NINETY, SEVENTY, SEVENTY_FIVE, SIXTY, TEN,
    THIRTY, TWENTY,
};
use crate::text::{joined, trimmed};
use vstd::prelude::*;
use vstd::string::*;

verus! {

/// Where a whole number stands in the order of readings: its bits as a double,
/// which are its exponent and what it has over its greatest power of two.
pub open spec fn stands_at(n: int, exponent: int, power: int) -> int {
    (1023 + exponent) * 0x10_0000_0000_0000 + (n - power) * (0x10_0000_0000_0000int / power)
}

/// The marks that readings are held against stand where their numbers do.
pub proof fn law_marks_stand_at_their_number()
    ensures
        TEN == stands_at(10, 3, 8),
        TWENTY == stands_at(20, 4, 16),
        THIRTY == stands_at(30, 4, 16),
        FORTY == stands_at(40, 5, 32),
        FIFTY == stands_at(50, 5, 32),
        SIXTY == stands_at(60, 5, 32),
        SEVENTY == stands_at(70, 6, 64),
        SEVENTY_FIVE == stands_at(75, 6, 64),
        EIGHTY == stands_at(80, 6, 64),
        EIGHTY_FIVE == stands_at(85, 6, 64),
        NINETY == stands_at(90, 6, 64),
        HUNDRED == stands_at(100, 6, 64),
{
}

/// A reading holds as many tens as there are marks that it reaches, and a higher
/// one no fewer.
pub proof fn law_tens_are_marks_reached(a: i64, b: i64)
    ensures
        0 <= tens_of(a) <= 9,
        a <= b ==> tens_of(a) <= tens_of(b),
        tens_of(a) >= 1 <==> a >= TEN,
        tens_of(a) >= 2 <==> a >= TWENTY,
        tens_of(a) >= 3 <==> a >= THIRTY,
        tens_of(a) >= 4 <==> a >= FORTY,
        tens_of(a) >= 5 <==> a >= FIFTY,
        tens_of(a) >= 6 <==> a >= SIXTY,
        tens_of(a) >= 7 <==> a >= SEVENTY,
        tens_of(a) >= 8 <==> a >= EIGHTY,
        tens_of(a) >= 9 <==> a >= NINETY,
{
}

/// The devices that are shown are those with a charge, all of them and no other,
/// the worst first.
pub proof fn law_the_worst_charge_comes_first(all: Seq<Device>)
    ensures
        ({
            let shown = in_line(charged_among(all));
            &&& forall|i: int, j: int|
                0 <= i < j < shown.len() ==> severity_of(#[trigger] shown[i]) <= severity_of(
                    #[trigger] shown[j],
                )
            &&& forall|i: int|
                0 <= i < shown.len() ==> all.contains(#[trigger] shown[i]) && is_charged(shown[i])
            &&& forall|k: int|
                0 <= k < all.len() && is_charged(#[trigger] all[k]) ==> shown.contains(all[k])
        }),
{
    let some = charged_among(all);
    let shown = in_line(some);
    lemma_charged(all);
    law_sorting_sorts(some);
    law_sorting_keeps_everything(some);
    broadcast use vstd::seq_lib::group_to_multiset_ensures;

    assert forall|i: int, j: int| 0 <= i < j < shown.len() implies severity_of(
        #[trigger] shown[i],
    ) <= severity_of(#[trigger] shown[j]) by {
        assert(!shown[j].precedes(&shown[i]));
    }
    assert forall|i: int| 0 <= i < shown.len() implies all.contains(#[trigger] shown[i])
        && is_charged(shown[i]) by {
        assert(shown.contains(shown[i]));
        assert(shown.to_multiset().contains(shown[i]));
        assert(some.to_multiset().contains(shown[i]));
        assert(some.contains(shown[i]));
    }
    assert forall|k: int| 0 <= k < all.len() && is_charged(
        #[trigger] all[k],
    ) implies shown.contains(all[k]) by {
        assert(some.contains(all[k]));
        assert(some.to_multiset().contains(all[k]));
        assert(shown.to_multiset().contains(all[k]));
    }
}

proof fn lemma_charged(all: Seq<Device>)
    ensures
        forall|i: int|
            0 <= i < charged_among(all).len() ==> all.contains(#[trigger] charged_among(all)[i])
                && is_charged(charged_among(all)[i]),
        forall|k: int|
            0 <= k < all.len() && is_charged(#[trigger] all[k]) ==> charged_among(all).contains(
                all[k],
            ),
    decreases all.len(),
{
    if all.len() > 0 {
        let before = all.drop_last();
        lemma_charged(before);
        let some = charged_among(before);
        let found = charged_among(all);
        assert(all[all.len() - 1] == all.last());
        assert forall|i: int| 0 <= i < found.len() implies all.contains(#[trigger] found[i])
            && is_charged(found[i]) by {
            if i < some.len() {
                assert(found[i] == some[i]);
                let k = choose|k: int| 0 <= k < before.len() && before[k] == some[i];
                assert(all[k] == some[i]);
            }
        }
        assert forall|k: int| 0 <= k < all.len() && is_charged(
            #[trigger] all[k],
        ) implies found.contains(all[k]) by {
            if k < before.len() {
                assert(before[k] == all[k]);
                let i = choose|i: int| 0 <= i < some.len() && some[i] == before[k];
                assert(found[i] == some[i]);
            } else {
                assert(found[found.len() - 1] == all[k]);
            }
        }
    }
}

/// A device with a charge is neither the mains nor unknown, and says a percentage
/// above nought or a level; one that powers the machine is a battery or a UPS that
/// is there.
pub proof fn law_devices_are_what_they_say(d: Device)
    ensures
        is_charged(d) ==> d.kind != 1 && d.kind != 0,
        d.kind >= 2 && d.percentage.order > 0 ==> is_charged(d),
        d.kind >= 2 && d.percentage.order <= 0 ==> (is_charged(d) <==> d.battery_level > 1),
        is_system(d) <==> d.power_supply && d.present && (d.kind == 2 || d.kind == 3),
        is_charging(d) <==> d.state == 1 || d.state == 5,
{
}

/// A charge is told by its percentage where that is exact, else by its level, and
/// its tier by how low it is; what charges does not warn.
pub proof fn law_low_charges_warn(d: Device)
    ensures
        d.battery_level <= 1 ==> charge_of(d) == d.percentage.shown@ + "%"@ && severity_of(d)
            == d.percentage.order,
        d.battery_level == 3 ==> charge_of(d) == "low"@ && severity_of(d) == TWENTY,
        d.battery_level == 4 ==> charge_of(d) == "critical"@ && severity_of(d) == TEN,
        d.battery_level == 5 ==> charge_of(d) == "action"@ && severity_of(d) == TEN,
        d.battery_level == 6 ==> charge_of(d) == "normal"@ && severity_of(d) == HUNDRED,
        d.battery_level == 7 ==> charge_of(d) == "high"@ && severity_of(d) == HUNDRED,
        d.battery_level == 8 ==> charge_of(d) == "full"@ && severity_of(d) == HUNDRED,
        tier_of(d) == 0 <==> d.state == 1 || d.state == 5,
        tier_of(d) != 0 ==> (tier_of(d) == 1 <==> severity_of(d) <= TEN),
        tier_of(d) == 2 ==> TEN < severity_of(d) <= TWENTY,
        tier_of(d) == 3 ==> is_system(d) && severity_of(d) > TWENTY,
        tier_of(d) == 4 ==> !is_system(d) && severity_of(d) > TWENTY,
        tier_of(d) <= 4,
{
}

/// The cell shows the battery that powers the machine: the composite one where it
/// does, else the first listed that does; without one there is no cell.
pub proof fn law_the_cell_shows_what_powers_the_machine(s: Snapshot, key: Option<BarKey>)
    requires
        opt_key(key) == key_of(s),
    ensures
        s.display matches Some(d) ==> (is_system(d) ==> headline_of(s) == Some(d)),
        headline_of(s) matches Some(d) ==> is_system(d) && (s.display == Some(d)
            || s.devices@.contains(d)),
        key is None <==> !(s.display is Some && is_system(s.display->0)) && forall|i: int|
            0 <= i < s.devices@.len() ==> !is_system(#[trigger] s.devices@[i]),
        key matches Some(k) ==> {
            let d = headline_of(s)->0;
            &&& k.charge@ == charge_of(d)
            &&& k.tier == tier_of(d)
            &&& k.glyph@ == glyph_of(d)
        },
{
    lemma_first_system(s.devices@);
}

proof fn lemma_first_system(devices: Seq<Device>)
    ensures
        first_system(devices) matches Some(d) ==> is_system(d) && devices.contains(d),
        first_system(devices) is None <==> forall|i: int|
            0 <= i < devices.len() ==> !is_system(#[trigger] devices[i]),
    decreases devices.len(),
{
    if devices.len() > 0 {
        let rest = devices.skip(1);
        lemma_first_system(rest);
        if is_system(devices[0]) {
            assert(devices.contains(devices[0]));
        } else {
            assert forall|i: int| 0 < i < devices.len() implies (#[trigger] devices[i]) == rest[i
                - 1] by {}
            match first_system(rest) {
                Some(d) => {
                    let k = choose|k: int| 0 <= k < rest.len() && rest[k] == d;
                    assert(devices[k + 1] == d);
                },
                None => {},
            }
        }
    }
}

/// A battery that powers the machine has the glyph of its charge or of charging,
/// anything else the glyph of its kind.
pub proof fn law_glyphs_follow_the_charge(d: Device)
    ensures
        !is_system(d) ==> glyph_of(d) == kind_symbol(d.kind),
        is_system(d) && is_charging(d) ==> glyph_of(d) == "\u{f0241}"@,
        is_system(d) && !is_charging(d) && d.percentage.order < TEN ==> glyph_of(d)
            == "\u{f008e}"@,
        is_system(d) && !is_charging(d) && d.percentage.order >= NINETY ==> glyph_of(d)
            == "\u{f0079}"@,
        is_system(d) && !is_charging(d) && FIFTY <= d.percentage.order < SIXTY ==> glyph_of(d)
            == "\u{f007f}"@,
        is_system(d) && !is_charging(d) && TEN <= d.percentage.order < TWENTY ==> glyph_of(d)
            == "\u{f007b}"@,
        is_system(d) && !is_charging(d) && TWENTY <= d.percentage.order < THIRTY ==> glyph_of(d)
            == "\u{f007c}"@,
        is_system(d) && !is_charging(d) && THIRTY <= d.percentage.order < FORTY ==> glyph_of(d)
            == "\u{f007d}"@,
        is_system(d) && !is_charging(d) && FORTY <= d.percentage.order < FIFTY ==> glyph_of(d)
            == "\u{f007e}"@,
        is_system(d) && !is_charging(d) && SIXTY <= d.percentage.order < SEVENTY ==> glyph_of(d)
            == "\u{f0080}"@,
        is_system(d) && !is_charging(d) && SEVENTY <= d.percentage.order < EIGHTY ==> glyph_of(d)
            == "\u{f0081}"@,
        is_system(d) && !is_charging(d) && EIGHTY <= d.percentage.order < NINETY ==> glyph_of(d)
            == "\u{f0082}"@,
{
}

/// Every device goes by what it is called, and by its kind only where it is not
/// called anything.
pub proof fn law_devices_go_by_their_name(d: Device)
    ensures
        trimmed(d.vendor@).len() == 0 && trimmed(d.model@).len() == 0 ==> name_of(d) == kind_text(
            d.kind,
        ),
        trimmed(d.vendor@).len() == 0 && trimmed(d.model@).len() > 0 ==> name_of(d) == trimmed(
            d.model@,
        ),
        trimmed(d.vendor@).len() > 0 && trimmed(d.model@).len() == 0 ==> name_of(d) == trimmed(
            d.vendor@,
        ),
        trimmed(d.vendor@).len() > 0 && trimmed(d.model@).len() > 0 && !trimmed(
            d.vendor@,
        ).is_prefix_of(trimmed(d.model@)) ==> name_of(d) == trimmed(d.vendor@) + " "@ + trimmed(
            d.model@,
        ),
        trimmed(d.vendor@).len() > 0 && trimmed(d.vendor@).is_prefix_of(trimmed(d.model@))
            ==> name_of(d) == trimmed(d.model@),
{
    let (vendor, model) = (trimmed(d.vendor@), trimmed(d.model@));
    if vendor.len() > 0 && vendor.is_prefix_of(model) {
        assert(model.len() > 0);
    }
}

/// The kinds, states and levels are told by their own words.
pub proof fn law_kinds_have_their_own_words(kind: u32, state: u32, level: u32)
    ensures
        kind == 1 ==> kind_text(kind) == "AC"@,
        kind == 2 ==> kind_text(kind) == "battery"@,
        kind == 3 ==> kind_text(kind) == "UPS"@,
        kind == 4 ==> kind_text(kind) == "monitor"@,
        kind == 5 ==> kind_text(kind) == "mouse"@ && kind_symbol(kind) == "\u{f037d}"@,
        kind == 6 ==> kind_text(kind) == "keyboard"@ && kind_symbol(kind) == "\u{f030c}"@,
        kind == 7 ==> kind_text(kind) == "PDA"@,
        kind == 8 ==> kind_text(kind) == "phone"@ && kind_symbol(kind) == "\u{f011c}"@,
        kind == 9 ==> kind_text(kind) == "media player"@ && kind_symbol(kind) == "\u{f011c}"@,
        kind == 10 ==> kind_text(kind) == "tablet"@ && kind_symbol(kind) == "\u{f04f6}"@,
        kind == 11 ==> kind_text(kind) == "computer"@,
        kind == 12 ==> kind_text(kind) == "gaming input"@ && kind_symbol(kind) == "\u{f0297}"@,
        kind == 13 ==> kind_text(kind) == "pen"@,
        kind == 14 ==> kind_text(kind) == "touchpad"@,
        kind == 15 ==> kind_text(kind) == "modem"@,
        kind == 16 ==> kind_text(kind) == "network device"@,
        kind == 17 ==> kind_text(kind) == "headset"@ && kind_symbol(kind) == "\u{f02ce}"@,
        kind == 18 ==> kind_text(kind) == "speakers"@ && kind_symbol(kind) == "\u{f02cb}"@,
        kind == 19 ==> kind_text(kind) == "headphones"@ && kind_symbol(kind) == "\u{f02cb}"@,
        kind == 20 ==> kind_text(kind) == "video"@,
        kind == 21 ==> kind_text(kind) == "audio device"@ && kind_symbol(kind) == "\u{f02cb}"@,
        kind == 22 ==> kind_text(kind) == "remote control"@,
        kind == 23 ==> kind_text(kind) == "printer"@,
        kind == 24 ==> kind_text(kind) == "scanner"@,
        kind == 25 ==> kind_text(kind) == "camera"@,
        kind == 26 ==> kind_text(kind) == "wearable"@,
        kind == 27 ==> kind_text(kind) == "toy"@,
        kind == 28 ==> kind_text(kind) == "bluetooth device"@,
        kind == 0 || kind > 28 ==> kind_text(kind) == "device"@ && kind_symbol(kind)
            == "\u{f0091}"@,
        state == 1 ==> state_text(state) == "charging"@,
        state == 2 ==> state_text(state) == "discharging"@,
        state == 3 ==> state_text(state) == "empty"@,
        state == 4 ==> state_text(state) == "fully charged"@,
        state == 5 ==> state_text(state) == "pending charge"@,
        state == 6 ==> state_text(state) == "pending discharge"@,
        state == 0 || state > 6 ==> state_text(state) == "state unknown"@,
        level < 3 || level > 8 ==> level_text(level) == "unknown"@,
{
}

/// A time that is left is told in whole minutes, and from an hour on in hours and
/// the minutes over them.
pub proof fn law_times_are_told_in_hours_and_minutes(hours: int, minutes: int, seconds: int)
    requires
        hours >= 0,
        0 <= minutes < 60,
        0 <= seconds < 60,
    ensures
        hours == 0 ==> duration_text(hours * 3600 + minutes * 60 + seconds) == signed_decimal(
            minutes,
        ) + " min"@,
        hours > 0 ==> duration_text(hours * 3600 + minutes * 60 + seconds) == signed_decimal(hours)
            + " hr "@ + signed_decimal(minutes) + " min"@,
{
    let all = hours * 3600 + minutes * 60 + seconds;
    assert(all / 60 == hours * 60 + minutes);
    assert((hours * 60 + minutes) / 60 == hours);
}

/// How long ago a device was refreshed is told once that is ten minutes, in the
/// largest unit that it holds one of.
pub proof fn law_staleness_is_told_in_its_unit(updated: int, age: int)
    requires
        updated > 0,
        age >= 0,
    ensures
        ({
            let told = stale_text(updated, (updated + age) * 1000);
            &&& age < 600 <==> told is None
            &&& 600 <= age < 3600 ==> told == Some(signed_decimal(age / 60) + " min"@)
            &&& 3600 <= age < 86400 ==> told == Some(signed_decimal(age / 3600) + " hr"@)
            &&& age >= 86400 ==> told == Some(signed_decimal(age / 86400) + " d"@)
        }),
{
}

/// The popup says what the machine runs on, and has a row for every device, in
/// their order and each with its own charge.
pub proof fn law_rows_stand_for_their_device(s: Snapshot, now_ms: i64, p: Popup)
    requires
        shows_popup(s, now_ms, p),
    ensures
        p.warns <==> s.on_battery,
        s.on_battery ==> p.title@ == "on battery"@,
        !s.on_battery ==> p.title@ == "on AC power"@,
        ({
            let first = if s.display is Some && is_system(s.display->0) {
                1int
            } else {
                0
            };
            &&& p.rows@.len() == first + s.devices@.len()
            &&& first == 1 ==> p.rows@[0].name@ == name_of(s.display->0) && p.rows@[0].charge@
                == charge_of(s.display->0) && p.rows@[0].tier == tier_of(s.display->0)
            &&& forall|i: int|
                0 <= i < s.devices@.len() ==> ({
                    let row = p.rows@[first + i];
                    let d = #[trigger] s.devices@[i];
                    row.name@ == name_of(d) && row.charge@ == charge_of(d) && row.tier == tier_of(d)
                        && row.glyph@ == glyph_of(d) && row.detail@ == joined(
                        details_of(d, now_ms),
                        " · "@,
                    )
                })
        }),
        p.charge is Some <==> headline_of(s) is Some,
        headline_of(s) matches Some(d) ==> (p.charge->0).0@ == charge_of(d) && (p.charge->0).1
            == tier_of(d),
{
    let first = if s.display is Some && is_system(s.display->0) {
        1int
    } else {
        0
    };
    let all = listed(s);
    assert forall|i: int| 0 <= i < s.devices@.len() implies ({
        let row = p.rows@[first + i];
        let d = #[trigger] s.devices@[i];
        row.name@ == name_of(d) && row.charge@ == charge_of(d) && row.tier == tier_of(d)
            && row.glyph@ == glyph_of(d) && row.detail@ == joined(details_of(d, now_ms), " · "@)
    }) by {
        assert(all[first + i] == s.devices@[i]);
        assert(shows_row(all[first + i], now_ms, p.rows@[first + i]));
    }
    if first == 1 {
        assert(all[0] == s.display->0);
        assert(shows_row(all[0], now_ms, p.rows@[0]));
    }
}

/// What is said of a device: its state, its kind, how long it lasts and how long
/// it takes, each under its own words.
pub proof fn law_details_say_what_they_name(d: Device, now_ms: i64)
    ensures
        details_of(d, now_ms)[0] == state_text(d.state),
        details_of(d, now_ms)[1] == kind_text(d.kind),
        d.time_to_empty > 0 ==> details_of(d, now_ms)[2] == duration_text(d.time_to_empty as int)
            + " to empty"@,
        d.time_to_empty <= 0 && d.time_to_full > 0 ==> details_of(d, now_ms)[2] == duration_text(
            d.time_to_full as int,
        ) + " to full"@,
        d.watts matches Some(watts) ==> details_of(d, now_ms).contains(watts@ + " W"@),
{
    let all = details_of(d, now_ms);
    let at = 2 + (if d.time_to_empty > 0 {
        1int
    } else {
        0
    }) + (if d.time_to_full > 0 {
        1int
    } else {
        0
    });
    if d.watts is Some {
        assert(all[at] == d.watts->0@ + " W"@);
    }
}

/// There is a popup as long as the service says anything.
pub proof fn law_there_is_a_popup_while_the_service_is_there(s: State)
    ensures
        s.pops_up() <==> s.snapshot is Some,
{
}

/// A device that was never refreshed is not called stale.
pub proof fn law_a_time_that_is_not_known_is_not_told(updated: int, now_ms: int)
    requires
        updated <= 0,
    ensures
        stale_text(updated, now_ms) is None,
{
}

} // verus!
