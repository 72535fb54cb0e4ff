//! What a signal from NetworkManager calls for, and which snapshots reach the
//! bar.
use crate::dbus::Props;
use crate::modules::network::snapshot::{
    key_of, subscriptions_of, Active, Ap, ApLink, BarKey, Snapshot, Tier,
};
use crate::text::{same, starts_with};
use vstd::prelude::*;
use vstd::string::*;

verus! {

#[derive(Debug, Clone, Copy, PartialEq, Eq, Structural)]
pub enum Change {
    Ignore,
    /// The snapshot was updated in place; send it.
    Patch,
    /// Read the snapshot again, then send it.
    Reread,
    /// The service restarted: every object path is stale.
    Restart,
}

/// Manager properties that change what the bar shows.
pub open spec fn manager_key(name: Seq<char>) -> bool {
    ||| name == "PrimaryConnection"@
    ||| name == "PrimaryConnectionType"@
    ||| name == "ActiveConnections"@
    ||| name == "ActivatingConnection"@
    ||| name == "State"@
    ||| name == "Connectivity"@
    ||| name == "WirelessEnabled"@
    ||| name == "WirelessHardwareEnabled"@
    ||| name == "Devices"@
    ||| name == "AllDevices"@
}

/// Device properties worth a re-read. Everything else a device emits is
/// ignored, its counters above all.
pub open spec fn device_key(name: Seq<char>) -> bool {
    ||| name == "State"@
    ||| name == "ActiveConnection"@
    ||| name == "Ip4Config"@
    ||| name == "Carrier"@
    ||| name == "Speed"@
    ||| name == "ActiveAccessPoint"@
    ||| name == "Bitrate"@
    ||| name == "LastScan"@
}

fn is_manager_key(name: &str) -> (r: bool)
    ensures
        r == manager_key(name@),
{
    same(name, "PrimaryConnection") || same(name, "PrimaryConnectionType") || same(
        name,
        "ActiveConnections",
    ) || same(name, "ActivatingConnection") || same(name, "State") || same(name, "Connectivity")
        || same(name, "WirelessEnabled") || same(name, "WirelessHardwareEnabled") || same(
        name,
        "Devices",
    ) || same(name, "AllDevices")
}

fn is_device_key(name: &str) -> (r: bool)
    ensures
        r == device_key(name@),
{
    same(name, "State") || same(name, "ActiveConnection") || same(name, "Ip4Config") || same(
        name,
        "Carrier",
    ) || same(name, "Speed") || same(name, "ActiveAccessPoint") || same(name, "Bitrate") || same(
        name,
        "LastScan",
    )
}

/// Whether any of the manager's changed properties matters.
pub open spec fn manager_changed(changed: Props) -> bool {
    exists|i: int|
        0 <= i < changed.entries@.len() && manager_key((#[trigger] changed.entries@[i]).0@)
}

pub open spec fn device_changed(changed: Props) -> bool {
    exists|i: int|
        0 <= i < changed.entries@.len() && device_key((#[trigger] changed.entries@[i]).0@)
}

fn any_manager(changed: &Props) -> (r: bool)
    ensures
        r == manager_changed(*changed),
{
    let mut i: usize = 0;
    while i < changed.entries.len()
        invariant
            i <= changed.entries@.len(),
            forall|j: int| 0 <= j < i ==> !manager_key((#[trigger] changed.entries@[j]).0@),
        decreases changed.entries@.len() - i,
    {
        if is_manager_key(changed.entries[i].0.as_str()) {
            assert(manager_key(changed.entries@[i as int].0@));
            return true;
        }
        i += 1;
    }
    false
}

fn any_device(changed: &Props) -> (r: bool)
    ensures
        r == device_changed(*changed),
{
    let mut i: usize = 0;
    while i < changed.entries.len()
        invariant
            i <= changed.entries@.len(),
            forall|j: int| 0 <= j < i ==> !device_key((#[trigger] changed.entries@[j]).0@),
        decreases changed.entries@.len() - i,
    {
        if is_device_key(changed.entries[i].0.as_str()) {
            assert(device_key(changed.entries@[i as int].0@));
            return true;
        }
        i += 1;
    }
    false
}

/// The access points with the first at that path at a new strength.
pub open spec fn retuned(aps: Seq<Ap>, path: Seq<char>, strength: u8) -> Seq<Ap>
    decreases aps.len(),
{
    if aps.len() == 0 {
        aps
    } else if aps[0].path@ == path {
        aps.update(0, Ap { strength, ..aps[0] })
    } else {
        seq![aps[0]] + retuned(aps.skip(1), path, strength)
    }
}

/// Whether the first access point at that path has another strength.
pub open spec fn is_retuned(aps: Seq<Ap>, path: Seq<char>, strength: u8) -> bool
    decreases aps.len(),
{
    if aps.len() == 0 {
        false
    } else if aps[0].path@ == path {
        aps[0].strength != strength
    } else {
        is_retuned(aps.skip(1), path, strength)
    }
}

/// The primary connection with its link, where it is at that path, at a new
/// strength.
pub open spec fn relinked(primary: Option<Active>, path: Seq<char>, strength: u8) -> Option<
    Active,
> {
    match primary {
        Some(active) => match active.ap {
            Some(link) => if link.path@ == path {
                Some(Active { ap: Some(ApLink { strength, ..link }), ..active })
            } else {
                primary
            },
            None => primary,
        },
        None => primary,
    }
}

/// Whether the primary connection's link is at that path with another strength.
pub open spec fn is_relinked(primary: Option<Active>, path: Seq<char>, strength: u8) -> bool {
    match primary {
        Some(active) => match active.ap {
            Some(link) => link.path@ == path && link.strength != strength,
            None => false,
        },
        None => false,
    }
}

proof fn lemma_retuned(aps: Seq<Ap>, path: Seq<char>, strength: u8, k: int)
    requires
        0 <= k <= aps.len(),
        forall|j: int| 0 <= j < k ==> (#[trigger] aps[j]).path@ != path,
        k < aps.len() ==> aps[k].path@ == path,
    ensures
        retuned(aps, path, strength) == if k < aps.len() {
            aps.update(k, Ap { strength, ..aps[k] })
        } else {
            aps
        },
        is_retuned(aps, path, strength) == (k < aps.len() && aps[k].strength != strength),
    decreases aps.len(),
{
    if k > 0 && aps.len() > 0 {
        let rest = aps.skip(1);
        assert forall|j: int| 0 <= j < k - 1 implies (#[trigger] rest[j]).path@ != path by {
            assert(rest[j] == aps[j + 1]);
        }
        assert(aps[0].path@ != path);
        lemma_retuned(rest, path, strength, k - 1);
        assert(seq![aps[0]] + rest =~= aps);
        if k < aps.len() {
            let ap = Ap { strength, ..aps[k] };
            assert(seq![aps[0]] + rest.update(k - 1, ap) =~= aps.update(k, ap));
        }
    }
}

proof fn lemma_not_retuned(aps: Seq<Ap>, path: Seq<char>, strength: u8)
    requires
        !is_retuned(aps, path, strength),
    ensures
        retuned(aps, path, strength) == aps,
    decreases aps.len(),
{
    if aps.len() > 0 {
        if aps[0].path@ == path {
            assert(aps.update(0, Ap { strength, ..aps[0] }) =~= aps);
        } else {
            lemma_not_retuned(aps.skip(1), path, strength);
            assert(seq![aps[0]] + aps.skip(1) =~= aps);
        }
    }
}

/// A strength that is reported as no change leaves every row and the link as
/// they were, and one that is leaves the names and the number of the rows.
pub proof fn law_ignored_strengths_change_nothing(s: Snapshot, path: Seq<char>, strength: u8)
    ensures
        !is_retuned(s.aps@, path, strength) ==> retuned(s.aps@, path, strength) == s.aps@,
        !is_relinked(s.primary, path, strength) ==> relinked(s.primary, path, strength)
            == s.primary,
        retuned(s.aps@, path, strength).len() == s.aps@.len(),
        forall|i: int|
            0 <= i < s.aps@.len() ==> (#[trigger] retuned(s.aps@, path, strength)[i]).ssid
                == s.aps@[i].ssid,
{
    if !is_retuned(s.aps@, path, strength) {
        lemma_not_retuned(s.aps@, path, strength);
    }
    lemma_retuned_names(s.aps@, path, strength);
}

proof fn lemma_retuned_names(aps: Seq<Ap>, path: Seq<char>, strength: u8)
    ensures
        retuned(aps, path, strength).len() == aps.len(),
        forall|i: int|
            0 <= i < aps.len() ==> (#[trigger] retuned(aps, path, strength)[i]).ssid
                == aps[i].ssid,
    decreases aps.len(),
{
    if aps.len() > 0 && aps[0].path@ != path {
        let rest = aps.skip(1);
        let after = retuned(aps, path, strength);
        lemma_retuned_names(rest, path, strength);
        assert forall|i: int| 0 <= i < aps.len() implies (#[trigger] after[i]).ssid
            == aps[i].ssid by {
            if i > 0 {
                assert(after[i] == retuned(rest, path, strength)[i - 1]);
                assert(rest[i - 1] == aps[i]);
            }
        }
    }
}

/// Access-point strength moves constantly; patching it costs no round trips.
pub fn patch_strength(snapshot: &mut Snapshot, path: &str, changed: &Props) -> (r: Change)
    ensures
        match changed.u8_at("Strength"@) {
            Some(strength) => {
                &&& *final(snapshot) == (Snapshot {
                    primary: relinked(old(snapshot).primary, path@, strength),
                    aps: final(snapshot).aps,
                    ..*old(snapshot)
                })
                &&& final(snapshot).aps@ == retuned(old(snapshot).aps@, path@, strength)
                &&& r == if is_retuned(old(snapshot).aps@, path@, strength) || is_relinked(
                    old(snapshot).primary,
                    path@,
                    strength,
                ) {
                    Change::Patch
                } else {
                    Change::Ignore
                }
            },
            None => r == Change::Ignore && *final(snapshot) == *old(snapshot),
        },
{
    let strength: u8 = match changed.u8_of("Strength") {
        Some(strength) => strength,
        None => {
            return Change::Ignore;
        },
    };
    let mut touched: bool = false;
    let mut i: usize = 0;
    while i < snapshot.aps.len() && !same(snapshot.aps[i].path.as_str(), path)
        invariant
            i <= snapshot.aps@.len(),
            *snapshot == *old(snapshot),
            forall|j: int| 0 <= j < i ==> (#[trigger] snapshot.aps@[j]).path@ != path@,
        ensures
            i <= snapshot.aps@.len(),
            *snapshot == *old(snapshot),
            forall|j: int| 0 <= j < i ==> (#[trigger] snapshot.aps@[j]).path@ != path@,
            i < snapshot.aps@.len() ==> snapshot.aps@[i as int].path@ == path@,
        decreases snapshot.aps@.len() - i,
    {
        i += 1;
    }
    proof {
        lemma_retuned(snapshot.aps@, path@, strength, i as int);
    }
    if i < snapshot.aps.len() {
        touched = snapshot.aps[i].strength != strength;
        snapshot.aps[i].strength = strength;
    }
    match &mut snapshot.primary {
        Some(active) => match &mut active.ap {
            Some(link) => {
                if same(link.path.as_str(), path) {
                    if link.strength != strength {
                        touched = true;
                    }
                    link.strength = strength;
                }
            },
            None => {},
        },
        None => {},
    }
    if touched {
        Change::Patch
    } else {
        Change::Ignore
    }
}

/// A signal: its name, the object it is from, and, where it tells of changed
/// properties, their interface and values.
pub struct Signal<'a> {
    pub member: &'a str,
    pub path: &'a str,
    pub changed: Option<(&'a str, &'a Props)>,
}

/// Whether a signal is about rows that only the popup shows.
pub open spec fn popup_only(member: Seq<char>) -> bool {
    ||| member == "AccessPointAdded"@
    ||| member == "AccessPointRemoved"@
    ||| member == "NewConnection"@
    ||| member == "ConnectionRemoved"@
}

/// What a signal calls for, where it does not tell of an access point's
/// properties.
pub open spec fn change_for(
    member: Seq<char>,
    changed: Option<(Seq<char>, Props)>,
    detailed: bool,
) -> Change {
    if member == "NameOwnerChanged"@ {
        Change::Restart
    } else if popup_only(member) {
        if detailed {
            Change::Reread
        } else {
            Change::Ignore
        }
    } else if member == "PropertiesChanged"@ {
        match changed {
            Some((interface, props)) => if interface == "org.freedesktop.NetworkManager"@ {
                if manager_changed(props) {
                    Change::Reread
                } else {
                    Change::Ignore
                }
            } else if interface == "org.freedesktop.NetworkManager.Connection.Active"@ || interface
                == "org.freedesktop.NetworkManager.IP4Config"@ {
                Change::Reread
            } else if "org.freedesktop.NetworkManager.Device"@.is_prefix_of(interface) {
                if device_changed(props) {
                    Change::Reread
                } else {
                    Change::Ignore
                }
            } else {
                Change::Ignore
            },
            None => Change::Ignore,
        }
    } else {
        Change::Ignore
    }
}

pub open spec fn tells_of_ap(member: Seq<char>, changed: Option<(Seq<char>, Props)>) -> bool {
    &&& member == "PropertiesChanged"@
    &&& changed matches Some((interface, _)) && interface
        == "org.freedesktop.NetworkManager.AccessPoint"@
}

pub open spec fn changed_view(changed: Option<(&str, &Props)>) -> Option<(Seq<char>, Props)> {
    match changed {
        Some((interface, props)) => Some((interface@, *props)),
        None => None,
    }
}

/// What a signal calls for.
pub fn classify(signal: &Signal, snapshot: &mut Snapshot, detailed: bool) -> (r: Change)
    ensures
        ({
            let changed = changed_view(signal.changed);
            if tells_of_ap(signal.member@, changed) {
                match (changed->0).1.u8_at("Strength"@) {
                    Some(strength) => {
                        &&& *final(snapshot) == (Snapshot {
                            primary: relinked(old(snapshot).primary, signal.path@, strength),
                            aps: final(snapshot).aps,
                            ..*old(snapshot)
                        })
                        &&& final(snapshot).aps@ == retuned(
                            old(snapshot).aps@,
                            signal.path@,
                            strength,
                        )
                        &&& r == if is_retuned(old(snapshot).aps@, signal.path@, strength)
                            || is_relinked(old(snapshot).primary, signal.path@, strength) {
                            Change::Patch
                        } else {
                            Change::Ignore
                        }
                    },
                    None => r == Change::Ignore && *final(snapshot) == *old(snapshot),
                }
            } else {
                r == change_for(signal.member@, changed, detailed) && *final(snapshot) == *old(
                    snapshot,
                )
            }
        }),
{
    let member = signal.member;
    proof {
        reveal_strlit("NameOwnerChanged");
        reveal_strlit("AccessPointAdded");
        reveal_strlit("AccessPointRemoved");
        reveal_strlit("NewConnection");
        reveal_strlit("ConnectionRemoved");
        reveal_strlit("PropertiesChanged");
        assert("PropertiesChanged"@.len() == 17);
        assert("NameOwnerChanged"@.len() == 16);
        assert("AccessPointAdded"@.len() == 16);
        assert("AccessPointRemoved"@.len() == 18);
        assert("NewConnection"@.len() == 13);
        assert("ConnectionRemoved"@[0] == 'C');
        assert("PropertiesChanged"@[0] == 'P');
        reveal_strlit("org.freedesktop.NetworkManager");
        reveal_strlit("org.freedesktop.NetworkManager.Connection.Active");
        reveal_strlit("org.freedesktop.NetworkManager.IP4Config");
        reveal_strlit("org.freedesktop.NetworkManager.AccessPoint");
        assert("org.freedesktop.NetworkManager"@.len() == 30);
        assert("org.freedesktop.NetworkManager.Connection.Active"@.len() == 48);
        assert("org.freedesktop.NetworkManager.IP4Config"@.len() == 40);
        assert("org.freedesktop.NetworkManager.AccessPoint"@.len() == 42);
    }
    if same(member, "NameOwnerChanged") {
        return Change::Restart;
    }
    if same(member, "AccessPointAdded") || same(member, "AccessPointRemoved") || same(
        member,
        "NewConnection",
    ) || same(member, "ConnectionRemoved") {
        return if detailed {
            Change::Reread
        } else {
            Change::Ignore
        };
    }
    if !same(member, "PropertiesChanged") {
        return Change::Ignore;
    }
    match signal.changed {
        Some((interface, changed)) => {
            if same(interface, "org.freedesktop.NetworkManager") {
                if any_manager(changed) {
                    Change::Reread
                } else {
                    Change::Ignore
                }
            } else if same(interface, "org.freedesktop.NetworkManager.Connection.Active") || same(
                interface,
                "org.freedesktop.NetworkManager.IP4Config",
            ) {
                Change::Reread
            } else if same(interface, "org.freedesktop.NetworkManager.AccessPoint") {
                patch_strength(snapshot, signal.path, changed)
            } else if starts_with(interface, "org.freedesktop.NetworkManager.Device") {
                if any_device(changed) {
                    Change::Reread
                } else {
                    Change::Ignore
                }
            } else {
                Change::Ignore
            }
        },
        None => Change::Ignore,
    }
}

/// What the bar cell shows and what the popup's subscriptions hang from.
#[derive(Debug, Clone)]
pub struct Drawn {
    pub key: BarKey,
    pub iface: String,
    pub wifi: String,
    pub wireless: bool,
}

pub open spec fn shows(drawn: Option<Drawn>, s: Snapshot) -> bool {
    drawn matches Some(d) && d.key@ == key_of(s) && (d.iface@, d.wifi@, d.wireless)
        == subscriptions_of(s)
}

/// Which snapshots reach the bar.
#[derive(Debug, Clone)]
pub struct Gate {
    pub drawn: Option<Drawn>,
}

fn same_tier(a: Tier, b: Tier) -> (r: bool)
    ensures
        r == (a == b),
{
    a == b
}

impl Gate {
    pub fn new() -> (r: Gate)
        ensures
            r.drawn is None,
    {
        Gate { drawn: None }
    }

    /// Whether a snapshot is to be sent: every one while the popup is on
    /// screen, else unless the bar would redraw the module exactly as it
    /// already looks.
    pub fn passes(&mut self, snapshot: &Snapshot, detailed: bool) -> (r: bool)
        ensures
            r == (detailed || !shows(old(self).drawn, *snapshot)),
            shows(final(self).drawn, *snapshot),
    {
        let key = snapshot.bar_key();
        let (iface, wifi, wireless) = snapshot.subscription_keys();
        if !detailed {
            let unchanged = match &self.drawn {
                Some(d) => same(d.key.glyph, key.glyph) && same(d.key.rest, key.rest)
                    && same_tier(d.key.tier, key.tier) && same(d.iface.as_str(), iface) && same(
                    d.wifi.as_str(),
                    wifi,
                ) && d.wireless == wireless,
                None => false,
            };
            if unchanged {
                return false;
            }
        }
        self.drawn = Some(
            Drawn { key, iface: iface.to_owned(), wifi: wifi.to_owned(), wireless },
        );
        true
    }
}

/// What is pending between two snapshots.
#[derive(Debug, Clone)]
pub struct Pending {
    pub reread: bool,
    pub dirty: bool,
}

/// What is to be done once no more signals come for a while.
#[derive(Debug, Clone, Copy, PartialEq, Eq, Structural)]
pub enum Work {
    Reread,
    Sort,
}

impl Pending {
    /// Note a change; whether the session goes on.
    pub fn note(&mut self, change: Change) -> (goes_on: bool)
        ensures
            goes_on == (change != Change::Restart),
            final(self).dirty == (old(self).dirty || change == Change::Patch || change
                == Change::Reread),
            final(self).reread == (old(self).reread || change == Change::Reread),
    {
        match change {
            Change::Ignore => true,
            Change::Patch => {
                self.dirty = true;
                true
            },
            Change::Reread => {
                self.reread = true;
                self.dirty = true;
                true
            },
            Change::Restart => false,
        }
    }

    /// The work that is due after a pause, and nothing pending any more.
    pub fn settle(&mut self) -> (work: Work)
        ensures
            work == if old(self).reread {
                Work::Reread
            } else {
                Work::Sort
            },
            !final(self).reread,
            !final(self).dirty,
    {
        let work = if self.reread {
            Work::Reread
        } else {
            Work::Sort
        };
        self.reread = false;
        self.dirty = false;
        work
    }
}

} // verus!
