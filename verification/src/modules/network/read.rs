//! Snapshots from the properties of NetworkManager's objects.
use crate::dbus::{
    dict_string, dict_u32, entry_text, entry_u32, peel, peeled, ssid_in, ssid_of, Datum, Props,
};
use crate::modules::network::snapshot::{
    is_wired, is_wireless, security, security_of, Active, Ap, ApLink, Device, Ip4, Profile,
    Snapshot, ACTIVE_ACTIVATING, CONNECTIVITY_UNKNOWN, DEVICE_WIFI,
};
use crate::number::{decimal, unsigned};
use crate::order::{in_line, sort, Ranked};
use crate::text::{
    comes_before, concat3, lowercase, opt_text, same, starts_with, text_before, texts, to_lowercase,
};
use vstd::prelude::*;
use vstd::string::*;

verus! {

/// A text, or nothing.
pub open spec fn or_empty(s: Option<Seq<char>>) -> Seq<char> {
    match s {
        Some(s) => s,
        None => Seq::empty(),
    }
}

fn or_default(s: Option<String>) -> (r: String)
    ensures
        r@ == or_empty(opt_text(s)),
{
    match s {
        Some(s) => s,
        None => String::new(),
    }
}

/// An object path, unless it is the root, which stands for none.
pub open spec fn object_at(props: Props, name: Seq<char>) -> Option<Seq<char>> {
    match props.text_at(name) {
        Some(path) => if path == "/"@ {
            None
        } else {
            Some(path)
        },
        None => None,
    }
}

pub fn object_of(props: &Props, name: &str) -> (r: Option<String>)
    ensures
        opt_text(r) == object_at(*props, name@),
{
    match props.string_of(name) {
        Some(path) => if same(path.as_str(), "/") {
            None
        } else {
            Some(path)
        },
        None => None,
    }
}

/// A device, from its properties.
pub fn read_device(path: &str, props: &Props) -> (r: Device)
    ensures
        r.path@ == path@,
        r.iface@ == or_empty(props.text_at("Interface"@)),
        r.kind == match props.u32_at("DeviceType"@) {
            Some(kind) => kind,
            None => 0,
        },
{
    Device {
        path: path.to_owned(),
        iface: or_default(props.string_of("Interface")),
        kind: match props.u32_of("DeviceType") {
            Some(kind) => kind,
            None => 0,
        },
    }
}

pub fn copy_device(d: &Device) -> (r: Device)
    ensures
        r.path@ == d.path@,
        r.iface@ == d.iface@,
        r.kind == d.kind,
{
    Device {
        path: d.path.as_str().to_owned(),
        iface: d.iface.as_str().to_owned(),
        kind: d.kind,
    }
}

/// The first of `paths` that is a known device's.
pub open spec fn first_device(paths: Seq<Seq<char>>, devices: Seq<Device>) -> Option<int>
    decreases paths.len(),
{
    if paths.len() == 0 {
        None
    } else if device_at(devices, paths[0]) is Some {
        device_at(devices, paths[0])
    } else {
        first_device(paths.skip(1), devices)
    }
}

/// Where the device with that path stands; the last of two counts.
pub open spec fn device_at(devices: Seq<Device>, path: Seq<char>) -> Option<int>
    decreases devices.len(),
{
    if devices.len() == 0 {
        None
    } else if devices.last().path@ == path {
        Some(devices.len() - 1)
    } else {
        device_at(devices.drop_last(), path)
    }
}

fn find_device(devices: &Vec<Device>, path: &str) -> (r: Option<usize>)
    ensures
        match r {
            Some(i) => i < devices@.len() && device_at(devices@, path@) == Some(i as int),
            None => device_at(devices@, path@) is None,
        },
{
    let ghost all = devices@;
    let mut n: usize = devices.len();
    assert(all.take(n as int) =~= all);
    while n > 0
        invariant
            n <= all.len(),
            all == devices@,
            device_at(all.take(n as int), path@) == device_at(all, path@),
        decreases n,
    {
        proof {
            assert(all.take(n as int).last() == all[n - 1]);
            assert(all.take(n as int).drop_last() =~= all.take(n - 1));
        }
        if same(devices[n - 1].path.as_str(), path) {
            return Some(n - 1);
        }
        n -= 1;
    }
    None
}

fn find_first_device(paths: &Vec<String>, devices: &Vec<Device>) -> (r: Option<usize>)
    ensures
        match r {
            Some(i) => i < devices@.len() && first_device(texts(paths@), devices@) == Some(
                i as int,
            ),
            None => first_device(texts(paths@), devices@) is None,
        },
{
    let ghost all = texts(paths@);
    let mut i: usize = 0;
    assert(all.skip(0) =~= all);
    while i < paths.len()
        invariant
            i <= all.len(),
            all == texts(paths@),
            first_device(all.skip(i as int), devices@) == first_device(all, devices@),
        decreases all.len() - i,
    {
        proof {
            assert(all.skip(i as int)[0] == paths@[i as int]@);
            assert(all.skip(i as int).skip(1) =~= all.skip(i + 1));
        }
        match find_device(devices, paths[i].as_str()) {
            Some(at) => {
                return Some(at);
            },
            None => {},
        }
        i += 1;
    }
    None
}

/// An active connection, from its own properties: what its device and its
/// addresses say is read afterwards.
pub fn read_active(path: &str, props: &Props, devices: &Vec<Device>) -> (r: Active)
    ensures
        r.path@ == path@,
        r.profile@ == or_empty(props.text_at("Connection"@)),
        r.id@ == or_empty(props.text_at("Id"@)),
        r.kind@ == or_empty(props.text_at("Type"@)),
        r.state == match props.u32_at("State"@) {
            Some(state) => state,
            None => 0,
        },
        match first_device(props.texts_at("Devices"@), devices@) {
            Some(i) => {
                &&& r.device.path@ == devices@[i].path@
                &&& r.device.iface@ == devices@[i].iface@
                &&& r.device.kind == devices@[i].kind
            },
            None => r.device.path@.len() == 0 && r.device.iface@.len() == 0 && r.device.kind == 0,
        },
        r.ap is None,
        r.bitrate is None,
        r.speed is None,
        r.carrier is None,
        r.ip4.addresses@.len() == 0,
        r.ip4.gateway is None,
        r.ip4.dns@.len() == 0,
{
    let paths = props.paths_of("Devices");
    let device = match find_first_device(&paths, devices) {
        Some(i) => copy_device(&devices[i]),
        None => Device { path: String::new(), iface: String::new(), kind: 0 },
    };
    Active {
        path: path.to_owned(),
        profile: or_default(props.string_of("Connection")),
        id: or_default(props.string_of("Id")),
        kind: or_default(props.string_of("Type")),
        state: match props.u32_of("State") {
            Some(state) => state,
            None => 0,
        },
        device,
        ap: None,
        bitrate: None,
        speed: None,
        carrier: None,
        ip4: Ip4 { addresses: Vec::new(), gateway: None, dns: Vec::new() },
    }
}

/// What more there is to read about an active connection.
#[derive(Debug, Clone, Copy, PartialEq, Eq, Structural)]
pub enum More {
    Wireless,
    Wired,
    Nothing,
}

/// A connection without a device has no link to ask about.
pub fn more_to_read(active: &Active) -> (r: More)
    ensures
        r == if active.device.path@.len() == 0 {
            More::Nothing
        } else if is_wireless(active.kind@) {
            More::Wireless
        } else if is_wired(active.kind@) {
            More::Wired
        } else {
            More::Nothing
        },
{
    if active.device.path.as_str().is_empty() {
        More::Nothing
    } else if starts_with(active.kind.as_str(), "802-11-wireless") {
        More::Wireless
    } else if starts_with(active.kind.as_str(), "802-3-ethernet") {
        More::Wired
    } else {
        More::Nothing
    }
}

/// The access point a wireless link is on, from its properties.
pub fn read_link(path: String, props: &Props) -> (r: ApLink)
    ensures
        r.path == path,
        r.ssid@ == or_empty(ssid_in(*props)),
        r.strength == match props.u8_at("Strength"@) {
            Some(strength) => strength,
            None => 0,
        },
        r.frequency == match props.u32_at("Frequency"@) {
            Some(mhz) => mhz,
            None => 0,
        },
{
    ApLink {
        ssid: or_default(ssid_of(props)),
        strength: match props.u8_of("Strength") {
            Some(strength) => strength,
            None => 0,
        },
        frequency: match props.u32_of("Frequency") {
            Some(mhz) => mhz,
            None => 0,
        },
        path,
    }
}

/// The address of an entry, with its prefix where it has one; none where the
/// entry is no dictionary or has no address.
pub open spec fn address_in(entry: Datum) -> Option<Seq<char>> {
    match peeled(entry) {
        Datum::Dict(pairs) => match entry_text(pairs@, "address"@) {
            Some(address) => Some(
                match entry_u32(pairs@, "prefix"@) {
                    Some(prefix) => address + "/"@ + decimal(prefix as nat),
                    None => address,
                },
            ),
            None => None,
        },
        _ => None,
    }
}

/// The address of an entry.
pub open spec fn server_in(entry: Datum) -> Option<Seq<char>> {
    match peeled(entry) {
        Datum::Dict(pairs) => entry_text(pairs@, "address"@),
        _ => None,
    }
}

pub open spec fn addresses_in(list: Seq<Datum>) -> Seq<Seq<char>>
    decreases list.len(),
{
    if list.len() == 0 {
        Seq::empty()
    } else {
        let before = addresses_in(list.drop_last());
        match address_in(list.last()) {
            Some(address) => before.push(address),
            None => before,
        }
    }
}

pub open spec fn servers_in(list: Seq<Datum>) -> Seq<Seq<char>>
    decreases list.len(),
{
    if list.len() == 0 {
        Seq::empty()
    } else {
        let before = servers_in(list.drop_last());
        match server_in(list.last()) {
            Some(address) => before.push(address),
            None => before,
        }
    }
}

/// The items of a list property; none where it is no list.
pub open spec fn list_at(props: Props, name: Seq<char>) -> Seq<Datum> {
    match props.field(name) {
        Some(Datum::List(list)) => list@,
        _ => Seq::empty(),
    }
}

fn address_of(entry: &Datum) -> (r: Option<String>)
    ensures
        opt_text(r) == address_in(*entry),
{
    match peel(entry) {
        Datum::Dict(pairs) => match dict_string(pairs, "address") {
            Some(address) => Some(
                match dict_u32(pairs, "prefix") {
                    Some(prefix) => concat3(
                        address.as_str(),
                        "/",
                        unsigned(prefix as u64).as_str(),
                    ),
                    None => address,
                },
            ),
            None => None,
        },
        _ => None,
    }
}

fn server_of(entry: &Datum) -> (r: Option<String>)
    ensures
        opt_text(r) == server_in(*entry),
{
    match peel(entry) {
        Datum::Dict(pairs) => dict_string(pairs, "address"),
        _ => None,
    }
}

/// A connection's addresses, gateway and name servers.
pub fn read_ip4(props: &Props) -> (r: Ip4)
    ensures
        texts(r.addresses@) == addresses_in(list_at(*props, "AddressData"@)),
        opt_text(r.gateway) == match props.text_at("Gateway"@) {
            Some(gateway) => if gateway.len() > 0 {
                Some(gateway)
            } else {
                None
            },
            None => None,
        },
        texts(r.dns@) == servers_in(list_at(*props, "NameserverData"@)),
{
    let mut addresses: Vec<String> = Vec::new();
    assert(texts(addresses@) =~= Seq::empty());
    match props.get("AddressData") {
        Some(Datum::List(list)) => {
            let ghost all = list@;
            let mut i: usize = 0;
            while i < list.len()
                invariant
                    i <= all.len(),
                    all == list@,
                    texts(addresses@) == addresses_in(all.take(i as int)),
                decreases all.len() - i,
            {
                proof {
                    assert(all.take(i + 1).drop_last() =~= all.take(i as int));
                    assert(all.take(i + 1).last() == all[i as int]);
                }
                let ghost had = addresses@;
                match address_of(&list[i]) {
                    Some(address) => {
                        let ghost text = address@;
                        addresses.push(address);
                        assert(texts(addresses@) =~= texts(had).push(text));
                    },
                    None => {},
                }
                i += 1;
            }
            assert(all.take(i as int) =~= all);
        },
        _ => {},
    }
    let mut dns: Vec<String> = Vec::new();
    assert(texts(dns@) =~= Seq::empty());
    match props.get("NameserverData") {
        Some(Datum::List(list)) => {
            let ghost all = list@;
            let mut i: usize = 0;
            while i < list.len()
                invariant
                    i <= all.len(),
                    all == list@,
                    texts(dns@) == servers_in(all.take(i as int)),
                decreases all.len() - i,
            {
                proof {
                    assert(all.take(i + 1).drop_last() =~= all.take(i as int));
                    assert(all.take(i + 1).last() == all[i as int]);
                }
                let ghost had = dns@;
                match server_of(&list[i]) {
                    Some(address) => {
                        let ghost text = address@;
                        dns.push(address);
                        assert(texts(dns@) =~= texts(had).push(text));
                    },
                    None => {},
                }
                i += 1;
            }
            assert(all.take(i as int) =~= all);
        },
        _ => {},
    }
    let gateway = match props.string_of("Gateway") {
        Some(gateway) => if gateway.as_str().is_empty() {
            None
        } else {
            Some(gateway)
        },
        None => None,
    };
    Ip4 { addresses, gateway, dns }
}

/// The first wifi device.
pub open spec fn first_wifi(devices: Seq<Device>) -> Option<Device>
    decreases devices.len(),
{
    if devices.len() == 0 {
        None
    } else {
        let before = first_wifi(devices.drop_last());
        if before is None && devices.last().kind == DEVICE_WIFI {
            Some(devices.last())
        } else {
            before
        }
    }
}

/// The primary connection, by its path; the last of two counts.
pub open spec fn primary_of(actives: Seq<Active>, primary: Option<Seq<char>>) -> Option<Active>
    decreases actives.len(),
{
    if actives.len() == 0 {
        None
    } else if primary is Some && actives.last().path@ == primary->0 {
        Some(actives.last())
    } else {
        primary_of(actives.drop_last(), primary)
    }
}

/// The connections that are not the primary one.
pub open spec fn others(actives: Seq<Active>, primary: Option<Seq<char>>) -> Seq<Active>
    decreases actives.len(),
{
    if actives.len() == 0 {
        Seq::empty()
    } else if primary is Some && actives.last().path@ == primary->0 {
        others(actives.drop_last(), primary)
    } else {
        others(actives.drop_last(), primary).push(actives.last())
    }
}

/// A link that is still coming up.
pub open spec fn comes_up(active: Active) -> bool {
    active.state == ACTIVE_ACTIVATING && (is_wireless(active.kind@) || is_wired(active.kind@))
}

/// The first link that is still coming up.
pub open spec fn first_coming(actives: Seq<Active>) -> Option<int>
    decreases actives.len(),
{
    if actives.len() == 0 {
        None
    } else {
        let before = first_coming(actives.drop_last());
        if before is None && comes_up(actives.last()) {
            Some(actives.len() - 1)
        } else {
            before
        }
    }
}

/// Whether `s` is the snapshot of those devices and connections. A connection
/// that is still coming up is not primary yet, but the bar should say
/// "connecting" with its name rather than "offline".
pub open spec fn is_assembled(
    s: Snapshot,
    manager: Props,
    devices: Seq<Device>,
    actives: Seq<Active>,
) -> bool {
    let path = object_at(manager, "PrimaryConnection"@);
    let primary = primary_of(actives, path);
    let rest = others(actives, path);
    &&& s.state == match manager.u32_at("State"@) {
        Some(state) => state,
        None => 0,
    }
    &&& s.connectivity == match manager.u32_at("Connectivity"@) {
        Some(connectivity) => connectivity,
        None => CONNECTIVITY_UNKNOWN,
    }
    &&& s.wireless_enabled == (manager.bool_at("WirelessEnabled"@) == Some(true))
    &&& match first_wifi(devices) {
        Some(wifi) => s.wifi matches Some(d) && d.path@ == wifi.path@ && d.iface@ == wifi.iface@
            && d.kind == wifi.kind,
        None => s.wifi is None,
    }
    &&& match first_coming(rest) {
        Some(i) => if primary is None {
            s.primary == Some(rest[i]) && s.secondary@ == rest.remove(i)
        } else {
            s.primary == primary && s.secondary@ == rest
        },
        None => s.primary == primary && s.secondary@ == rest,
    }
    &&& s.profiles@.len() == 0
    &&& s.aps@.len() == 0
}

proof fn lemma_first_coming(actives: Seq<Active>, n: int)
    requires
        0 <= n <= actives.len(),
        first_coming(actives.take(n)) is Some,
    ensures
        first_coming(actives) == first_coming(actives.take(n)),
    decreases actives.len() - n,
{
    if n < actives.len() {
        assert(actives.take(n + 1).drop_last() =~= actives.take(n));
        lemma_first_coming(actives, n + 1);
    } else {
        assert(actives.take(n) =~= actives);
    }
}

/// A snapshot of the devices and the active connections, in the order in which
/// the manager lists them.
pub fn assemble(manager: &Props, devices: &Vec<Device>, actives: Vec<Active>) -> (s: Snapshot)
    ensures
        is_assembled(s, *manager, devices@, actives@),
{
    let ghost all_devices = devices@;
    let mut wifi: Option<Device> = None;
    let mut i: usize = 0;
    while i < devices.len()
        invariant
            i <= all_devices.len(),
            all_devices == devices@,
            match first_wifi(all_devices.take(i as int)) {
                Some(d) => wifi matches Some(w) && w.path@ == d.path@ && w.iface@ == d.iface@
                    && w.kind == d.kind,
                None => wifi is None,
            },
        decreases all_devices.len() - i,
    {
        proof {
            assert(all_devices.take(i + 1).drop_last() =~= all_devices.take(i as int));
            assert(all_devices.take(i + 1).last() == all_devices[i as int]);
        }
        if wifi.is_none() && devices[i].kind == DEVICE_WIFI {
            wifi = Some(copy_device(&devices[i]));
        }
        i += 1;
    }
    assert(all_devices.take(i as int) =~= all_devices);
    let path = object_of(manager, "PrimaryConnection");
    let ghost path_text = opt_text(path);
    let ghost all = actives@;
    let mut left = actives;
    let mut primary: Option<Active> = None;
    let mut secondary: Vec<Active> = Vec::new();
    let ghost mut k: int = 0;
    assert(all.skip(0) =~= all);
    while left.len() > 0
        invariant
            0 <= k <= all.len(),
            left@ == all.skip(k),
            path_text == opt_text(path),
            primary == primary_of(all.take(k), path_text),
            secondary@ == others(all.take(k), path_text),
        decreases left@.len(),
    {
        let active = left.remove(0);
        proof {
            assert(active == all[k]);
            assert(left@ =~= all.skip(k + 1));
            assert(all.take(k + 1).drop_last() =~= all.take(k));
            k = k + 1;
        }
        let own = match &path {
            Some(path) => same(active.path.as_str(), path.as_str()),
            None => false,
        };
        if own {
            primary = Some(active);
        } else {
            secondary.push(active);
        }
    }
    assert(all.take(k) =~= all);
    let ghost rest = secondary@;
    if primary.is_none() {
        let mut j: usize = 0;
        while j < secondary.len() && !coming(&secondary[j])
            invariant
                j <= rest.len(),
                secondary@ == rest,
                first_coming(rest.take(j as int)) is None,
            ensures
                j <= rest.len(),
                secondary@ == rest,
                first_coming(rest.take(j as int)) is None,
                j < rest.len() ==> comes_up(rest[j as int]),
            decreases rest.len() - j,
        {
            proof {
                assert(rest.take(j + 1).drop_last() =~= rest.take(j as int));
                assert(rest.take(j + 1).last() == rest[j as int]);
            }
            j += 1;
        }
        if j < secondary.len() {
            proof {
                assert(rest.take(j + 1).drop_last() =~= rest.take(j as int));
                assert(rest.take(j + 1).last() == rest[j as int]);
                lemma_first_coming(rest, j + 1);
            }
            primary = Some(secondary.remove(j));
        } else {
            assert(rest.take(j as int) =~= rest);
        }
    }
    Snapshot {
        state: match manager.u32_of("State") {
            Some(state) => state,
            None => 0,
        },
        connectivity: match manager.u32_of("Connectivity") {
            Some(connectivity) => connectivity,
            None => CONNECTIVITY_UNKNOWN,
        },
        wireless_enabled: match manager.bool_of("WirelessEnabled") {
            Some(enabled) => enabled,
            None => false,
        },
        wifi,
        primary,
        secondary,
        profiles: Vec::new(),
        aps: Vec::new(),
    }
}

fn coming(active: &Active) -> (r: bool)
    ensures
        r == comes_up(*active),
{
    active.state == ACTIVE_ACTIVATING && (starts_with(active.kind.as_str(), "802-11-wireless")
        || starts_with(active.kind.as_str(), "802-3-ethernet"))
}

/// The path of the active connection that came from a profile: the primary one
/// first.
pub open spec fn active_from(s: Snapshot, profile: Seq<char>) -> Option<Seq<char>> {
    if s.primary matches Some(active) && active.profile@ == profile {
        Some((s.primary->0).path@)
    } else {
        active_among(s.secondary@, profile)
    }
}

pub open spec fn active_among(actives: Seq<Active>, profile: Seq<char>) -> Option<Seq<char>>
    decreases actives.len(),
{
    if actives.len() == 0 {
        None
    } else if actives[0].profile@ == profile {
        Some(actives[0].path@)
    } else {
        active_among(actives.skip(1), profile)
    }
}

fn find_active(s: &Snapshot, profile: &str) -> (r: Option<String>)
    ensures
        opt_text(r) == active_from(*s, profile@),
{
    match &s.primary {
        Some(active) => if same(active.profile.as_str(), profile) {
            return Some(active.path.as_str().to_owned());
        },
        None => {},
    }
    let ghost all = s.secondary@;
    let mut i: usize = 0;
    assert(all.skip(0) =~= all);
    while i < s.secondary.len()
        invariant
            i <= all.len(),
            all == s.secondary@,
            !(s.primary matches Some(active) && active.profile@ == profile@),
            active_among(all.skip(i as int), profile@) == active_among(all, profile@),
        decreases all.len() - i,
    {
        proof {
            assert(all.skip(i as int)[0] == all[i as int]);
            assert(all.skip(i as int).skip(1) =~= all.skip(i + 1));
        }
        if same(s.secondary[i].profile.as_str(), profile) {
            return Some(s.secondary[i].path.as_str().to_owned());
        }
        i += 1;
    }
    None
}

/// A saved profile, from the settings that name and describe it; of one that is
/// not described, its wireless settings are `None`.
pub fn read_profile(
    path: String,
    connection: &Props,
    wireless: Option<&Props>,
    s: &Snapshot,
) -> (r: Profile)
    ensures
        r.path == path,
        r.id@ == match connection.text_at("id"@) {
            Some(id) => id,
            None => path@,
        },
        r.kind@ == or_empty(connection.text_at("type"@)),
        opt_text(r.ssid) == match wireless {
            Some(props) => ssid_in(*props),
            None => None,
        },
        opt_text(r.active) == active_from(*s, path@),
{
    Profile {
        id: match connection.string_of("id") {
            Some(id) => id,
            None => path.as_str().to_owned(),
        },
        kind: or_default(connection.string_of("type")),
        ssid: match wireless {
            Some(props) => ssid_of(props),
            None => None,
        },
        active: find_active(s, path.as_str()),
        path,
    }
}

/// Active profiles first, then by name, whatever its case.
impl Ranked for Profile {
    open spec fn precedes(&self, other: &Self) -> bool {
        let (a, b) = (self.active is Some, other.active is Some);
        (a && !b) || (a == b && text_before(lowercase(self.id@), lowercase(other.id@)))
    }

    fn before(&self, other: &Self) -> (r: bool) {
        let a: bool = self.active.is_some();
        let b: bool = other.active.is_some();
        if a != b {
            a
        } else {
            comes_before(
                to_lowercase(self.id.as_str()).as_str(),
                to_lowercase(other.id.as_str()).as_str(),
            )
        }
    }
}

/// The saved profiles, in the order the popup lists them.
pub fn sort_profiles(profiles: Vec<Profile>) -> (r: Vec<Profile>)
    ensures
        r@ == in_line(profiles@),
{
    sort(profiles)
}

/// The path of the first profile saved for an SSID.
pub open spec fn profile_for(profiles: Seq<Profile>, ssid: Seq<char>) -> Option<Seq<char>>
    decreases profiles.len(),
{
    if profiles.len() == 0 {
        None
    } else if opt_text(profiles[0].ssid) == Some(ssid) {
        Some(profiles[0].path@)
    } else {
        profile_for(profiles.skip(1), ssid)
    }
}

fn find_profile(profiles: &Vec<Profile>, ssid: &str) -> (r: Option<String>)
    ensures
        opt_text(r) == profile_for(profiles@, ssid@),
{
    let ghost all = profiles@;
    let mut i: usize = 0;
    assert(all.skip(0) =~= all);
    while i < profiles.len()
        invariant
            i <= all.len(),
            all == profiles@,
            profile_for(all.skip(i as int), ssid@) == profile_for(all, ssid@),
        decreases all.len() - i,
    {
        proof {
            assert(all.skip(i as int)[0] == all[i as int]);
            assert(all.skip(i as int).skip(1) =~= all.skip(i + 1));
        }
        match &profiles[i].ssid {
            Some(own) => if same(own.as_str(), ssid) {
                return Some(profiles[i].path.as_str().to_owned());
            },
            None => {},
        }
        i += 1;
    }
    None
}

/// The path of the access point that the primary connection is on.
pub open spec fn link_path(s: Snapshot) -> Option<Seq<char>> {
    match s.primary {
        Some(active) => match active.ap {
            Some(link) => Some(link.path@),
            None => None,
        },
        None => None,
    }
}

/// A nearby access point, from its properties. A hidden SSID has nothing to
/// show and nothing to click.
pub fn read_ap(path: String, props: &Props, s: &Snapshot) -> (r: Option<Ap>)
    ensures
        match ssid_in(*props) {
            Some(ssid) => if ssid.len() > 0 {
                &&& r matches Some(ap)
                &&& ap.path == path
                &&& ap.ssid@ == ssid
                &&& ap.strength == match props.u8_at("Strength"@) {
                    Some(strength) => strength,
                    None => 0,
                }
                &&& ap.security@ == security_of(
                    flags_at(*props, "Flags"@),
                    flags_at(*props, "WpaFlags"@),
                    flags_at(*props, "RsnFlags"@),
                )
                &&& ap.frequency == flags_at(*props, "Frequency"@)
                &&& ap.active == (link_path(*s) == Some(path@))
                &&& opt_text(ap.profile) == profile_for(s.profiles@, ssid)
            } else {
                r is None
            },
            None => r is None,
        },
{
    match ssid_of(props) {
        Some(ssid) => {
            if ssid.as_str().is_empty() {
                return None;
            }
            let active = match &s.primary {
                Some(active) => match &active.ap {
                    Some(link) => same(link.path.as_str(), path.as_str()),
                    None => false,
                },
                None => false,
            };
            Some(
                Ap {
                    strength: match props.u8_of("Strength") {
                        Some(strength) => strength,
                        None => 0,
                    },
                    security: security(
                        flags_of(props, "Flags"),
                        flags_of(props, "WpaFlags"),
                        flags_of(props, "RsnFlags"),
                    ),
                    frequency: flags_of(props, "Frequency"),
                    active,
                    profile: find_profile(&s.profiles, ssid.as_str()),
                    ssid,
                    path,
                },
            )
        },
        None => None,
    }
}

/// A number among the properties; 0 where there is none.
pub open spec fn flags_at(props: Props, name: Seq<char>) -> u32 {
    match props.u32_at(name) {
        Some(n) => n,
        None => 0,
    }
}

fn flags_of(props: &Props, name: &str) -> (r: u32)
    ensures
        r == flags_at(*props, name@),
{
    match props.u32_of(name) {
        Some(n) => n,
        None => 0,
    }
}

} // verus!
