//! Everything the network module renders.
use crate::order::{
    in_line, law_sorting_sorts, lemma_in_line_has, lemma_in_line_once, lemma_in_line_within,
    lemma_one_line, orders_by_key, sort, sorted, strict, Ranked,
};
use crate::text::{
    comes_before, concat, elide, elided, lemma_text_order_total, lemma_text_order_transitive, same,
    starts_with, text_before,
};
use vstd::prelude::*;
use vstd::string::*;

verus! {

pub const ACTIVE_ACTIVATING: u32 = 1;

pub const ACTIVE_ACTIVATED: u32 = 2;

/// What a machine with the connectivity check disabled reports, so it must not
/// be read as "no internet".
pub const CONNECTIVITY_UNKNOWN: u32 = 0;

pub const CONNECTIVITY_FULL: u32 = 4;

pub const DEVICE_WIFI: u32 = 2;

pub const STATE_CONNECTING: u32 = 40;

pub const ICON_ETHERNET: &'static str = "\u{f0200}";

pub const ICON_WIFI_OFF: &'static str = "\u{f092e}";

pub const ICON_WIFI_DOWN: &'static str = "\u{f092f}";

/// Associated, but no route out.
pub const ICON_NO_INTERNET: &'static str = "\u{f092b}";

/// For a machine with no wifi at all.
pub const ICON_LAN_DOWN: &'static str = "\u{f0319}";

/// For tunnels and anything that is neither wifi nor wired.
pub const ICON_OTHER: &'static str = "\u{f0317}";

/// Longest connection name rendered in the bar.
pub const NAME_LIMIT: usize = 18;

#[derive(Debug, Clone)]
pub struct Device {
    pub path: String,
    pub iface: String,
    pub kind: u32,
}

#[derive(Debug, Clone)]
pub struct ApLink {
    pub path: String,
    pub ssid: String,
    pub strength: u8,
    /// MHz.
    pub frequency: u32,
}

#[derive(Debug, Clone)]
pub struct Ip4 {
    pub addresses: Vec<String>,
    pub gateway: Option<String>,
    pub dns: Vec<String>,
}

/// An active connection.
#[derive(Debug, Clone)]
pub struct Active {
    pub path: String,
    /// Object path of the profile that this came from.
    pub profile: String,
    pub id: String,
    pub kind: String,
    pub state: u32,
    pub device: Device,
    pub ap: Option<ApLink>,
    /// Wifi link rate, in kb/s.
    pub bitrate: Option<u32>,
    /// Wired link speed, in Mb/s.
    pub speed: Option<u32>,
    pub carrier: Option<bool>,
    pub ip4: Ip4,
}

/// A saved profile.
#[derive(Debug, Clone)]
pub struct Profile {
    pub path: String,
    pub id: String,
    pub kind: String,
    pub ssid: Option<String>,
    /// Object path of the active connection using this profile, when it is up.
    pub active: Option<String>,
}

/// A nearby access point.
#[derive(Debug, Clone)]
pub struct Ap {
    pub path: String,
    pub ssid: String,
    pub strength: u8,
    pub security: &'static str,
    /// MHz.
    pub frequency: u32,
    pub active: bool,
    /// Profile that can be activated for this SSID, when one is saved.
    pub profile: Option<String>,
}

#[derive(Debug, Clone)]
pub struct Snapshot {
    pub state: u32,
    pub connectivity: u32,
    pub wireless_enabled: bool,
    /// The wifi device, when the machine has one.
    pub wifi: Option<Device>,
    pub primary: Option<Active>,
    /// Active connections that are not the primary one: VPNs, tunnels.
    pub secondary: Vec<Active>,
    pub profiles: Vec<Profile>,
    pub aps: Vec<Ap>,
}

/// The colour of the bar cell.
#[derive(Debug, Clone, Copy, PartialEq, Eq, Structural)]
pub enum Tier {
    /// Connected, with a route out.
    Up,
    /// Coming up.
    Pending,
    /// Associated, but nothing past the local link.
    Degraded,
    /// Radio switched off: the user's own doing, not a fault.
    Off,
    /// Nothing connected.
    Down,
}

/// What the bar cell draws, and nothing else.
#[derive(Debug, Clone)]
pub struct BarKey {
    pub glyph: &'static str,
    pub rest: &'static str,
    pub tier: Tier,
}

pub struct BarKeyView {
    pub glyph: Seq<char>,
    pub rest: Seq<char>,
    pub tier: Tier,
}

impl View for BarKey {
    type V = BarKeyView;

    open spec fn view(&self) -> BarKeyView {
        BarKeyView { glyph: self.glyph@, rest: self.rest@, tier: self.tier }
    }
}

/// One of four icons, per 25 points of strength.
pub open spec fn wifi_symbol(strength: u8) -> Seq<char> {
    if strength < 25 {
        "\u{f091f}"@
    } else if strength < 50 {
        "\u{f0922}"@
    } else if strength < 75 {
        "\u{f0925}"@
    } else {
        "\u{f0928}"@
    }
}

pub fn wifi_icon(strength: u8) -> (r: &'static str)
    ensures
        r@ == wifi_symbol(strength),
{
    if strength < 25 {
        "\u{f091f}"
    } else if strength < 50 {
        "\u{f0922}"
    } else if strength < 75 {
        "\u{f0925}"
    } else {
        "\u{f0928}"
    }
}

pub open spec fn is_wireless(kind: Seq<char>) -> bool {
    "802-11-wireless"@.is_prefix_of(kind)
}

pub open spec fn is_wired(kind: Seq<char>) -> bool {
    "802-3-ethernet"@.is_prefix_of(kind)
}

pub open spec fn link_icon(active: Active) -> Seq<char> {
    if is_wireless(active.kind@) {
        wifi_symbol(
            match active.ap {
                Some(ap) => ap.strength,
                None => 0,
            },
        )
    } else if is_wired(active.kind@) {
        ICON_ETHERNET@
    } else {
        ICON_OTHER@
    }
}

/// Whether another connection than the primary one is coming up.
pub open spec fn any_activating(actives: Seq<Active>) -> bool {
    exists|i: int| 0 <= i < actives.len() && (#[trigger] actives[i]).state == ACTIVE_ACTIVATING
}

/// A working connection is the glyph alone; only the states a glyph cannot
/// spell out keep words.
pub open spec fn key_of(s: Snapshot) -> BarKeyView {
    match s.primary {
        Some(active) => if active.state != ACTIVE_ACTIVATED {
            BarKeyView { glyph: link_icon(active), rest: "connecting…"@, tier: Tier::Pending }
        } else if s.connectivity != CONNECTIVITY_FULL && s.connectivity != CONNECTIVITY_UNKNOWN {
            BarKeyView {
                glyph: ICON_NO_INTERNET@,
                rest: "no internet"@,
                tier: Tier::Degraded,
            }
        } else {
            BarKeyView { glyph: link_icon(active), rest: ""@, tier: Tier::Up }
        },
        None => {
            let down = if s.wifi is Some {
                ICON_WIFI_DOWN@
            } else {
                ICON_LAN_DOWN@
            };
            if s.wifi is Some && !s.wireless_enabled {
                BarKeyView { glyph: ICON_WIFI_OFF@, rest: "off"@, tier: Tier::Off }
            } else if s.state == STATE_CONNECTING || any_activating(s.secondary@) {
                BarKeyView { glyph: down, rest: "connecting…"@, tier: Tier::Pending }
            } else {
                BarKeyView { glyph: down, rest: "offline"@, tier: Tier::Down }
            }
        },
    }
}

/// The device identities that popup-only subscriptions are keyed on.
pub open spec fn subscriptions_of(s: Snapshot) -> (Seq<char>, Seq<char>, bool) {
    (
        match s.primary {
            Some(active) => active.device.iface@,
            None => Seq::empty(),
        },
        match s.wifi {
            Some(wifi) => wifi.path@,
            None => Seq::empty(),
        },
        s.wireless_enabled,
    )
}

/// The connection's own name: an SSID for wifi, the profile id otherwise, and
/// a word for the states where there is nothing connected to name.
pub open spec fn name_of(s: Snapshot) -> Seq<char> {
    match s.primary {
        None => if s.wifi is Some && !s.wireless_enabled {
            "wifi off"@
        } else {
            "offline"@
        },
        Some(active) => elided(
            match active.ap {
                Some(ap) => if ap.ssid@.len() > 0 {
                    ap.ssid@
                } else {
                    active.id@
                },
                None => active.id@,
            },
            NAME_LIMIT as nat,
        ),
    }
}

impl Snapshot {
    pub fn bar_key(&self) -> (r: BarKey)
        ensures
            r@ == key_of(*self),
    {
        match &self.primary {
            Some(active) => {
                let kind = active.kind.as_str();
                let icon: &'static str = if starts_with(kind, "802-11-wireless") {
                    wifi_icon(
                        match &active.ap {
                            Some(ap) => ap.strength,
                            None => 0,
                        },
                    )
                } else if starts_with(kind, "802-3-ethernet") {
                    ICON_ETHERNET
                } else {
                    ICON_OTHER
                };
                if active.state != ACTIVE_ACTIVATED {
                    return BarKey { glyph: icon, rest: "connecting…", tier: Tier::Pending };
                }
                if self.connectivity != CONNECTIVITY_FULL && self.connectivity
                    != CONNECTIVITY_UNKNOWN {
                    return BarKey {
                        glyph: ICON_NO_INTERNET,
                        rest: "no internet",
                        tier: Tier::Degraded,
                    };
                }
                BarKey { glyph: icon, rest: "", tier: Tier::Up }
            },
            None => {
                let down: &'static str = if self.wifi.is_some() {
                    ICON_WIFI_DOWN
                } else {
                    ICON_LAN_DOWN
                };
                if self.wifi.is_some() && !self.wireless_enabled {
                    return BarKey { glyph: ICON_WIFI_OFF, rest: "off", tier: Tier::Off };
                }
                if self.state == STATE_CONNECTING || self.activating() {
                    return BarKey { glyph: down, rest: "connecting…", tier: Tier::Pending };
                }
                BarKey { glyph: down, rest: "offline", tier: Tier::Down }
            },
        }
    }

    fn activating(&self) -> (r: bool)
        ensures
            r == any_activating(self.secondary@),
    {
        let mut i: usize = 0;
        while i < self.secondary.len()
            invariant
                i <= self.secondary@.len(),
                forall|j: int|
                    0 <= j < i ==> (#[trigger] self.secondary@[j]).state != ACTIVE_ACTIVATING,
            decreases self.secondary@.len() - i,
        {
            if self.secondary[i].state == ACTIVE_ACTIVATING {
                return true;
            }
            i += 1;
        }
        false
    }

    pub fn subscription_keys(&self) -> (r: (&str, &str, bool))
        ensures
            (r.0@, r.1@, r.2) == subscriptions_of(*self),
    {
        proof {
            reveal_strlit("");
            assert(""@ =~= Seq::<char>::empty());
        }
        (
            match &self.primary {
                Some(active) => active.device.iface.as_str(),
                None => "",
            },
            match &self.wifi {
                Some(wifi) => wifi.path.as_str(),
                None => "",
            },
            self.wireless_enabled,
        )
    }

    pub fn name(&self) -> (r: String)
        ensures
            r@ == name_of(*self),
    {
        match &self.primary {
            None => if self.wifi.is_some() && !self.wireless_enabled {
                "wifi off".to_owned()
            } else {
                "offline".to_owned()
            },
            Some(active) => {
                let name: &str = match &active.ap {
                    Some(ap) => if ap.ssid.as_str().is_empty() {
                        active.id.as_str()
                    } else {
                        ap.ssid.as_str()
                    },
                    None => active.id.as_str(),
                };
                elide(name, NAME_LIMIT)
            },
        }
    }

    /// Strongest first, one row per SSID.
    pub fn sort_aps(&mut self)
        ensures
            *final(self) == (Snapshot { aps: final(self).aps, ..*old(self) }),
            final(self).aps@ == ranked_aps(old(self).aps@),
    {
        let mut aps: Vec<Ap> = Vec::new();
        core::mem::swap(&mut aps, &mut self.aps);
        self.aps = rank_aps(aps);
    }
}

/// Access points by name, the strongest of one name first.
#[derive(Debug, Clone)]
pub struct ByName(pub Ap);

impl Ranked for ByName {
    open spec fn precedes(&self, other: &Self) -> bool {
        text_before(self.0.ssid@, other.0.ssid@) || (self.0.ssid@ == other.0.ssid@
            && self.0.strength > other.0.strength)
    }

    fn before(&self, other: &Self) -> (r: bool) {
        comes_before(self.0.ssid.as_str(), other.0.ssid.as_str()) || (same(
            self.0.ssid.as_str(),
            other.0.ssid.as_str(),
        ) && self.0.strength > other.0.strength)
    }
}

/// Access points as the popup lists them: the active one first, then the
/// strongest, then by name.
#[derive(Debug, Clone)]
pub struct ByStrength(pub Ap);

impl Ranked for ByStrength {
    open spec fn precedes(&self, other: &Self) -> bool {
        let (a, b) = (self.0, other.0);
        ||| a.active && !b.active
        ||| a.active == b.active && a.strength > b.strength
        ||| a.active == b.active && a.strength == b.strength && text_before(a.ssid@, b.ssid@)
    }

    fn before(&self, other: &Self) -> (r: bool) {
        if self.0.active != other.0.active {
            self.0.active
        } else if self.0.strength != other.0.strength {
            self.0.strength > other.0.strength
        } else {
            comes_before(self.0.ssid.as_str(), other.0.ssid.as_str())
        }
    }
}

/// The first of each run of access points of one name.
pub open spec fn deduped(aps: Seq<ByName>) -> Seq<Ap>
    decreases aps.len(),
{
    if aps.len() == 0 {
        Seq::empty()
    } else {
        let before = deduped(aps.drop_last());
        if before.len() > 0 && before.last().ssid@ == aps.last().0.ssid@ {
            before
        } else {
            before.push(aps.last().0)
        }
    }
}

pub open spec fn by_name(aps: Seq<Ap>) -> Seq<ByName> {
    aps.map_values(|ap: Ap| ByName(ap))
}

pub open spec fn by_strength(aps: Seq<Ap>) -> Seq<ByStrength> {
    aps.map_values(|ap: Ap| ByStrength(ap))
}

/// Strongest first, one row per SSID.
pub open spec fn ranked_aps(aps: Seq<Ap>) -> Seq<Ap> {
    in_line(by_strength(deduped(in_line(by_name(aps))))).map_values(|ap: ByStrength| ap.0)
}

fn rank_aps(aps: Vec<Ap>) -> (r: Vec<Ap>)
    ensures
        r@ == ranked_aps(aps@),
{
    let ghost all = aps@;
    let mut rest = aps;
    let mut named: Vec<ByName> = Vec::new();
    assert(all.skip(0) =~= all);
    while rest.len() > 0
        invariant
            named@.len() + rest@.len() == all.len(),
            rest@ == all.skip(named@.len() as int),
            named@ == by_name(all.take(named@.len() as int)),
        decreases rest@.len(),
    {
        let ghost n = named@.len() as int;
        let ap = rest.remove(0);
        assert(ap == all[n]);
        assert(rest@ =~= all.skip(n + 1));
        named.push(ByName(ap));
        assert(named@ =~= by_name(all.take(n + 1)));
    }
    assert(all.take(named@.len() as int) =~= all);
    let mut line = sort(named);
    let ghost sorted_names = line@;
    let mut kept: Vec<Ap> = Vec::new();
    let ghost mut k: int = 0;
    assert(sorted_names.skip(0) =~= sorted_names);
    while line.len() > 0
        invariant
            0 <= k <= sorted_names.len(),
            line@ == sorted_names.skip(k),
            kept@ == deduped(sorted_names.take(k)),
        decreases line@.len(),
    {
        let ap = line.remove(0);
        proof {
            assert(ap == sorted_names[k]);
            assert(line@ =~= sorted_names.skip(k + 1));
            assert(sorted_names.take(k + 1).drop_last() =~= sorted_names.take(k));
            k = k + 1;
        }
        let n: usize = kept.len();
        if !(n > 0 && same(kept[n - 1].ssid.as_str(), ap.0.ssid.as_str())) {
            kept.push(ap.0);
        }
    }
    assert(sorted_names.take(k) =~= sorted_names);
    let ghost rows = kept@;
    let mut strong: Vec<ByStrength> = Vec::new();
    assert(rows.skip(0) =~= rows);
    while kept.len() > 0
        invariant
            strong@.len() + kept@.len() == rows.len(),
            kept@ == rows.skip(strong@.len() as int),
            strong@ == by_strength(rows.take(strong@.len() as int)),
        decreases kept@.len(),
    {
        let ghost n = strong@.len() as int;
        let ap = kept.remove(0);
        assert(ap == rows[n]);
        assert(kept@ =~= rows.skip(n + 1));
        strong.push(ByStrength(ap));
        assert(strong@ =~= by_strength(rows.take(n + 1)));
    }
    assert(rows.take(strong@.len() as int) =~= rows);
    let mut line = sort(strong);
    let ghost order = line@;
    let mut out: Vec<Ap> = Vec::new();
    assert(order.skip(0) =~= order);
    while line.len() > 0
        invariant
            out@.len() + line@.len() == order.len(),
            line@ == order.skip(out@.len() as int),
            out@ == order.take(out@.len() as int).map_values(|ap: ByStrength| ap.0),
        decreases line@.len(),
    {
        let ghost n = out@.len() as int;
        let ap = line.remove(0);
        assert(ap == order[n]);
        assert(line@ =~= order.skip(n + 1));
        out.push(ap.0);
        assert(out@ =~= order.take(n + 1).map_values(|ap: ByStrength| ap.0));
    }
    assert(order.take(out@.len() as int) =~= order);
    out
}

proof fn lemma_names_order()
    ensures
        orders_by_key::<ByName>(),
{
    assert forall|a: ByName, b: ByName| #[trigger] a.precedes(&b) implies !b.precedes(&a) by {
        lemma_text_order_total(a.0.ssid@, b.0.ssid@);
    }
    assert forall|a: ByName, b: ByName, c: ByName|
        #![trigger a.precedes(&b), b.precedes(&c)]
        !a.precedes(&b) && !b.precedes(&c) implies !a.precedes(&c) by {
        let (x, y, z) = (a.0.ssid@, b.0.ssid@, c.0.ssid@);
        lemma_text_order_total(x, y);
        lemma_text_order_total(y, z);
        lemma_text_order_total(x, z);
        if x != y && y != z {
            lemma_text_order_transitive(z, y, x);
        }
    }
}

proof fn lemma_strengths_order()
    ensures
        orders_by_key::<ByStrength>(),
{
    assert forall|a: ByStrength, b: ByStrength| #[trigger] a.precedes(&b) implies !b.precedes(
        &a,
    ) by {
        lemma_text_order_total(a.0.ssid@, b.0.ssid@);
    }
    assert forall|a: ByStrength, b: ByStrength, c: ByStrength|
        #![trigger a.precedes(&b), b.precedes(&c)]
        !a.precedes(&b) && !b.precedes(&c) implies !a.precedes(&c) by {
        let (x, y, z) = (a.0.ssid@, b.0.ssid@, c.0.ssid@);
        lemma_text_order_total(x, y);
        lemma_text_order_total(y, z);
        lemma_text_order_total(x, z);
        if x != y && y != z && text_before(z, y) && text_before(y, x) {
            lemma_text_order_transitive(z, y, x);
        }
    }
}

/// `row` stands for `ap`: it has its name, and is no weaker.
pub open spec fn stands_for(row: Ap, ap: Ap) -> bool {
    row.ssid@ == ap.ssid@ && row.strength >= ap.strength
}

/// Some row stands for `ap`.
pub open spec fn has_row(rows: Seq<Ap>, ap: Ap) -> bool {
    exists|i: int| 0 <= i < rows.len() && stands_for(#[trigger] rows[i], ap)
}

spec fn rising(rows: Seq<Ap>) -> bool {
    forall|i: int, j: int|
        0 <= i < j < rows.len() ==> text_before((#[trigger] rows[i]).ssid@, (
        #[trigger] rows[j]).ssid@)
}

spec fn drawn_from(rows: Seq<Ap>, s: Seq<ByName>) -> bool {
    forall|i: int| 0 <= i < rows.len() ==> s.contains(ByName(#[trigger] rows[i]))
}

proof fn lemma_rising(rows: Seq<Ap>, x: Ap)
    requires
        rising(rows),
        rows.len() > 0 ==> text_before(rows.last().ssid@, x.ssid@),
    ensures
        rising(rows.push(x)),
{
    let all = rows.push(x);
    assert forall|i: int, j: int| 0 <= i < j < all.len() implies text_before(
        (#[trigger] all[i]).ssid@,
        (#[trigger] all[j]).ssid@,
    ) by {
        if j < rows.len() {
            assert(all[i] == rows[i] && all[j] == rows[j]);
        } else if i < rows.len() - 1 {
            assert(text_before(rows[i].ssid@, rows[rows.len() - 1].ssid@));
            lemma_text_order_transitive(rows[i].ssid@, rows.last().ssid@, x.ssid@);
        }
    }
}

proof fn lemma_has_row(rows: Seq<Ap>, more: Seq<Ap>, ap: Ap)
    requires
        rows.is_prefix_of(more),
        has_row(rows, ap),
    ensures
        has_row(more, ap),
{
    let i = choose|i: int| 0 <= i < rows.len() && stands_for(#[trigger] rows[i], ap);
    assert(more[i] == rows[i]);
}

spec fn rows_for(rows: Seq<Ap>, s: Seq<ByName>) -> bool {
    forall|k: int| 0 <= k < s.len() ==> has_row(rows, (#[trigger] s[k]).0)
}

proof fn lemma_drawn_from(rows: Seq<Ap>, most: Seq<ByName>, s: Seq<ByName>)
    requires
        drawn_from(rows, most),
        most == s.drop_last(),
        s.len() > 0,
    ensures
        drawn_from(rows, s),
{
    assert forall|i: int| 0 <= i < rows.len() implies s.contains(ByName(#[trigger] rows[i])) by {
        assert(most.contains(ByName(rows[i])));
        let k = choose|k: int| 0 <= k < most.len() && most[k] == ByName(rows[i]);
        assert(s[k] == ByName(rows[i]));
    }
}

proof fn lemma_rows_for(had: Seq<Ap>, all: Seq<Ap>, s: Seq<ByName>)
    requires
        s.len() > 0,
        rows_for(had, s.drop_last()),
        had.is_prefix_of(all),
        has_row(all, s.last().0),
    ensures
        rows_for(all, s),
{
    let most = s.drop_last();
    assert forall|k: int| 0 <= k < s.len() implies has_row(all, (#[trigger] s[k]).0) by {
        if k < most.len() {
            assert(most[k] == s[k]);
            lemma_has_row(had, all, s[k].0);
        }
    }
}

/// A row of the last name stands for the last access point, too.
proof fn lemma_last_row(had: Seq<Ap>, s: Seq<ByName>)
    requires
        sorted(s),
        s.len() > 0,
        had.len() > 0,
        drawn_from(had, s.drop_last()),
        had.last().ssid@ == s.last().0.ssid@,
    ensures
        has_row(had, s.last().0),
{
    let most = s.drop_last();
    let i = had.len() - 1;
    assert(most.contains(ByName(had[i])));
    let k = choose|k: int| 0 <= k < most.len() && most[k] == ByName(had[i]);
    assert(s[k] == ByName(had[i]));
    assert(!s[s.len() - 1].precedes(&s[k]));
    assert(stands_for(had[i], s.last().0));
}

proof fn lemma_deduped(s: Seq<ByName>)
    requires
        sorted(s),
    ensures
        s.len() > 0 ==> deduped(s).len() > 0 && deduped(s).last().ssid@ == s.last().0.ssid@,
        rising(deduped(s)),
        drawn_from(deduped(s), s),
        rows_for(deduped(s), s),
    decreases s.len(),
{
    if s.len() > 0 {
        let most = s.drop_last();
        let x = s.last();
        let had = deduped(most);
        let all = deduped(s);
        assert(sorted(most)) by {
            assert forall|i: int, j: int|
                #![trigger most[i], most[j]]
                0 <= i < j < most.len() implies !most[j].precedes(&most[i]) by {
                assert(!s[j].precedes(&s[i]));
            }
        }
        lemma_deduped(most);
        lemma_drawn_from(had, most, s);
        if had.len() > 0 && had.last().ssid@ == x.0.ssid@ {
            assert(all == had);
            lemma_last_row(had, s);
        } else {
            assert(all == had.push(x.0));
            if most.len() > 0 {
                assert(!s[s.len() - 1].precedes(&s[most.len() - 1]));
                assert(s[most.len() - 1] == most.last());
                lemma_text_order_total(had.last().ssid@, x.0.ssid@);
            } else {
                assert(had.len() == 0);
            }
            lemma_rising(had, x.0);
            assert(stands_for(all[all.len() - 1], x.0));
            assert(drawn_from(all, s)) by {
                assert forall|i: int| 0 <= i < all.len() implies s.contains(
                    ByName(#[trigger] all[i]),
                ) by {
                    if i < had.len() {
                        assert(all[i] == had[i]);
                    } else {
                        assert(s[s.len() - 1] == ByName(all[i]));
                    }
                }
            }
        }
        lemma_rows_for(had, all, s);
    }
}

spec fn strongest_first(kept: Seq<Ap>) -> Seq<Ap> {
    in_line(by_strength(kept)).map_values(|ap: ByStrength| ap.0)
}

proof fn lemma_strongest_within(kept: Seq<Ap>, i: int)
    requires
        0 <= i < strongest_first(kept).len(),
    ensures
        kept.contains(strongest_first(kept)[i]),
{
    let strong = by_strength(kept);
    lemma_in_line_within(strong, i);
    let k = choose|k: int| 0 <= k < strong.len() && strong[k] == in_line(strong)[i];
    assert(kept[k] == strongest_first(kept)[i]);
}

proof fn lemma_strongest_has(kept: Seq<Ap>, k: int)
    requires
        0 <= k < kept.len(),
    ensures
        strongest_first(kept).contains(kept[k]),
{
    let strong = by_strength(kept);
    let order = in_line(strong);
    lemma_in_line_has(strong, k);
    let i = choose|i: int| 0 <= i < order.len() && order[i] == strong[k];
    assert(strongest_first(kept)[i] == kept[k]);
}

proof fn lemma_strongest_once(kept: Seq<Ap>, i: int, j: int)
    requires
        rising(kept),
        0 <= i < j < strongest_first(kept).len(),
    ensures
        strongest_first(kept)[i].ssid@ != strongest_first(kept)[j].ssid@,
{
    let strong = by_strength(kept);
    let order = in_line(strong);
    let rows = strongest_first(kept);
    assert forall|a: int, b: int| 0 <= a < b < strong.len() implies strong[a] != strong[b] by {
        assert(text_before(kept[a].ssid@, kept[b].ssid@));
        lemma_text_order_total(kept[a].ssid@, kept[b].ssid@);
    }
    lemma_in_line_once(strong);
    lemma_strongest_within(kept, i);
    lemma_strongest_within(kept, j);
    let a = choose|a: int| 0 <= a < kept.len() && kept[a] == rows[i];
    let b = choose|b: int| 0 <= b < kept.len() && kept[b] == rows[j];
    assert(order[i] != order[j]);
    assert(a != b);
    if a < b {
        assert(text_before(kept[a].ssid@, kept[b].ssid@));
    } else {
        assert(text_before(kept[b].ssid@, kept[a].ssid@));
    }
    lemma_text_order_total(kept[a].ssid@, kept[b].ssid@);
}

/// A row is one of the access points.
proof fn lemma_row_is_there(aps: Seq<Ap>, i: int)
    requires
        0 <= i < ranked_aps(aps).len(),
    ensures
        aps.contains(ranked_aps(aps)[i]),
{
    let named = by_name(aps);
    let line = in_line(named);
    let kept = deduped(line);
    lemma_names_order();
    law_sorting_sorts(named);
    lemma_deduped(line);
    lemma_strongest_within(kept, i);
    let a = choose|a: int| 0 <= a < kept.len() && kept[a] == ranked_aps(aps)[i];
    assert(line.contains(ByName(kept[a])));
    let k = choose|k: int| 0 <= k < line.len() && line[k] == ByName(kept[a]);
    lemma_in_line_within(named, k);
    let m = choose|m: int| 0 <= m < named.len() && named[m] == line[k];
    assert(aps[m] == ranked_aps(aps)[i]);
}

/// Each access point has a row.
proof fn lemma_has_its_row(aps: Seq<Ap>, k: int)
    requires
        0 <= k < aps.len(),
    ensures
        has_row(ranked_aps(aps), aps[k]),
{
    let named = by_name(aps);
    let line = in_line(named);
    let kept = deduped(line);
    let rows = ranked_aps(aps);
    lemma_names_order();
    law_sorting_sorts(named);
    lemma_deduped(line);
    lemma_in_line_has(named, k);
    let n = choose|n: int| 0 <= n < line.len() && line[n] == named[k];
    assert(has_row(kept, line[n].0));
    let a = choose|a: int| 0 <= a < kept.len() && stands_for(#[trigger] kept[a], line[n].0);
    lemma_strongest_has(kept, a);
    let i = choose|i: int| 0 <= i < rows.len() && rows[i] == kept[a];
    assert(stands_for(rows[i], aps[k]));
}

/// The list of access points has one row for each name, the strongest one's,
/// and is in order.
pub proof fn law_one_row_per_network(aps: Seq<Ap>)
    ensures
        one_each(ranked_aps(aps)),
        forall|i: int|
            0 <= i < ranked_aps(aps).len() ==> aps.contains(#[trigger] ranked_aps(aps)[i]),
        forall|k: int| 0 <= k < aps.len() ==> has_row(ranked_aps(aps), #[trigger] aps[k]),
        sorted(by_strength(ranked_aps(aps))),
{
    let named = by_name(aps);
    let line = in_line(named);
    let kept = deduped(line);
    let rows = ranked_aps(aps);
    lemma_names_order();
    law_sorting_sorts(named);
    lemma_deduped(line);
    lemma_strengths_order();
    law_sorting_sorts(by_strength(kept));
    assert(by_strength(rows) =~= in_line(by_strength(kept)));
    assert forall|i: int, j: int| 0 <= i < j < rows.len() implies (#[trigger] rows[i]).ssid@ != (
    #[trigger] rows[j]).ssid@ by {
        lemma_strongest_once(kept, i, j);
    }
    assert forall|i: int| 0 <= i < rows.len() implies aps.contains(#[trigger] rows[i]) by {
        lemma_row_is_there(aps, i);
    }
    assert forall|k: int| 0 <= k < aps.len() implies has_row(rows, #[trigger] aps[k]) by {
        lemma_has_its_row(aps, k);
    }
}

/// No two access points have one name.
pub open spec fn one_each(aps: Seq<Ap>) -> bool {
    forall|i: int, j: int|
        0 <= i < j < aps.len() ==> (#[trigger] aps[i]).ssid@ != (#[trigger] aps[j]).ssid@
}

spec fn unnamed(line: Seq<ByName>) -> Seq<Ap> {
    line.map_values(|ap: ByName| ap.0)
}

proof fn lemma_nothing_to_drop(line: Seq<ByName>)
    requires
        one_each(unnamed(line)),
    ensures
        deduped(line) == unnamed(line),
    decreases line.len(),
{
    let all = unnamed(line);
    if line.len() > 0 {
        let most = line.drop_last();
        let rest = unnamed(most);
        assert(rest =~= all.drop_last());
        assert forall|i: int, j: int| 0 <= i < j < rest.len() implies (#[trigger] rest[i]).ssid@
            != (#[trigger] rest[j]).ssid@ by {
            assert(rest[i] == all[i] && rest[j] == all[j]);
        }
        lemma_nothing_to_drop(most);
        if rest.len() > 0 {
            assert(all[all.len() - 2].ssid@ != all[all.len() - 1].ssid@);
        }
        assert(deduped(line) =~= all);
    } else {
        assert(deduped(line) =~= all);
    }
}

/// Access points by name are the same access points.
proof fn lemma_named_line(aps: Seq<Ap>)
    requires
        one_each(aps),
    ensures
        one_each(unnamed(in_line(by_name(aps)))),
        forall|x: Ap| #![auto] aps.contains(x) <==> unnamed(in_line(by_name(aps))).contains(x),
{
    let named = by_name(aps);
    let line = in_line(named);
    let all = unnamed(line);
    assert forall|i: int, j: int| 0 <= i < j < named.len() implies named[i] != named[j] by {
        assert(aps[i].ssid@ != aps[j].ssid@);
    }
    lemma_in_line_once(named);
    assert forall|i: int, j: int| 0 <= i < j < all.len() implies (#[trigger] all[i]).ssid@ != (
    #[trigger] all[j]).ssid@ by {
        lemma_in_line_within(named, i);
        lemma_in_line_within(named, j);
        let a = choose|a: int| 0 <= a < named.len() && named[a] == line[i];
        let b = choose|b: int| 0 <= b < named.len() && named[b] == line[j];
        assert(line[i] != line[j]);
        assert(a != b);
        assert(aps[a] == all[i] && aps[b] == all[j]);
    }
    assert forall|x: Ap| #![auto] aps.contains(x) <==> all.contains(x) by {
        if aps.contains(x) {
            let k = choose|k: int| 0 <= k < aps.len() && aps[k] == x;
            lemma_in_line_has(named, k);
            let m = choose|m: int| 0 <= m < line.len() && line[m] == named[k];
            assert(all[m] == x);
        }
        if all.contains(x) {
            let k = choose|k: int| 0 <= k < all.len() && all[k] == x;
            lemma_in_line_within(named, k);
            let m = choose|m: int| 0 <= m < named.len() && named[m] == line[k];
            assert(aps[m] == x);
        }
    }
}

/// Sorting the list of access points a second time changes nothing.
pub proof fn law_sorting_access_points_twice_changes_nothing(aps: Seq<Ap>)
    ensures
        ranked_aps(ranked_aps(aps)) == ranked_aps(aps),
{
    let rows = ranked_aps(aps);
    law_one_row_per_network(aps);
    let line = in_line(by_name(rows));
    let kept = unnamed(line);
    lemma_named_line(rows);
    lemma_nothing_to_drop(line);
    let a = by_strength(rows);
    let strong = by_strength(kept);
    let b = in_line(strong);
    assert(strict(a)) by {
        assert forall|i: int, j: int|
            #![trigger a[i], a[j]]
            0 <= i < j < a.len() implies a[i].precedes(&a[j]) by {
            assert(!a[j].precedes(&a[i]));
            assert(rows[i].ssid@ != rows[j].ssid@);
            lemma_text_order_total(rows[i].ssid@, rows[j].ssid@);
        }
    }
    lemma_strengths_order();
    law_sorting_sorts(strong);
    assert forall|i: int, j: int| 0 <= i < j < strong.len() implies strong[i] != strong[j] by {
        assert(kept[i].ssid@ != kept[j].ssid@);
    }
    lemma_in_line_once(strong);
    assert forall|x: ByStrength| #![auto] a.contains(x) <==> b.contains(x) by {
        if a.contains(x) {
            let k = choose|k: int| 0 <= k < a.len() && a[k] == x;
            assert(rows.contains(rows[k]));
            assert(kept.contains(rows[k]));
            let m = choose|m: int| 0 <= m < kept.len() && kept[m] == rows[k];
            assert(strong[m] == x);
            lemma_in_line_has(strong, m);
        }
        if b.contains(x) {
            let k = choose|k: int| 0 <= k < b.len() && b[k] == x;
            lemma_in_line_within(strong, k);
            let m = choose|m: int| 0 <= m < strong.len() && strong[m] == x;
            assert(kept.contains(kept[m]));
            assert(rows.contains(kept[m]));
            let n = choose|n: int| 0 <= n < rows.len() && rows[n] == kept[m];
            assert(a[n] == x);
        }
    }
    lemma_one_line(a, b);
    assert(ranked_aps(rows) =~= rows);
}

/// Wifi band from an access point's channel frequency.
pub open spec fn band_text(mhz: u32) -> Seq<char> {
    if mhz == 0 {
        "?"@
    } else if mhz < 3000 {
        "2.4 GHz"@
    } else if mhz < 5925 {
        "5 GHz"@
    } else {
        "6 GHz"@
    }
}

pub fn band(mhz: u32) -> (r: &'static str)
    ensures
        r@ == band_text(mhz),
{
    if mhz == 0 {
        "?"
    } else if mhz < 3000 {
        "2.4 GHz"
    } else if mhz < 5925 {
        "5 GHz"
    } else {
        "6 GHz"
    }
}

pub open spec fn kind_text(kind: Seq<char>) -> Seq<char> {
    if kind == "802-11-wireless"@ {
        "wifi"@
    } else if kind == "802-3-ethernet"@ {
        "ethernet"@
    } else if kind == "vpn"@ || kind == "wireguard"@ {
        "vpn"@
    } else {
        kind
    }
}

pub fn kind_name<'a>(kind: &'a str) -> (r: &'a str)
    ensures
        r@ == kind_text(kind@),
{
    if same(kind, "802-11-wireless") {
        "wifi"
    } else if same(kind, "802-3-ethernet") {
        "ethernet"
    } else if same(kind, "vpn") || same(kind, "wireguard") {
        "vpn"
    } else {
        kind
    }
}

pub open spec fn state_text(state: u32, connectivity: u32) -> Seq<char> {
    (if state == 10 {
        "asleep"@
    } else if state == 20 {
        "disconnected"@
    } else if state == 30 {
        "disconnecting"@
    } else if state == 40 {
        "connecting"@
    } else if state == 50 {
        "connected (local)"@
    } else if state == 60 {
        "connected (site)"@
    } else if state == 70 {
        "connected"@
    } else {
        "unknown"@
    }) + (if connectivity == 1 {
        " · no connectivity"@
    } else if connectivity == 2 {
        " · captive portal"@
    } else if connectivity == 3 {
        " · limited"@
    } else {
        ""@
    })
}

pub fn state_name(state: u32, connectivity: u32) -> (r: String)
    ensures
        r@ == state_text(state, connectivity),
{
    let state: &str = match state {
        10 => "asleep",
        20 => "disconnected",
        30 => "disconnecting",
        40 => "connecting",
        50 => "connected (local)",
        60 => "connected (site)",
        70 => "connected",
        _ => "unknown",
    };
    let connectivity: &str = match connectivity {
        1 => " · no connectivity",
        2 => " · captive portal",
        3 => " · limited",
        _ => "",
    };
    concat(state, connectivity)
}

pub const PRIVACY: u32 = 0x1;

pub const PSK: u32 = 0x100;

pub const EAP: u32 = 0x200;

pub const SAE: u32 = 0x400;

pub const OWE: u32 = 0x800;

pub const OWE_TM: u32 = 0x1000;

pub const EAP_SUITE_B: u32 = 0x2000;

/// Access point flags, narrowed to the label a human needs before clicking.
pub open spec fn security_of(flags: u32, wpa: u32, rsn: u32) -> Seq<char> {
    if rsn & SAE != 0 {
        "wpa3"@
    } else if rsn & EAP_SUITE_B != 0 {
        "wpa3-enterprise"@
    } else if (rsn | wpa) & EAP != 0 {
        "802.1x"@
    } else if rsn & (OWE | OWE_TM) != 0 {
        "owe"@
    } else if rsn & PSK != 0 {
        "wpa2"@
    } else if wpa & PSK != 0 {
        "wpa"@
    } else if flags & PRIVACY != 0 {
        "wep"@
    } else {
        "open"@
    }
}

pub fn security(flags: u32, wpa: u32, rsn: u32) -> (r: &'static str)
    ensures
        r@ == security_of(flags, wpa, rsn),
{
    if rsn & SAE != 0 {
        "wpa3"
    } else if rsn & EAP_SUITE_B != 0 {
        "wpa3-enterprise"
    } else if (rsn | wpa) & EAP != 0 {
        "802.1x"
    } else if rsn & (OWE | OWE_TM) != 0 {
        "owe"
    } else if rsn & PSK != 0 {
        "wpa2"
    } else if wpa & PSK != 0 {
        "wpa"
    } else if flags & PRIVACY != 0 {
        "wep"
    } else {
        "open"
    }
}

} // verus!
