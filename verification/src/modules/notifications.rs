//! Notification module: how many are waiting, on the bar; the notifications
//! themselves in the popup.
use crate::dbus::{Datum, Props};
use crate::number::{decimal, unsigned};
use crate::text::{
    chars_of, concat, concat3, is_among, join, joined, opt_text, replace, replaced, same, string_of,
    texts, trim_end, trimmed_end,
};
use vstd::prelude::*;
use vstd::string::*;

verus! {

/// Something is waiting.
pub const BELL_WAITING: &'static str = "\u{f116b}";

/// Nothing is waiting.
pub const BELL_IDLE: &'static str = "\u{f009c}";

/// Do-not-disturb, with notifications piling up behind it.
pub const BELL_DND_WAITING: &'static str = "\u{f009b}";

/// Do-not-disturb and nothing waiting.
pub const BELL_DND_IDLE: &'static str = "\u{f0a91}";

/// The mode for "hold everything back".
pub const DND: &'static str = "do-not-disturb";

/// The base mode, always there; dropping it would break the daemon's own rules.
pub const DEFAULT_MODE: &'static str = "default";

pub const SUMMARY_LIMIT: usize = 64;

pub const BODY_LIMIT: usize = 160;

/// History entries shown.
pub const HISTORY_LIMIT: usize = 5;

/// Delays before connecting again, in seconds.
pub const RECONNECT_BACKOFF: [u64; 5] = [1, 2, 5, 10, 30];

/// A session that lasted this long, in seconds, was healthy.
pub const STABLE_SESSION: u64 = 60;

#[derive(Debug, Clone)]
pub struct Notification {
    pub id: u32,
    pub app_name: String,
    pub summary: String,
    pub body: String,
    /// 0 low, 1 normal, 2 critical.
    pub urgency: u8,
    /// Action key and label, in the order they came.
    pub actions: Vec<(String, String)>,
}

pub struct NotificationView {
    pub id: u32,
    pub app_name: Seq<char>,
    pub summary: Seq<char>,
    pub body: Seq<char>,
    pub urgency: u8,
    pub actions: Seq<(Seq<char>, Seq<char>)>,
}

pub open spec fn pair_views(pairs: Seq<(String, String)>) -> Seq<(Seq<char>, Seq<char>)> {
    pairs.map_values(|p: (String, String)| (p.0@, p.1@))
}

impl View for Notification {
    type V = NotificationView;

    open spec fn view(&self) -> NotificationView {
        NotificationView {
            id: self.id,
            app_name: self.app_name@,
            summary: self.summary@,
            body: self.body@,
            urgency: self.urgency,
            actions: pair_views(self.actions@),
        }
    }
}

/// What a variant carries, or a value alone.
pub open spec fn bare(value: Datum) -> Datum {
    match value {
        Datum::Variant(inner) => *inner,
        _ => value,
    }
}

fn bared<'a>(value: &'a Datum) -> (r: &'a Datum)
    ensures
        *r == bare(*value),
{
    match value {
        Datum::Variant(inner) => &**inner,
        _ => value,
    }
}

/// The text of a value, where it is a text.
pub open spec fn bare_text(value: Datum) -> Option<Seq<char>> {
    match bare(value) {
        Datum::Str(s) => Some(s@),
        _ => None,
    }
}

fn text_of(value: &Datum) -> (r: Option<String>)
    ensures
        opt_text(r) == bare_text(*value),
{
    match bared(value) {
        Datum::Str(s) => Some(s.as_str().to_owned()),
        _ => None,
    }
}

/// A property's text, or nothing.
pub open spec fn text_in(props: Props, name: Seq<char>) -> Seq<char> {
    match props.raw(name) {
        Some(value) => match bare_text(value) {
            Some(s) => s,
            None => Seq::empty(),
        },
        None => Seq::empty(),
    }
}

fn string(props: &Props, name: &str) -> (r: String)
    ensures
        r@ == text_in(*props, name@),
{
    match props.get_raw(name) {
        Some(value) => match text_of(value) {
            Some(s) => s,
            None => String::new(),
        },
        None => String::new(),
    }
}

/// The pairs of texts in a dictionary.
pub open spec fn text_pairs(pairs: Seq<(Datum, Datum)>) -> Seq<(Seq<char>, Seq<char>)>
    decreases pairs.len(),
{
    if pairs.len() == 0 {
        Seq::empty()
    } else {
        let before = text_pairs(pairs.drop_last());
        match (bare_text(pairs.last().0), bare_text(pairs.last().1)) {
            (Some(key), Some(label)) => before.push((key, label)),
            _ => before,
        }
    }
}

pub open spec fn actions_in(value: Option<Datum>) -> Seq<(Seq<char>, Seq<char>)> {
    match value {
        Some(Datum::Dict(pairs)) => text_pairs(pairs@),
        _ => Seq::empty(),
    }
}

fn actions(value: &Datum) -> (r: Vec<(String, String)>)
    ensures
        pair_views(r@) == actions_in(Some(*value)),
{
    let mut out: Vec<(String, String)> = Vec::new();
    assert(pair_views(out@) =~= Seq::empty());
    match value {
        Datum::Dict(pairs) => {
            let ghost all = pairs@;
            let mut i: usize = 0;
            while i < pairs.len()
                invariant
                    i <= all.len(),
                    all == pairs@,
                    pair_views(out@) == text_pairs(all.take(i as int)),
                decreases all.len() - i,
            {
                proof {
                    assert(all.take(i + 1).drop_last() =~= all.take(i as int));
                    assert(all.take(i + 1).last() == all[i as int]);
                }
                let ghost had = out@;
                match (text_of(&pairs[i].0), text_of(&pairs[i].1)) {
                    (Some(key), Some(label)) => {
                        out.push((key, label));
                        assert(pair_views(out@) =~= pair_views(had).push((key@, label@)));
                    },
                    _ => {},
                }
                i += 1;
            }
            assert(all.take(i as int) =~= all);
        },
        _ => {},
    }
    out
}

/// A notification from its properties. A missing or oddly typed one costs its
/// own value and nothing else.
pub open spec fn notification_in(props: Props) -> NotificationView {
    NotificationView {
        id: match props.raw("id"@) {
            Some(value) => match bare(value) {
                Datum::U32(id) => id,
                _ => 0,
            },
            None => 0,
        },
        app_name: text_in(props, "app-name"@),
        summary: text_in(props, "summary"@),
        body: text_in(props, "body"@),
        urgency: match props.raw("urgency"@) {
            Some(value) => match bare(value) {
                Datum::U8(urgency) => urgency,
                _ => 1,
            },
            None => 1,
        },
        actions: actions_in(props.raw("actions"@)),
    }
}

pub fn parse(props: &Props) -> (r: Notification)
    ensures
        r@ == notification_in(*props),
{
    let id: u32 = match props.get_raw("id") {
        Some(value) => match bared(value) {
            Datum::U32(id) => *id,
            _ => 0,
        },
        None => 0,
    };
    let urgency: u8 = match props.get_raw("urgency") {
        Some(value) => match bared(value) {
            Datum::U8(urgency) => *urgency,
            _ => 1,
        },
        None => 1,
    };
    let actions = match props.get_raw("actions") {
        Some(value) => actions(value),
        None => {
            let none: Vec<(String, String)> = Vec::new();
            assert(pair_views(none@) =~= Seq::empty());
            none
        },
    };
    Notification {
        id,
        app_name: string(props, "app-name"),
        summary: string(props, "summary"),
        body: string(props, "body"),
        urgency,
        actions,
    }
}

/// A text on one line, cut off behind `limit` characters.
pub open spec fn flattened(text: Seq<char>, limit: nat) -> Seq<char> {
    let flat = replaced(text, '\n', ' ');
    if flat.len() > limit {
        trimmed_end(flat.take(limit as int)) + "…"@
    } else {
        flat
    }
}

pub fn elide(text: &str, limit: usize) -> (r: String)
    ensures
        r@ == flattened(text@, limit as nat),
{
    let flat = replace(text, '\n', ' ');
    let v = chars_of(flat.as_str());
    if v.len() > limit {
        let kept = string_of(&v, 0, limit);
        assert(kept@ =~= flat@.take(limit as int));
        concat(trim_end(kept.as_str()), "…")
    } else {
        flat
    }
}

#[derive(Debug, Clone)]
pub struct Snapshot {
    pub waiting: Vec<Notification>,
    pub history: Vec<Notification>,
    pub modes: Vec<String>,
}

pub open spec fn is_dnd(modes: Seq<Seq<char>>) -> bool {
    modes.contains(DND@)
}

pub open spec fn is_critical(waiting: Seq<Notification>) -> bool {
    exists|i: int| 0 <= i < waiting.len() && (#[trigger] waiting[i]).urgency >= 2
}

impl Snapshot {
    pub fn dnd(&self) -> (r: bool)
        ensures
            r == is_dnd(texts(self.modes@)),
    {
        is_among(&self.modes, DND)
    }

    pub fn critical(&self) -> (r: bool)
        ensures
            r == is_critical(self.waiting@),
    {
        let mut i: usize = 0;
        while i < self.waiting.len()
            invariant
                i <= self.waiting@.len(),
                forall|j: int| 0 <= j < i ==> (#[trigger] self.waiting@[j]).urgency < 2,
            decreases self.waiting@.len() - i,
        {
            if self.waiting[i].urgency >= 2 {
                return true;
            }
            i += 1;
        }
        false
    }
}

/// The modes but one.
pub open spec fn but(modes: Seq<Seq<char>>, mode: Seq<char>) -> Seq<Seq<char>>
    decreases modes.len(),
{
    if modes.len() == 0 {
        Seq::empty()
    } else {
        let before = but(modes.drop_last(), mode);
        if modes.last() == mode {
            before
        } else {
            before.push(modes.last())
        }
    }
}

/// The modes to end up with when do-not-disturb is toggled.
pub open spec fn toggled(modes: Seq<Seq<char>>) -> Seq<Seq<char>> {
    let kept = but(modes, DND@);
    let base = if kept.len() == 0 {
        seq![DEFAULT_MODE@]
    } else {
        kept
    };
    if is_dnd(modes) {
        base
    } else {
        base.push(DND@)
    }
}

fn without(modes: &Vec<String>, mode: &str) -> (r: Vec<String>)
    ensures
        texts(r@) == but(texts(modes@), mode@),
{
    let ghost all = texts(modes@);
    let mut out: Vec<String> = Vec::new();
    let mut i: usize = 0;
    assert(texts(out@) =~= Seq::empty());
    while i < modes.len()
        invariant
            i <= modes@.len(),
            all == texts(modes@),
            texts(out@) == but(all.take(i as int), mode@),
        decreases modes@.len() - i,
    {
        proof {
            assert(all.take(i + 1).drop_last() =~= all.take(i as int));
            assert(all.take(i + 1).last() == modes@[i as int]@);
        }
        if !same(modes[i].as_str(), mode) {
            let ghost had = out@;
            let kept = modes[i].as_str().to_owned();
            out.push(kept);
            assert(texts(out@) =~= texts(had).push(modes@[i as int]@));
        }
        i += 1;
    }
    assert(all.take(i as int) =~= all);
    out
}

pub fn toggle_dnd(modes: &Vec<String>) -> (r: Vec<String>)
    ensures
        texts(r@) == toggled(texts(modes@)),
{
    let mut out = without(modes, DND);
    assert(texts(out@).len() == out@.len());
    if out.len() == 0 {
        out.push(DEFAULT_MODE.to_owned());
        assert(texts(out@) =~= seq![DEFAULT_MODE@]);
    }
    if !is_among(modes, DND) {
        let ghost had = out@;
        out.push(DND.to_owned());
        assert(texts(out@) =~= texts(had).push(DND@));
    }
    out
}

proof fn lemma_but(modes: Seq<Seq<char>>, mode: Seq<char>)
    ensures
        !but(modes, mode).contains(mode),
        !modes.contains(mode) ==> but(modes, mode) == modes,
        but(modes.push(mode), mode) == but(modes, mode),
        but(but(modes, mode), mode) == but(modes, mode),
    decreases modes.len(),
{
    assert(modes.push(mode).drop_last() =~= modes);
    if modes.len() > 0 {
        let most = modes.drop_last();
        lemma_but(most, mode);
        assert(modes[modes.len() - 1] == modes.last());
        assert(most.push(modes.last()) =~= modes);
        if most.contains(mode) {
            let k = choose|k: int| 0 <= k < most.len() && most[k] == mode;
            assert(modes[k] == mode);
        }
        let before = but(most, mode);
        let all = but(modes, mode);
        if modes.last() != mode {
            assert(all.drop_last() =~= before);
            assert forall|j: int| 0 <= j < all.len() implies all[j] != mode by {
                if j < before.len() {
                    assert(all[j] == before[j]);
                    assert(before.contains(before[j]));
                }
            }
        }
    } else {
        assert(modes =~= Seq::empty());
    }
}

/// Toggling do-not-disturb flips it; twice gives the modes back, with
/// do-not-disturb last where it was on, and with the base mode where there was
/// none.
pub proof fn law_toggling_twice_restores_the_modes(modes: Seq<Seq<char>>)
    ensures
        is_dnd(toggled(modes)) == !is_dnd(modes),
        !is_dnd(modes) && modes.len() > 0 ==> toggled(toggled(modes)) == modes,
        !is_dnd(modes) && modes.len() == 0 ==> toggled(toggled(modes)) == seq![DEFAULT_MODE@],
        is_dnd(modes) ==> toggled(toggled(modes)) == toggled(modes).push(DND@),
        but(modes, DND@).len() > 0 ==> but(toggled(modes), DND@) == but(modes, DND@),
{
    reveal_strlit("do-not-disturb");
    reveal_strlit("default");
    assert(DND@.len() == 14);
    assert(DEFAULT_MODE@.len() == 7);
    lemma_but(modes, DND@);
    let kept = but(modes, DND@);
    let base = if kept.len() == 0 {
        seq![DEFAULT_MODE@]
    } else {
        kept
    };
    assert(!base.contains(DND@)) by {
        if base.contains(DND@) {
            let k = choose|k: int| 0 <= k < base.len() && base[k] == DND@;
            if kept.len() > 0 {
                assert(kept[k] == DND@);
                assert(kept.contains(DND@));
            }
        }
    }
    lemma_but(base, DND@);
    assert(base.push(DND@)[base.len() as int] == DND@);
    assert(base.push(DND@).contains(DND@));
}

#[derive(Debug)]
pub enum Event {
    /// The daemon answered on the bus.
    Connected,
    Snapshot(Snapshot),
    /// The daemon is not on the bus: the module hides.
    Absent,
    Disconnected,
    Dismiss(u32),
    DismissAll,
    Invoke { id: u32, action: String },
    Restore,
    ToggleDnd,
    /// Result of a call.
    Mutated(Result<(), String>),
}

/// A call to the daemon.
#[derive(Debug, Clone)]
pub enum Call {
    Dismiss(u32),
    DismissAll,
    Invoke { id: u32, action: String },
    Restore,
    SetModes(Vec<String>),
}

pub enum CallView {
    Dismiss(u32),
    DismissAll,
    Invoke { id: u32, action: Seq<char> },
    Restore,
    SetModes(Seq<Seq<char>>),
}

impl View for Call {
    type V = CallView;

    open spec fn view(&self) -> CallView {
        match *self {
            Call::Dismiss(id) => CallView::Dismiss(id),
            Call::DismissAll => CallView::DismissAll,
            Call::Invoke { id, action } => CallView::Invoke { id, action: action@ },
            Call::Restore => CallView::Restore,
            Call::SetModes(modes) => CallView::SetModes(texts(modes@)),
        }
    }
}

#[derive(Debug, Clone)]
pub struct Effects {
    pub call: Option<Call>,
    pub close_popup: bool,
}

#[derive(Debug, Clone)]
pub struct State {
    pub connected: bool,
    pub snapshot: Option<Snapshot>,
    pub error: Option<String>,
}

pub open spec fn modes_of(s: State) -> Seq<Seq<char>> {
    match s.snapshot {
        Some(snapshot) => texts(snapshot.modes@),
        None => Seq::empty(),
    }
}

/// The call that an event asks for: none without a connection.
pub open spec fn call_for(s: State, event: Event) -> Option<CallView> {
    if !s.connected {
        None
    } else {
        match event {
            Event::Dismiss(id) => Some(CallView::Dismiss(id)),
            Event::DismissAll => Some(CallView::DismissAll),
            Event::Invoke { id, action } => Some(CallView::Invoke { id, action: action@ }),
            Event::Restore => Some(CallView::Restore),
            Event::ToggleDnd => Some(CallView::SetModes(toggled(modes_of(s)))),
            _ => None,
        }
    }
}

pub open spec fn call_view(call: Option<Call>) -> Option<CallView> {
    match call {
        Some(call) => Some(call@),
        None => None,
    }
}

/// How an event changes the state.
pub open spec fn follows(s: State, event: Event, t: State) -> bool {
    match event {
        Event::Connected => t == (State { connected: true, error: None, ..s }),
        Event::Snapshot(snapshot) => t == (State { snapshot: Some(snapshot), ..s }),
        Event::Absent => t == (State { snapshot: None, ..s }),
        Event::Disconnected => t == (State { connected: false, snapshot: None, ..s }),
        Event::Mutated(Ok(_)) => t == (State { error: None, ..s }),
        Event::Mutated(Err(error)) => t == (State { error: Some(error), ..s }),
        _ => t == s,
    }
}

impl State {
    pub fn new() -> (r: State)
        ensures
            r == (State { connected: false, snapshot: None, error: None }),
    {
        State { connected: false, snapshot: None, error: None }
    }

    /// The modes to end up with when do-not-disturb is toggled.
    pub fn modes_after_dnd_toggle(&self) -> (r: Vec<String>)
        ensures
            texts(r@) == toggled(modes_of(*self)),
    {
        match &self.snapshot {
            Some(snapshot) => toggle_dnd(&snapshot.modes),
            None => {
                let none: Vec<String> = Vec::new();
                assert(texts(none@) =~= Seq::empty());
                toggle_dnd(&none)
            },
        }
    }

    pub fn update(&mut self, event: Event) -> (r: Effects)
        ensures
            follows(*old(self), event, *final(self)),
            call_view(r.call) == call_for(*old(self), event),
            r.close_popup == (event is DismissAll || event is Invoke),
    {
        let connected = self.connected;
        match event {
            Event::Connected => {
                self.connected = true;
                self.error = None;
                Effects { call: None, close_popup: false }
            },
            Event::Snapshot(snapshot) => {
                self.snapshot = Some(snapshot);
                Effects { call: None, close_popup: false }
            },
            Event::Absent => {
                self.snapshot = None;
                Effects { call: None, close_popup: false }
            },
            Event::Disconnected => {
                self.connected = false;
                self.snapshot = None;
                Effects { call: None, close_popup: false }
            },
            Event::Dismiss(id) => Effects {
                call: if connected {
                    Some(Call::Dismiss(id))
                } else {
                    None
                },
                close_popup: false,
            },
            Event::DismissAll => Effects {
                call: if connected {
                    Some(Call::DismissAll)
                } else {
                    None
                },
                close_popup: true,
            },
            Event::Invoke { id, action } => Effects {
                call: if connected {
                    Some(Call::Invoke { id, action })
                } else {
                    None
                },
                close_popup: true,
            },
            Event::Restore => Effects {
                call: if connected {
                    Some(Call::Restore)
                } else {
                    None
                },
                close_popup: false,
            },
            Event::ToggleDnd => Effects {
                call: if connected {
                    Some(Call::SetModes(self.modes_after_dnd_toggle()))
                } else {
                    None
                },
                close_popup: false,
            },
            Event::Mutated(result) => {
                self.error = match result {
                    Ok(_) => None,
                    Err(error) => Some(error),
                };
                Effects { call: None, close_popup: false }
            },
        }
    }

    /// Whether there is a popup.
    pub open spec fn pops_up(self) -> bool {
        self.snapshot is Some
    }

    pub fn has_popup(&self) -> (r: bool)
        ensures
            r == self.pops_up(),
    {
        self.snapshot.is_some()
    }
}

/// The colour of the bell.
#[derive(Debug, Clone, Copy, PartialEq, Eq, Structural)]
pub enum Tone {
    /// Held back.
    Held,
    Idle,
    Waiting,
    Critical,
}

/// The bar cell.
#[derive(Debug, Clone)]
pub struct Cell {
    pub glyph: &'static str,
    pub count: String,
    pub tone: Tone,
}

pub open spec fn tone_of(dnd: bool, count: nat, critical: bool) -> Tone {
    if dnd {
        Tone::Held
    } else if count == 0 {
        Tone::Idle
    } else if critical {
        Tone::Critical
    } else {
        Tone::Waiting
    }
}

pub open spec fn bell(dnd: bool, count: nat) -> Seq<char> {
    if dnd {
        if count == 0 {
            BELL_DND_IDLE@
        } else {
            BELL_DND_WAITING@
        }
    } else if count == 0 {
        BELL_IDLE@
    } else {
        BELL_WAITING@
    }
}

/// One notification in the popup.
#[derive(Debug, Clone)]
pub struct Entry {
    pub id: u32,
    pub source: String,
    pub urgency: u8,
    pub summary: String,
    /// The body, where there is one.
    pub body: Option<String>,
    /// Whether a click on it invokes its default action.
    pub has_default: bool,
    /// Its other actions: key and label.
    pub actions: Vec<(String, String)>,
}

pub open spec fn source_text(n: NotificationView) -> Seq<char> {
    n.app_name + if n.urgency == 2 {
        " · critical"@
    } else if n.urgency == 0 {
        " · low"@
    } else {
        ""@
    }
}

/// The actions that are not the default one.
pub open spec fn other_actions(actions: Seq<(Seq<char>, Seq<char>)>) -> Seq<(Seq<char>, Seq<char>)>
    decreases actions.len(),
{
    if actions.len() == 0 {
        Seq::empty()
    } else {
        let before = other_actions(actions.drop_last());
        if actions.last().0 == "default"@ {
            before
        } else {
            before.push(actions.last())
        }
    }
}

pub open spec fn has_default(actions: Seq<(Seq<char>, Seq<char>)>) -> bool {
    exists|i: int| 0 <= i < actions.len() && (#[trigger] actions[i]).0 == "default"@
}

pub open spec fn shows_entry(n: NotificationView, e: Entry) -> bool {
    &&& e.id == n.id
    &&& e.source@ == source_text(n)
    &&& e.urgency == n.urgency
    &&& e.summary@ == flattened(n.summary, SUMMARY_LIMIT as nat)
    &&& opt_text(e.body) == if n.body.len() == 0 {
        None
    } else {
        Some(flattened(n.body, BODY_LIMIT as nat))
    }
    &&& e.has_default == has_default(n.actions)
    &&& pair_views(e.actions@) == other_actions(n.actions)
}

impl Notification {
    /// Its entry in the popup.
    pub fn entry(&self) -> (r: Entry)
        ensures
            shows_entry(self@, r),
    {
        let ghost all = pair_views(self.actions@);
        let mut has: bool = false;
        let mut others: Vec<(String, String)> = Vec::new();
        let mut i: usize = 0;
        assert(pair_views(others@) =~= Seq::empty());
        while i < self.actions.len()
            invariant
                i <= self.actions@.len(),
                all == pair_views(self.actions@),
                has == exists|j: int| 0 <= j < i && (#[trigger] all[j]).0 == "default"@,
                pair_views(others@) == other_actions(all.take(i as int)),
            decreases self.actions@.len() - i,
        {
            let ghost had = others@;
            let ghost before = has;
            proof {
                assert(all.take(i + 1).drop_last() =~= all.take(i as int));
                assert(all.take(i + 1).last() == all[i as int]);
            }
            let (key, label) = (&self.actions[i].0, &self.actions[i].1);
            if same(key.as_str(), "default") {
                has = true;
                assert(all[i as int].0 == "default"@);
            } else {
                assert(all[i as int].0 != "default"@);
                others.push((key.as_str().to_owned(), label.as_str().to_owned()));
                assert(pair_views(others@) =~= pair_views(had).push((key@, label@)));
            }
            i += 1;
        }
        assert(all.take(i as int) =~= all);
        let suffix: &str = match self.urgency {
            2 => " · critical",
            0 => " · low",
            _ => "",
        };
        Entry {
            id: self.id,
            source: concat(self.app_name.as_str(), suffix),
            urgency: self.urgency,
            summary: elide(self.summary.as_str(), SUMMARY_LIMIT),
            body: if self.body.as_str().is_empty() {
                None
            } else {
                Some(elide(self.body.as_str(), BODY_LIMIT))
            },
            has_default: has,
            actions: others,
        }
    }

    /// Its line among those dismissed before.
    pub fn past(&self) -> (r: String)
        ensures
            r@ == self.app_name@ + " · "@ + flattened(self.summary@, SUMMARY_LIMIT as nat),
    {
        let summary = elide(self.summary.as_str(), SUMMARY_LIMIT);
        concat3(self.app_name.as_str(), " · ", summary.as_str())
    }
}

/// The line on the modes.
pub open spec fn mode_text(modes: Seq<Seq<char>>) -> Seq<char> {
    let names = joined(but(modes, DEFAULT_MODE@), ", "@);
    if names.len() == 0 {
        "mode: default"@
    } else {
        "mode: "@ + names
    }
}

/// What the popup shows.
#[derive(Debug, Clone)]
pub struct Popup {
    pub title: String,
    pub tone: Tone,
    pub dnd: bool,
    pub entries: Vec<Entry>,
    pub history: Vec<String>,
    pub modes: String,
    pub error: Option<String>,
}

pub open spec fn shows_popup(s: State, snapshot: Snapshot, p: Popup) -> bool {
    let waiting = snapshot.waiting@;
    let modes = texts(snapshot.modes@);
    let past = if snapshot.history@.len() > HISTORY_LIMIT {
        snapshot.history@.take(HISTORY_LIMIT as int)
    } else {
        snapshot.history@
    };
    &&& p.title@ == decimal(waiting.len()) + " waiting"@
    &&& p.tone == tone_of(is_dnd(modes), waiting.len(), is_critical(waiting))
    &&& p.dnd == is_dnd(modes)
    &&& p.entries@.len() == waiting.len()
    &&& forall|i: int|
        0 <= i < waiting.len() ==> shows_entry(waiting[i]@, #[trigger] p.entries@[i])
    &&& texts(p.history@) == past.map_values(
        |n: Notification|
            n.app_name@ + " · "@ + flattened(n.summary@, SUMMARY_LIMIT as nat),
    )
    &&& p.modes@ == mode_text(modes)
    &&& opt_text(p.error) == opt_text(s.error)
}

fn tone(dnd: bool, count: usize, critical: bool) -> (r: Tone)
    ensures
        r == tone_of(dnd, count as nat, critical),
{
    if dnd {
        Tone::Held
    } else if count == 0 {
        Tone::Idle
    } else if critical {
        Tone::Critical
    } else {
        Tone::Waiting
    }
}

impl State {
    /// The bar cell, where there is a daemon.
    pub fn cell(&self) -> (r: Option<Cell>)
        ensures
            match self.snapshot {
                Some(snapshot) => match r {
                    Some(cell) => {
                        let dnd = is_dnd(texts(snapshot.modes@));
                        let count = snapshot.waiting@.len();
                        &&& cell.glyph@ == bell(dnd, count)
                        &&& cell.count@ == if count > 0 {
                            decimal(count)
                        } else {
                            Seq::empty()
                        }
                        &&& cell.tone == tone_of(dnd, count, is_critical(snapshot.waiting@))
                    },
                    None => false,
                },
                None => r is None,
            },
    {
        match &self.snapshot {
            Some(snapshot) => {
                let dnd = snapshot.dnd();
                let count: usize = snapshot.waiting.len();
                let glyph: &'static str = if dnd {
                    if count == 0 {
                        BELL_DND_IDLE
                    } else {
                        BELL_DND_WAITING
                    }
                } else if count == 0 {
                    BELL_IDLE
                } else {
                    BELL_WAITING
                };
                Some(
                    Cell {
                        glyph,
                        count: if count > 0 {
                            unsigned(count as u64)
                        } else {
                            String::new()
                        },
                        tone: tone(dnd, count, snapshot.critical()),
                    },
                )
            },
            None => None,
        }
    }

    /// The popup, where there is a daemon.
    pub fn popup(&self) -> (r: Option<Popup>)
        ensures
            r is Some <==> self.pops_up(),
            r matches Some(p) ==> shows_popup(*self, self.snapshot->0, p),
    {
        let snapshot = match &self.snapshot {
            Some(snapshot) => snapshot,
            None => {
                return None;
            },
        };
        let mut entries: Vec<Entry> = Vec::new();
        let mut i: usize = 0;
        while i < snapshot.waiting.len()
            invariant
                i <= snapshot.waiting@.len(),
                entries@.len() == i,
                forall|j: int|
                    0 <= j < i ==> shows_entry(snapshot.waiting@[j]@, #[trigger] entries@[j]),
            decreases snapshot.waiting@.len() - i,
        {
            entries.push(snapshot.waiting[i].entry());
            i += 1;
        }
        let n: usize = if snapshot.history.len() > HISTORY_LIMIT {
            HISTORY_LIMIT
        } else {
            snapshot.history.len()
        };
        let mut history: Vec<String> = Vec::new();
        let mut i: usize = 0;
        while i < n
            invariant
                i <= n <= snapshot.history@.len(),
                history@.len() == i,
                forall|j: int|
                    0 <= j < i ==> (#[trigger] history@[j])@ == snapshot.history@[j].app_name@
                        + " · "@ + flattened(
                        snapshot.history@[j].summary@,
                        SUMMARY_LIMIT as nat,
                    ),
            decreases n - i,
        {
            history.push(snapshot.history[i].past());
            i += 1;
        }
        assert(texts(history@) =~= (if snapshot.history@.len() > HISTORY_LIMIT {
            snapshot.history@.take(HISTORY_LIMIT as int)
        } else {
            snapshot.history@
        }).map_values(
            |n: Notification|
                n.app_name@ + " · "@ + flattened(n.summary@, SUMMARY_LIMIT as nat),
        ));
        let others = without(&snapshot.modes, DEFAULT_MODE);
        let names = join(&others, ", ");
        let modes = if names.as_str().is_empty() {
            "mode: default".to_owned()
        } else {
            concat("mode: ", names.as_str())
        };
        let waiting: usize = snapshot.waiting.len();
        let count = unsigned(waiting as u64);
        let dnd = snapshot.dnd();
        Some(
            Popup {
                title: concat(count.as_str(), " waiting"),
                tone: tone(dnd, waiting, snapshot.critical()),
                dnd,
                entries,
                history,
                modes,
                error: match &self.error {
                    Some(error) => Some(error.as_str().to_owned()),
                    None => None,
                },
            },
        )
    }
}

} // verus!
