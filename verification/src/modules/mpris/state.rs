//! What the media player module shows and what its buttons ask for.
use crate::modules::mpris::player::{
    clock, clock_text, glyph_of, loop_after, next_loop, Action, Player, PlayerView, Status, PAUSE,
    PLAY,
};
use crate::modules::mpris::session::{find_bus, place, player_views};
use crate::text::{elide, elided, opt_text, same};
use vstd::prelude::*;
use vstd::string::*;

verus! {

pub const SHUFFLE: &'static str = "\u{f049d}";

pub const SHUFFLE_OFF: &'static str = "\u{f049e}";

pub const REPEAT: &'static str = "\u{f0456}";

pub const REPEAT_OFF: &'static str = "\u{f0457}";

pub const REPEAT_ONCE: &'static str = "\u{f0458}";

/// Longest bar label, glyph excluded.
pub const LABEL_LIMIT: usize = 45;

/// Longest name of a player in the popup's picker.
pub const PICKER_LIMIT: usize = 14;

/// Delays before connecting again, in seconds.
pub const RECONNECT_BACKOFF: [u64; 5] = [1, 2, 5, 10, 30];

/// A session that lasted this long, in seconds, was healthy.
pub const STABLE_SESSION: u64 = 60;

#[derive(Debug)]
pub enum Event {
    /// All players, in the order of their names on the bus.
    Players(Vec<Player>),
    /// No bus, or the connection dropped.
    Gone,
    /// The user picked a player in the popup.
    Select(String),
    /// The seek bar is dragged to so many seconds.
    Scrub(u32),
    /// The seek bar is let go.
    ScrubEnd,
    /// Ask the current player to do something.
    Dispatch(Action),
    /// What came of that.
    Acted(Result<(), String>),
}

#[derive(Debug, Clone)]
pub struct State {
    pub players: Vec<Player>,
    /// The player that the user pinned; cleared when it disappears.
    pub selected: Option<String>,
    /// Seek target, in seconds, while the bar is being dragged.
    pub scrub: Option<u32>,
    pub error: Option<String>,
}

/// Where the first player with that status stands.
pub open spec fn first_with(players: Seq<PlayerView>, status: Status) -> Option<int>
    decreases players.len(),
{
    if players.len() == 0 {
        None
    } else if players[0].status == status {
        Some(0int)
    } else {
        match first_with(players.skip(1), status) {
            Some(i) => Some(i + 1),
            None => None,
        }
    }
}

proof fn lemma_first_with(players: Seq<PlayerView>, status: Status, k: int)
    requires
        0 <= k <= players.len(),
        forall|j: int| 0 <= j < k ==> (#[trigger] players[j]).status != status,
        k < players.len() ==> players[k].status == status,
    ensures
        first_with(players, status) == if k < players.len() {
            Some(k)
        } else {
            None::<int>
        },
    decreases players.len(),
{
    if k > 0 && players.len() > 0 {
        let rest = players.skip(1);
        assert(players[0].status != status);
        assert forall|j: int| 0 <= j < k - 1 implies (#[trigger] rest[j]).status != status by {
            assert(rest[j] == players[j + 1]);
        }
        lemma_first_with(rest, status, k - 1);
    }
}

/// The player the bar speaks for: the pinned one, else the one that is playing,
/// else the one that is merely paused, else the first.
pub open spec fn current_of(players: Seq<PlayerView>, selected: Option<Seq<char>>) -> Option<int> {
    let pinned = match selected {
        Some(bus) => place(players, bus),
        None => None,
    };
    if pinned is Some {
        pinned
    } else if first_with(players, Status::Playing) is Some {
        first_with(players, Status::Playing)
    } else if first_with(players, Status::Paused) is Some {
        first_with(players, Status::Paused)
    } else if players.len() > 0 {
        Some(0int)
    } else {
        None
    }
}

fn find_status(players: &Vec<Player>, status: Status) -> (r: Option<usize>)
    ensures
        match r {
            Some(i) => i < players@.len() && first_with(player_views(players@), status) == Some(
                i as int,
            ),
            None => first_with(player_views(players@), status) is None,
        },
{
    let ghost all = player_views(players@);
    let mut i: usize = 0;
    while i < players.len() && players[i].status != status
        invariant
            i <= players@.len(),
            all == player_views(players@),
            forall|j: int| 0 <= j < i ==> (#[trigger] all[j]).status != status,
        ensures
            i <= players@.len(),
            forall|j: int| 0 <= j < i ==> (#[trigger] all[j]).status != status,
            i < players@.len() ==> all[i as int].status == status,
        decreases players@.len() - i,
    {
        i += 1;
    }
    proof {
        lemma_first_with(all, status, i as int);
    }
    if i < players.len() {
        Some(i)
    } else {
        None
    }
}

pub open spec fn current_in(s: State) -> Option<int> {
    current_of(player_views(s.players@), opt_text(s.selected))
}

/// What a player is asked to do.
#[derive(Debug, Clone)]
pub struct Request {
    pub bus: String,
    pub action: Action,
}

/// Where letting the seek bar go seeks to: a target past the end of the track
/// becomes its end.
pub open spec fn seek_target(s: State, seconds: u32) -> i64 {
    let length = match current_in(s) {
        Some(i) => s.players@[i].length_us,
        None => 0,
    };
    let target = seconds * 1_000_000;
    if target > length {
        length
    } else {
        target as i64
    }
}

/// The request that an event makes.
pub open spec fn requests(s: State, event: Event, r: Option<Request>) -> bool {
    let action = match event {
        Event::ScrubEnd => match s.scrub {
            Some(seconds) => Some(Action::Seek(seek_target(s, seconds))),
            None => None,
        },
        Event::Dispatch(action) => Some(action),
        _ => None,
    };
    match (action, current_in(s)) {
        (Some(action), Some(i)) => r matches Some(request) && request.bus@ == s.players@[i].bus@
            && request.action == action,
        _ => r is None,
    }
}

/// How an event changes the state.
pub open spec fn follows(s: State, event: Event, t: State) -> bool {
    match event {
        Event::Players(players) => t == (State {
            players,
            selected: if pinned(players@, s.selected) {
                s.selected
            } else {
                None
            },
            ..s
        }),
        Event::Gone => t == (State {
            players: t.players,
            selected: None,
            scrub: None,
            ..s
        }) && t.players@.len() == 0,
        Event::Select(bus) => t == (State { selected: Some(bus), scrub: None, ..s }),
        Event::Scrub(seconds) => t == (State { scrub: Some(seconds), ..s }),
        Event::ScrubEnd => t == (State { scrub: None, ..s }),
        Event::Dispatch(_) => t == s,
        Event::Acted(Ok(_)) => t == (State { error: None, ..s }),
        Event::Acted(Err(error)) => t == (State { error: Some(error), ..s }),
    }
}

/// Whether the pinned player is among the players.
pub open spec fn pinned(players: Seq<Player>, selected: Option<String>) -> bool {
    match selected {
        Some(bus) => place(player_views(players), bus@) is Some,
        None => false,
    }
}

impl State {
    pub fn new() -> (r: State)
        ensures
            r.players@.len() == 0,
            r.selected is None,
            r.scrub is None,
            r.error is None,
    {
        State { players: Vec::new(), selected: None, scrub: None, error: None }
    }

    /// Where the player the bar speaks for stands.
    pub fn current(&self) -> (r: Option<usize>)
        ensures
            match r {
                Some(i) => i < self.players@.len() && current_in(*self) == Some(i as int),
                None => current_in(*self) is None && self.players@.len() == 0,
            },
    {
        assert(player_views(self.players@).len() == self.players@.len());
        match &self.selected {
            Some(bus) => match find_bus(&self.players, bus.as_str()) {
                Some(i) => {
                    return Some(i);
                },
                None => {},
            },
            None => {},
        }
        match find_status(&self.players, Status::Playing) {
            Some(i) => {
                return Some(i);
            },
            None => {},
        }
        match find_status(&self.players, Status::Paused) {
            Some(i) => {
                return Some(i);
            },
            None => {},
        }
        if self.players.len() > 0 {
            Some(0)
        } else {
            None
        }
    }

    fn request(&self, action: Action) -> (r: Option<Request>)
        ensures
            match current_in(*self) {
                Some(i) => r matches Some(request) && request.bus@ == self.players@[i].bus@
                    && request.action == action,
                None => r is None,
            },
    {
        match self.current() {
            Some(i) => Some(Request { bus: self.players[i].bus.as_str().to_owned(), action }),
            None => None,
        }
    }

    pub fn update(&mut self, event: Event) -> (r: Option<Request>)
        requires
            event is ScrubEnd && old(self).scrub is Some && current_in(*old(self)) is Some
                ==> old(self).players@[current_in(*old(self))->0].length_us >= 0,
        ensures
            follows(*old(self), event, *final(self)),
            requests(*old(self), event, r),
    {
        match event {
            Event::Players(players) => {
                let kept = match &self.selected {
                    Some(bus) => find_bus(&players, bus.as_str()).is_some(),
                    None => false,
                };
                if !kept {
                    self.selected = None;
                }
                self.players = players;
                None
            },
            Event::Gone => {
                self.players = Vec::new();
                self.selected = None;
                self.scrub = None;
                None
            },
            Event::Select(bus) => {
                self.selected = Some(bus);
                self.scrub = None;
                None
            },
            Event::Scrub(seconds) => {
                self.scrub = Some(seconds);
                None
            },
            Event::ScrubEnd => {
                let scrub = self.scrub;
                self.scrub = None;
                match scrub {
                    Some(seconds) => {
                        let length: i64 = match self.current() {
                            Some(i) => self.players[i].length_us,
                            None => 0,
                        };
                        let target: i64 = seconds as i64 * 1_000_000;
                        let target: i64 = if target > length {
                            length
                        } else {
                            target
                        };
                        self.request(Action::Seek(target))
                    },
                    None => None,
                }
            },
            Event::Dispatch(action) => self.request(action),
            Event::Acted(result) => {
                self.error = match result {
                    Ok(_) => None,
                    Err(error) => Some(error),
                };
                None
            },
        }
    }

    /// Whether there is a popup.
    pub open spec fn pops_up(self) -> bool {
        current_in(self) is Some
    }

    pub fn has_popup(&self) -> (r: bool)
        ensures
            r == self.pops_up(),
    {
        self.current().is_some()
    }

    /// Whether the position is asked for every second.
    pub fn resyncs(&self, open: bool) -> (r: bool)
        ensures
            r == (open && (match current_in(*self) {
                Some(i) => self.players@[i].status == Status::Playing,
                None => false,
            })),
    {
        match self.current() {
            Some(i) => open && self.players[i].status == Status::Playing,
            None => false,
        }
    }

    /// Whether the popup's clock has to run.
    pub fn fast_tick(&self, open: bool) -> (r: bool)
        ensures
            r == (open && first_with(player_views(self.players@), Status::Playing) is Some),
    {
        open && find_status(&self.players, Status::Playing).is_some()
    }
}

/// Letting the seek bar go seeks once, no further than the track is long, and
/// ends the drag.
pub proof fn law_a_drag_seeks_once(s: State, seconds: u32, t: State, u: State, i: int)
    requires
        follows(s, Event::Scrub(seconds), t),
        follows(t, Event::ScrubEnd, u),
        current_in(s) == Some(i),
        0 <= i < s.players@.len(),
        s.players@[i].length_us >= 0,
    ensures
        forall|r: Option<Request>| #[trigger]
            requests(t, Event::ScrubEnd, r) ==> r is Some && r->0.bus@ == s.players@[i].bus@
                && r->0.action is Seek && 0 <= r->0.action->Seek_0 <= s.players@[i].length_us
                && r->0.action->Seek_0 <= seconds * 1_000_000,
        u.scrub is None,
        forall|r: Option<Request>| #[trigger]
            requests(u, Event::ScrubEnd, r) ==> r is None,
{
}

/// A pinned player that disappears is no longer pinned, and comes back unpinned.
pub proof fn law_a_pin_lasts_as_long_as_its_player(
    s: State,
    players: Vec<Player>,
    t: State,
    more: Vec<Player>,
    u: State,
)
    requires
        follows(s, Event::Players(players), t),
        follows(t, Event::Players(more), u),
    ensures
        s.selected is Some && pinned(players@, s.selected) ==> t.selected == s.selected,
        !pinned(players@, s.selected) ==> t.selected is None && u.selected is None,
{
}

/// The bar cell: the player, never the track.
#[derive(Debug, Clone)]
pub struct Cell {
    pub glyph: &'static str,
    pub name: String,
    pub lit: bool,
}

/// The seek bar: its length and place in seconds, and whether it can be moved.
#[derive(Debug, Clone)]
pub struct Seek {
    pub total: u32,
    pub at: u32,
    pub can_seek: bool,
    pub dragged: bool,
    pub elapsed: String,
    pub length: String,
}

/// A player in the picker.
#[derive(Debug, Clone)]
pub struct Pick {
    pub bus: String,
    pub name: String,
    pub current: bool,
}

/// What the popup shows.
#[derive(Debug, Clone)]
pub struct Popup {
    /// The players to pick from, where there is more than one.
    pub picker: Vec<Pick>,
    pub title: String,
    pub artist: String,
    pub album: String,
    pub seek: Option<Seek>,
    /// The time played, where the track's length is not known.
    pub played: Option<String>,
    pub can_previous: bool,
    pub can_toggle: bool,
    pub can_next: bool,
    pub can_stop: bool,
    /// The glyph of the middle button.
    pub toggle: &'static str,
    /// Shuffle, where there is that: its glyph, and what a press sets it to.
    pub shuffle: Option<(&'static str, bool)>,
    /// Loop, where there is that: its glyph, whether it is on, and what a press
    /// sets it to.
    pub loops: Option<(&'static str, bool, &'static str)>,
    pub error: Option<String>,
}

/// The length of the seek bar, in whole seconds and at least one.
pub open spec fn total_of(length_us: i64) -> u32 {
    let seconds = length_us / 1_000_000;
    ((if seconds < 1 {
        1
    } else {
        seconds as int
    }) % 0x1_0000_0000) as u32
}

/// Where the seek bar stands: at the finger while it is dragged, else where the
/// stream is.
pub open spec fn at_of(scrub: Option<u32>, played: i64, total: u32) -> u32 {
    match scrub {
        Some(seconds) => if seconds < total {
            seconds
        } else {
            total
        },
        None => if played / 1_000_000 < total {
            (played / 1_000_000) as u32
        } else {
            total
        },
    }
}

pub open spec fn shows_seek(p: PlayerView, scrub: Option<u32>, played: i64, seek: Option<Seek>) -> bool {
    if p.length_us > 0 {
        let total = total_of(p.length_us);
        let at = at_of(scrub, played, total);
        match seek {
            Some(seek) => {
                &&& seek.total == total
                &&& seek.at == at
                &&& seek.can_seek == p.can_seek
                &&& seek.dragged == (scrub is Some)
                &&& seek.elapsed@ == clock_text((at * 1_000_000) as i64)
                &&& seek.length@ == clock_text(p.length_us)
            },
            None => false,
        }
    } else {
        seek is None
    }
}

pub open spec fn shows_loop(mode: Option<Seq<char>>, loops: Option<(&'static str, bool, &'static str)>) -> bool {
    match mode {
        Some(mode) => match loops {
            Some((glyph, on, next)) => {
                &&& glyph@ == if mode == "Track"@ {
                    REPEAT_ONCE@
                } else if mode == "Playlist"@ {
                    REPEAT@
                } else {
                    REPEAT_OFF@
                }
                &&& on == (mode == "Track"@ || mode == "Playlist"@)
                &&& next@ == loop_after(mode)
            },
            None => false,
        },
        None => loops is None,
    }
}

pub open spec fn pick_view(pick: Pick) -> (Seq<char>, Seq<char>, bool) {
    (pick.bus@, pick.name@, pick.current)
}

pub open spec fn pick_views(picks: Seq<Pick>) -> Seq<(Seq<char>, Seq<char>, bool)> {
    picks.map_values(|pick: Pick| pick_view(pick))
}

/// The players to pick from.
pub open spec fn picks_of(players: Seq<PlayerView>, current: PlayerView) -> Seq<
    (Seq<char>, Seq<char>, bool),
> {
    if players.len() > 1 {
        players.map_values(
            |p: PlayerView|
                (p.bus, elided(p.identity, PICKER_LIMIT as nat), p.bus == current.bus),
        )
    } else {
        Seq::empty()
    }
}

pub open spec fn shows_popup(s: State, p: PlayerView, played: i64, popup: Popup) -> bool {
    &&& pick_views(popup.picker@) == picks_of(player_views(s.players@), p)
    &&& popup.title@ == if p.title.len() == 0 {
        p.identity
    } else {
        p.title
    }
    &&& popup.artist@ == p.artist
    &&& popup.album@ == p.album
    &&& shows_seek(p, s.scrub, played, popup.seek)
    &&& opt_text(popup.played) == if p.length_us <= 0 && played > 0 {
        Some(clock_text(played))
    } else {
        None
    }
    &&& popup.can_previous == p.can_previous
    &&& popup.can_toggle == (p.can_pause || p.can_play)
    &&& popup.can_next == p.can_next
    &&& popup.can_stop == (p.status != Status::Stopped)
    &&& popup.toggle@ == if p.status == Status::Playing {
        PAUSE@
    } else {
        PLAY@
    }
    &&& match p.shuffle {
        Some(on) => match popup.shuffle {
            Some((glyph, next)) => glyph@ == (if on {
                SHUFFLE@
            } else {
                SHUFFLE_OFF@
            }) && next == !on,
            None => false,
        },
        None => popup.shuffle is None,
    }
    &&& shows_loop(p.loop_status, popup.loops)
    &&& opt_text(popup.error) == opt_text(s.error)
}

fn seek_bar(p: &Player, scrub: Option<u32>, played: i64) -> (r: Option<Seek>)
    requires
        played >= 0,
    ensures
        shows_seek(p@, scrub, played, r),
{
    if p.length_us <= 0 {
        return None;
    }
    let seconds: i64 = p.length_us / 1_000_000;
    let seconds: i64 = if seconds < 1 {
        1
    } else {
        seconds
    };
    let total: u32 = (seconds % 0x1_0000_0000) as u32;
    let at: u32 = match scrub {
        Some(seconds) => if seconds < total {
            seconds
        } else {
            total
        },
        None => if played / 1_000_000 < total as i64 {
            (played / 1_000_000) as u32
        } else {
            total
        },
    };
    Some(
        Seek {
            total,
            at,
            can_seek: p.can_seek,
            dragged: scrub.is_some(),
            elapsed: clock(at as i64 * 1_000_000),
            length: clock(p.length_us),
        },
    )
}

fn loop_button(mode: &Option<String>) -> (r: Option<(&'static str, bool, &'static str)>)
    ensures
        shows_loop(opt_text(*mode), r),
{
    match mode {
        Some(mode) => {
            let mode = mode.as_str();
            let next = next_loop(mode);
            if same(mode, "Track") {
                Some((REPEAT_ONCE, true, next))
            } else if same(mode, "Playlist") {
                Some((REPEAT, true, next))
            } else {
                Some((REPEAT_OFF, false, next))
            }
        },
        None => None,
    }
}

impl State {
    /// The bar cell, where there is a player.
    pub fn cell(&self) -> (r: Option<Cell>)
        ensures
            match current_in(*self) {
                Some(i) => match r {
                    Some(cell) => {
                        let p = self.players@[i]@;
                        &&& cell.glyph@ == glyph_of(p.status)
                        &&& cell.name@ == elided(p.identity, LABEL_LIMIT as nat)
                        &&& cell.lit == (p.status == Status::Playing)
                    },
                    None => false,
                },
                None => r is None,
            },
    {
        match self.current() {
            Some(i) => {
                let p = &self.players[i];
                Some(
                    Cell {
                        glyph: p.glyph(),
                        name: elide(p.identity.as_str(), LABEL_LIMIT),
                        lit: p.status == Status::Playing,
                    },
                )
            },
            None => None,
        }
    }

    fn picker(&self, current: &Player) -> (r: Vec<Pick>)
        ensures
            pick_views(r@) == picks_of(player_views(self.players@), current@),
    {
        let mut out: Vec<Pick> = Vec::new();
        assert(player_views(self.players@).len() == self.players@.len());
        if self.players.len() > 1 {
            let mut i: usize = 0;
            while i < self.players.len()
                invariant
                    i <= self.players@.len(),
                    out@.len() == i,
                    forall|j: int|
                        0 <= j < i ==> pick_view(#[trigger] out@[j]) == (
                            self.players@[j].bus@,
                            elided(self.players@[j].identity@, PICKER_LIMIT as nat),
                            self.players@[j].bus@ == current.bus@,
                        ),
                decreases self.players@.len() - i,
            {
                let p = &self.players[i];
                out.push(
                    Pick {
                        bus: p.bus.as_str().to_owned(),
                        name: elide(p.identity.as_str(), PICKER_LIMIT),
                        current: same(p.bus.as_str(), current.bus.as_str()),
                    },
                );
                i += 1;
            }
        }
        assert(pick_views(out@) =~= picks_of(player_views(self.players@), current@));
        out
    }

    /// The popup, where there is a player, `played` microseconds into its
    /// stream.
    pub fn popup(&self, played: i64) -> (r: Option<Popup>)
        requires
            played >= 0,
        ensures
            r is Some <==> self.pops_up(),
            r matches Some(popup) ==> shows_popup(
                *self,
                self.players@[current_in(*self)->0]@,
                played,
                popup,
            ),
    {
        let p = match self.current() {
            Some(i) => &self.players[i],
            None => {
                return None;
            },
        };
        let title = if p.title.as_str().is_empty() {
            p.identity.as_str().to_owned()
        } else {
            p.title.as_str().to_owned()
        };
        Some(
            Popup {
                picker: self.picker(p),
                title,
                artist: p.artist.as_str().to_owned(),
                album: p.album.as_str().to_owned(),
                seek: seek_bar(p, self.scrub, played),
                played: if p.length_us <= 0 && played > 0 {
                    Some(clock(played))
                } else {
                    None
                },
                can_previous: p.can_previous,
                can_toggle: p.can_pause || p.can_play,
                can_next: p.can_next,
                can_stop: p.status != Status::Stopped,
                toggle: if p.status == Status::Playing {
                    PAUSE
                } else {
                    PLAY
                },
                shuffle: match p.shuffle {
                    Some(on) => Some(
                        (
                            if on {
                                SHUFFLE
                            } else {
                                SHUFFLE_OFF
                            },
                            !on,
                        ),
                    ),
                    None => None,
                },
                loops: loop_button(&p.loop_status),
                error: match &self.error {
                    Some(error) => Some(error.as_str().to_owned()),
                    None => None,
                },
            },
        )
    }
}

} // verus!
