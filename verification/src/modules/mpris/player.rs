//! One player's state, as far as the bar cares.
use crate::dbus::{is_object_path, object_path, Datum, Props};
use crate::modules::mpris::value::{
    entry, flag, forward, integer_value, is_forward, loose_entry, loose_flag, loose_integer,
    loose_rate, loose_text, loose_texts, number, strings, text_value, Rate,
};
use crate::number::{decimal, two, two_digits, unsigned};
use crate::text::{
    after_last, concat, concat3, concat4, join, joined, opt_text, same, starts_with, tail,
};
use vstd::prelude::*;
use vstd::string::*;

verus! {

pub const PLAYER_IFACE: &'static str = "org.mpris.MediaPlayer2.Player";

pub const ROOT_IFACE: &'static str = "org.mpris.MediaPlayer2";

pub const PLAY: &'static str = "\u{f040a}";

pub const PAUSE: &'static str = "\u{f03e4}";

pub const MUSIC: &'static str = "\u{f075a}";

/// Bits of the double 1.
pub const ONE: u64 = 0x3ff0_0000_0000_0000;

/// Whether a bus name is a real player's: the one that only forwards to
/// whichever player is active would list the same track twice.
pub open spec fn is_player_name(name: Seq<char>) -> bool {
    "org.mpris.MediaPlayer2."@.is_prefix_of(name) && name != "org.mpris.MediaPlayer2.playerctld"@
}

pub fn is_player(name: &str) -> (r: bool)
    ensures
        r == is_player_name(name@),
{
    starts_with(name, "org.mpris.MediaPlayer2.") && !same(name, "org.mpris.MediaPlayer2.playerctld")
}

#[derive(Debug, Clone, Copy, PartialEq, Eq, Structural)]
pub enum Status {
    Playing,
    Paused,
    Stopped,
}

pub open spec fn status_of(text: Seq<char>) -> Status {
    if text == "Playing"@ {
        Status::Playing
    } else if text == "Paused"@ {
        Status::Paused
    } else {
        Status::Stopped
    }
}

impl Status {
    pub fn parse(text: &str) -> (r: Status)
        ensures
            r == status_of(text@),
    {
        if same(text, "Playing") {
            Status::Playing
        } else if same(text, "Paused") {
            Status::Paused
        } else {
            Status::Stopped
        }
    }
}

#[derive(Debug, Clone)]
pub struct Player {
    /// Well-known bus name, the stable identity used for selection.
    pub bus: String,
    /// What the player calls itself, else the bus name's last component.
    pub identity: String,
    pub status: Status,
    pub title: String,
    pub artist: String,
    pub album: String,
    pub length_us: i64,
    /// The position as last read, and the time when it was read.
    pub position_us: i64,
    pub sampled_ms: i64,
    pub rate: Rate,
    pub can_next: bool,
    pub can_previous: bool,
    pub can_pause: bool,
    pub can_play: bool,
    pub can_seek: bool,
    /// `None` when the player does not have the optional property.
    pub shuffle: Option<bool>,
    pub loop_status: Option<String>,
    /// The track that an absolute seek names.
    pub track: Option<String>,
}

pub struct PlayerView {
    pub bus: Seq<char>,
    pub identity: Seq<char>,
    pub status: Status,
    pub title: Seq<char>,
    pub artist: Seq<char>,
    pub album: Seq<char>,
    pub length_us: i64,
    pub position_us: i64,
    pub sampled_ms: i64,
    pub rate: Rate,
    pub can_next: bool,
    pub can_previous: bool,
    pub can_pause: bool,
    pub can_play: bool,
    pub can_seek: bool,
    pub shuffle: Option<bool>,
    pub loop_status: Option<Seq<char>>,
    pub track: Option<Seq<char>>,
}

impl View for Player {
    type V = PlayerView;

    open spec fn view(&self) -> PlayerView {
        PlayerView {
            bus: self.bus@,
            identity: self.identity@,
            status: self.status,
            title: self.title@,
            artist: self.artist@,
            album: self.album@,
            length_us: self.length_us,
            position_us: self.position_us,
            sampled_ms: self.sampled_ms,
            rate: self.rate,
            can_next: self.can_next,
            can_previous: self.can_previous,
            can_pause: self.can_pause,
            can_play: self.can_play,
            can_seek: self.can_seek,
            shuffle: self.shuffle,
            loop_status: opt_text(self.loop_status),
            track: opt_text(self.track),
        }
    }
}

pub open spec fn text_in(updates: Props, name: Seq<char>) -> Option<Seq<char>> {
    match updates.raw(name) {
        Some(value) => loose_text(value),
        None => None,
    }
}

pub open spec fn flag_in(updates: Props, name: Seq<char>) -> Option<bool> {
    match updates.raw(name) {
        Some(value) => loose_flag(value),
        None => None,
    }
}

pub open spec fn integer_in(updates: Props, name: Seq<char>) -> Option<i64> {
    match updates.raw(name) {
        Some(value) => loose_integer(value),
        None => None,
    }
}

fn text_of(updates: &Props, name: &str) -> (r: Option<String>)
    ensures
        opt_text(r) == text_in(*updates, name@),
{
    match updates.get_raw(name) {
        Some(value) => text_value(value),
        None => None,
    }
}

fn flag_of(updates: &Props, name: &str) -> (r: Option<bool>)
    ensures
        r == flag_in(*updates, name@),
{
    match updates.get_raw(name) {
        Some(value) => flag(value),
        None => None,
    }
}

/// A given flag, else the one there was.
pub open spec fn flag_or(given: Option<bool>, kept: bool) -> bool {
    match given {
        Some(b) => b,
        None => kept,
    }
}

fn flag_or_kept(given: Option<bool>, kept: bool) -> (r: bool)
    ensures
        r == flag_or(given, kept),
{
    match given {
        Some(b) => b,
        None => kept,
    }
}

pub open spec fn text_or_empty(s: Option<Seq<char>>) -> Seq<char> {
    match s {
        Some(s) => s,
        None => Seq::empty(),
    }
}

fn or_empty(s: Option<String>) -> (r: String)
    ensures
        r@ == text_or_empty(opt_text(s)),
{
    match s {
        Some(s) => s,
        None => String::new(),
    }
}

/// The text that metadata have under a name.
pub open spec fn data_text(data: Datum, name: Seq<char>) -> Option<Seq<char>> {
    match loose_entry(data, name) {
        Some(value) => loose_text(value),
        None => None,
    }
}

fn data_of(data: &Datum, name: &str) -> (r: Option<String>)
    ensures
        opt_text(r) == data_text(*data, name@),
{
    match entry(data, name) {
        Some(value) => text_value(value),
        None => None,
    }
}

/// The player with what it can do and how it plays brought up to date.
pub open spec fn switched(p: PlayerView, updates: Props) -> PlayerView {
    PlayerView {
        status: match text_in(updates, "PlaybackStatus"@) {
            Some(status) => status_of(status),
            None => p.status,
        },
        // A rate of nought or less would freeze or reverse the clock.
        rate: match updates.raw("Rate"@) {
            Some(value) => match loose_rate(value) {
                Some(rate) => if forward(rate) {
                    rate
                } else {
                    Rate::Double(ONE)
                },
                None => p.rate,
            },
            None => p.rate,
        },
        shuffle: match flag_in(updates, "Shuffle"@) {
            Some(shuffle) => Some(shuffle),
            None => p.shuffle,
        },
        loop_status: match text_in(updates, "LoopStatus"@) {
            Some(mode) => Some(mode),
            None => p.loop_status,
        },
        can_next: flag_or(flag_in(updates, "CanGoNext"@), p.can_next),
        can_previous: flag_or(flag_in(updates, "CanGoPrevious"@), p.can_previous),
        can_pause: flag_or(flag_in(updates, "CanPause"@), p.can_pause),
        can_play: flag_or(flag_in(updates, "CanPlay"@), p.can_play),
        can_seek: flag_or(flag_in(updates, "CanSeek"@), p.can_seek),
        ..p
    }
}

/// Whether metadata tell of another track than the one that plays.
pub open spec fn new_track(p: PlayerView, data: Datum) -> bool {
    data_text(data, "mpris:trackid"@) != p.track || text_or_empty(
        data_text(data, "xesam:title"@),
    ) != p.title
}

/// The player with a track's metadata. Another track restarts the timeline; the
/// same track announced again does not rewind it.
pub open spec fn with_track(p: PlayerView, data: Datum, now: i64) -> PlayerView {
    PlayerView {
        position_us: if new_track(p, data) {
            0
        } else {
            p.position_us
        },
        sampled_ms: if new_track(p, data) {
            now
        } else {
            p.sampled_ms
        },
        track: data_text(data, "mpris:trackid"@),
        title: text_or_empty(data_text(data, "xesam:title"@)),
        artist: match loose_entry(data, "xesam:artist"@) {
            Some(value) => joined(loose_texts(value), ", "@),
            None => Seq::empty(),
        },
        album: text_or_empty(data_text(data, "xesam:album"@)),
        length_us: match loose_entry(data, "mpris:length"@) {
            Some(value) => match loose_integer(value) {
                Some(n) => n,
                None => 0,
            },
            None => 0,
        },
        ..p
    }
}

/// The player at a position.
pub open spec fn positioned(p: PlayerView, position: i64, now: i64) -> PlayerView {
    PlayerView { position_us: position, sampled_ms: now, ..p }
}

/// The player after an update. A position in it counts even where the track is
/// a new one.
pub open spec fn applied(p: PlayerView, updates: Props, now: i64) -> PlayerView {
    let q = switched(p, updates);
    let t = match updates.raw("Metadata"@) {
        Some(data) => with_track(q, data, now),
        None => q,
    };
    match integer_in(updates, "Position"@) {
        Some(position) => positioned(t, position, now),
        None => t,
    }
}

impl Player {
    fn switch(&mut self, updates: &Props)
        ensures
            final(self)@ == switched(old(self)@, *updates),
    {
        match text_of(updates, "PlaybackStatus") {
            Some(status) => {
                self.status = Status::parse(status.as_str());
            },
            None => {},
        }
        match updates.get_raw("Rate") {
            Some(value) => match number(value) {
                Some(rate) => {
                    self.rate = if is_forward(rate) {
                        rate
                    } else {
                        Rate::Double(ONE)
                    };
                },
                None => {},
            },
            None => {},
        }
        match flag_of(updates, "Shuffle") {
            Some(shuffle) => {
                self.shuffle = Some(shuffle);
            },
            None => {},
        }
        match text_of(updates, "LoopStatus") {
            Some(mode) => {
                self.loop_status = Some(mode);
            },
            None => {},
        }
        self.can_next = flag_or_kept(flag_of(updates, "CanGoNext"), self.can_next);
        self.can_previous = flag_or_kept(flag_of(updates, "CanGoPrevious"), self.can_previous);
        self.can_pause = flag_or_kept(flag_of(updates, "CanPause"), self.can_pause);
        self.can_play = flag_or_kept(flag_of(updates, "CanPlay"), self.can_play);
        self.can_seek = flag_or_kept(flag_of(updates, "CanSeek"), self.can_seek);
    }

    fn track(&mut self, data: &Datum, now: i64)
        ensures
            final(self)@ == with_track(old(self)@, *data, now),
    {
        let track = data_of(data, "mpris:trackid");
        let title = or_empty(data_of(data, "xesam:title"));
        let known = match (&track, &self.track) {
            (Some(a), Some(b)) => same(a.as_str(), b.as_str()),
            (None, None) => true,
            _ => false,
        };
        if !known || !same(title.as_str(), self.title.as_str()) {
            self.position_us = 0;
            self.sampled_ms = now;
        }
        self.track = track;
        self.title = title;
        self.artist = match entry(data, "xesam:artist") {
            Some(value) => {
                let artists = strings(value);
                join(&artists, ", ")
            },
            None => String::new(),
        };
        self.album = or_empty(data_of(data, "xesam:album"));
        self.length_us = match entry(data, "mpris:length") {
            Some(value) => match integer_value(value) {
                Some(n) => n,
                None => 0,
            },
            None => 0,
        };
    }

    /// The player told where it is.
    pub fn at(&mut self, position: i64, now: i64)
        ensures
            final(self)@ == positioned(old(self)@, position, now),
    {
        self.position_us = position;
        self.sampled_ms = now;
    }

    /// Fold what a player told of itself into its state.
    pub fn apply(&mut self, updates: &Props, now: i64)
        ensures
            final(self)@ == applied(old(self)@, *updates, now),
    {
        self.switch(updates);
        match updates.get_raw("Metadata") {
            Some(data) => {
                self.track(data, now);
            },
            None => {},
        }
        match updates.get_raw("Position") {
            Some(value) => match integer_value(value) {
                Some(position) => {
                    self.at(position, now);
                },
                None => {},
            },
            None => {},
        }
    }
}

/// A player of which nothing is known but its name on the bus, and what it
/// calls itself.
pub open spec fn fresh(bus: Seq<char>, root: Option<Props>) -> PlayerView {
    let named = match root {
        Some(root) => text_or_empty(text_in(root, "Identity"@)),
        None => Seq::empty(),
    };
    PlayerView {
        bus,
        identity: if named.len() > 0 {
            named
        } else {
            tail(bus, '.')
        },
        status: Status::Stopped,
        title: Seq::empty(),
        artist: Seq::empty(),
        album: Seq::empty(),
        length_us: 0,
        position_us: 0,
        sampled_ms: 0,
        rate: Rate::Double(ONE),
        can_next: false,
        can_previous: false,
        can_pause: false,
        can_play: false,
        can_seek: false,
        shuffle: None,
        loop_status: None,
        track: None,
    }
}

/// A player from its whole state, and whether its position is still to be
/// asked for.
pub fn load(bus: &str, root: Option<&Props>, state: &Props, now: i64) -> (r: (Player, bool))
    ensures
        r.0@ == applied(
            fresh(
                bus@,
                match root {
                    Some(root) => Some(*root),
                    None => None,
                },
            ),
            *state,
            now,
        ),
        r.1 == (state.raw("Position"@) is None),
{
    let named = match root {
        Some(root) => or_empty(text_of(root, "Identity")),
        None => String::new(),
    };
    let identity = if named.as_str().is_empty() {
        after_last(bus, '.').to_owned()
    } else {
        named
    };
    let mut player = Player {
        bus: bus.to_owned(),
        identity,
        status: Status::Stopped,
        title: String::new(),
        artist: String::new(),
        album: String::new(),
        length_us: 0,
        position_us: 0,
        sampled_ms: 0,
        rate: Rate::Double(ONE),
        can_next: false,
        can_previous: false,
        can_pause: false,
        can_play: false,
        can_seek: false,
        shuffle: None,
        loop_status: None,
        track: None,
    };
    player.apply(state, now);
    (player, state.get_raw("Position").is_none())
}

/// Where a stream is, `advanced` microseconds of it after it was last asked.
pub open spec fn elapsed(p: PlayerView, advanced: i64) -> int {
    let from = if p.position_us > 0 {
        p.position_us as int
    } else {
        0
    };
    let at = from + advanced;
    if p.status != Status::Playing {
        from
    } else {
        let at = if at > i64::MAX {
            i64::MAX as int
        } else {
            at
        };
        if p.length_us > 0 && at > p.length_us {
            p.length_us as int
        } else {
            at
        }
    }
}

impl Player {
    /// How long ago the position was asked for, in milliseconds.
    pub fn since_ms(&self, now_ms: i64) -> (r: i64)
        requires
            i64::MIN <= now_ms - self.sampled_ms <= i64::MAX,
        ensures
            r == if now_ms > self.sampled_ms {
                now_ms - self.sampled_ms
            } else {
                0
            },
    {
        if now_ms > self.sampled_ms {
            now_ms - self.sampled_ms
        } else {
            0
        }
    }

    /// Where the stream is now: the last position and what has been played
    /// since, which nothing signals.
    pub fn elapsed_us(&self, advanced: i64) -> (r: i64)
        requires
            advanced >= 0,
        ensures
            r == elapsed(self@, advanced),
    {
        let from: i64 = if self.position_us > 0 {
            self.position_us
        } else {
            0
        };
        if self.status != Status::Playing {
            return from;
        }
        let at: i64 = if advanced > i64::MAX - from {
            i64::MAX
        } else {
            from + advanced
        };
        if self.length_us > 0 && at > self.length_us {
            self.length_us
        } else {
            at
        }
    }

    pub fn glyph(&self) -> (r: &'static str)
        ensures
            r@ == glyph_of(self.status),
    {
        match self.status {
            Status::Playing => PLAY,
            Status::Paused => PAUSE,
            Status::Stopped => MUSIC,
        }
    }
}

pub open spec fn glyph_of(status: Status) -> Seq<char> {
    match status {
        Status::Playing => PLAY@,
        Status::Paused => PAUSE@,
        Status::Stopped => MUSIC@,
    }
}

/// Time only takes a stream on, and never past its end.
pub proof fn law_streams_run_forward(p: PlayerView, sooner: i64, later: i64)
    requires
        0 <= sooner <= later,
    ensures
        elapsed(p, sooner) <= elapsed(p, later),
        0 <= elapsed(p, sooner) <= i64::MAX,
        p.status == Status::Playing && p.length_us > 0 ==> elapsed(p, later) <= p.length_us,
        p.status != Status::Playing ==> elapsed(p, sooner) == elapsed(p, later),
{
}

/// The same track announced again does not rewind the stream, and a new one
/// starts it over, unless the same update says where it is.
pub proof fn law_only_a_new_track_rewinds(p: PlayerView, updates: Props, now: i64)
    requires
        updates.raw("Metadata"@) is Some,
        integer_in(updates, "Position"@) is None,
    ensures
        new_track(p, updates.raw("Metadata"@)->0) ==> applied(p, updates, now).position_us == 0
            && applied(p, updates, now).sampled_ms == now,
        !new_track(p, updates.raw("Metadata"@)->0) ==> applied(p, updates, now).position_us
            == p.position_us && applied(p, updates, now).sampled_ms == p.sampled_ms,
{
}

/// Whatever a player sends, its clock runs forward.
pub proof fn law_rates_are_forward(p: PlayerView, updates: Props, now: i64)
    requires
        forward(p.rate),
    ensures
        forward(applied(p, updates, now).rate),
{
}

/// What the popup asks a player to do.
#[derive(Debug, Clone, PartialEq, Eq)]
pub enum Action {
    Next,
    Previous,
    PlayPause,
    Stop,
    /// Absolute position, in microseconds.
    Seek(i64),
    Shuffle(bool),
    /// One of `None`, `Track`, `Playlist`.
    Loop(&'static str),
    /// Ask for the position again.
    Resync,
}

/// What is sent to the player.
#[derive(Debug, Clone)]
pub enum Plan {
    /// Call a method without arguments.
    Call(&'static str),
    SetShuffle(bool),
    SetLoop(&'static str),
    SetPosition { track: String, target: i64 },
    /// Seek by so many microseconds.
    Seek(i64),
    Nothing,
}

/// Whether an absolute seek can name the track it applies to.
pub open spec fn names_track(p: PlayerView) -> bool {
    p.track matches Some(track) && object_path(track)
}

/// What an action comes to. An absolute seek needs the track it applies to;
/// without a usable one, it becomes a relative jump.
pub open spec fn plans(p: PlayerView, action: Action, elapsed: i64, plan: Plan) -> bool {
    match action {
        Action::Next => plan matches Plan::Call(m) && m@ == "Next"@,
        Action::Previous => plan matches Plan::Call(m) && m@ == "Previous"@,
        Action::PlayPause => plan matches Plan::Call(m) && m@ == "PlayPause"@,
        Action::Stop => plan matches Plan::Call(m) && m@ == "Stop"@,
        Action::Shuffle(on) => plan == Plan::SetShuffle(on),
        Action::Loop(mode) => plan == Plan::SetLoop(mode),
        Action::Seek(target) => if names_track(p) {
            plan matches Plan::SetPosition { track, target: at } && track@ == p.track->0 && at
                == target
        } else {
            plan == Plan::Seek((target - elapsed) as i64)
        },
        Action::Resync => plan == Plan::Nothing,
    }
}

impl Player {
    /// What to send for an action, `elapsed` microseconds into the stream.
    pub fn plan(&self, action: &Action, elapsed: i64) -> (r: Plan)
        requires
            !names_track(self@) ==> (action matches Action::Seek(target) ==> i64::MIN <= target
                - elapsed <= i64::MAX),
        ensures
            plans(self@, *action, elapsed, r),
            *action is Next ==> (r matches Plan::Call(m) && m@ == "Next"@),
            *action is Previous ==> (r matches Plan::Call(m) && m@ == "Previous"@),
            *action is PlayPause ==> (r matches Plan::Call(m) && m@ == "PlayPause"@),
            *action is Stop ==> (r matches Plan::Call(m) && m@ == "Stop"@),
    {
        match action {
            Action::Next => Plan::Call("Next"),
            Action::Previous => Plan::Call("Previous"),
            Action::PlayPause => Plan::Call("PlayPause"),
            Action::Stop => Plan::Call("Stop"),
            Action::Shuffle(on) => Plan::SetShuffle(*on),
            Action::Loop(mode) => Plan::SetLoop(*mode),
            Action::Seek(target) => {
                match &self.track {
                    Some(track) => {
                        if is_object_path(track.as_str()) {
                            return Plan::SetPosition {
                                track: track.as_str().to_owned(),
                                target: *target,
                            };
                        }
                    },
                    None => {},
                }
                Plan::Seek(*target - elapsed)
            },
            Action::Resync => Plan::Nothing,
        }
    }
}

/// The loop mode after the one there is.
pub open spec fn loop_after(mode: Seq<char>) -> Seq<char> {
    if mode == "Playlist"@ {
        "Track"@
    } else if mode == "Track"@ {
        "None"@
    } else {
        "Playlist"@
    }
}

pub fn next_loop(current: &str) -> (r: &'static str)
    ensures
        r@ == loop_after(current@),
{
    if same(current, "Playlist") {
        "Track"
    } else if same(current, "Track") {
        "None"
    } else {
        "Playlist"
    }
}

/// Three presses of the loop button come back to where they started.
pub proof fn law_loop_modes_cycle(mode: Seq<char>)
    requires
        mode == "None"@ || mode == "Playlist"@ || mode == "Track"@,
    ensures
        loop_after(loop_after(loop_after(mode))) == mode,
        loop_after(mode) != mode,
{
    reveal_strlit("None");
    reveal_strlit("Playlist");
    reveal_strlit("Track");
    assert("None"@.len() == 4);
    assert("Playlist"@.len() == 8);
    assert("Track"@.len() == 5);
}

/// `m:ss`, or `h:mm:ss` from an hour on.
pub open spec fn clock_text(micros: i64) -> Seq<char> {
    let seconds = if micros < 0 {
        0
    } else {
        (micros / 1_000_000) as int
    };
    if seconds < 3600 {
        decimal((seconds / 60) as nat) + ":"@ + two_digits((seconds % 60) as nat)
    } else {
        decimal((seconds / 3600) as nat) + ":"@ + two_digits(((seconds % 3600) / 60) as nat) + ":"@
            + two_digits((seconds % 60) as nat)
    }
}

pub fn clock(micros: i64) -> (r: String)
    ensures
        r@ == clock_text(micros),
{
    let seconds: u64 = if micros < 0 {
        0
    } else {
        (micros / 1_000_000) as u64
    };
    let last = two(seconds % 60);
    if seconds < 3600 {
        let minutes = unsigned(seconds / 60);
        concat3(minutes.as_str(), ":", last.as_str())
    } else {
        let hours = unsigned(seconds / 3600);
        let minutes = two((seconds % 3600) / 60);
        let front = concat4(hours.as_str(), ":", minutes.as_str(), ":");
        concat(front.as_str(), last.as_str())
    }
}

} // verus!
