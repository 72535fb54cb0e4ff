//! What holds of players, of what they are asked, and of what is shown of them.
use crate::dbus::{object_path, Datum, Props};
use crate::modules::mpris::player::{
    applied, clock_text, elapsed, flag_in, fresh, glyph_of, integer_in, is_player_name, plans, text_in, Action,
    Plan, Player, PlayerView, Status,
};
use crate::modules::mpris::session::{
    disowned, dropped, in_order, owned, pair_views, place, player_views, speaker,
};
use crate::modules::mpris::state::{
    current_in, first_with, follows, pick_view, pick_views, pinned, requests, shows_popup, total_of,
    Event, Popup, Request, State,
};
use crate::modules::mpris::value::{forward, loose_entry, loose_rate, loose_texts};
use crate::number::{decimal, two_digits};
use crate::text::{joined, lemma_text_order_total, opt_text, text_before};
use vstd::prelude::*;
use vstd::string::*;

verus! {

proof fn lemma_methods_differ()
    ensures
        "Next"@ != "Previous"@,
        "Next"@ != "PlayPause"@,
        "Next"@ != "Stop"@,
        "Previous"@ != "PlayPause"@,
        "Previous"@ != "Stop"@,
        "PlayPause"@ != "Stop"@,
{
    reveal_strlit("Next");
    reveal_strlit("Previous");
    reveal_strlit("PlayPause");
    reveal_strlit("Stop");
    assert("Next"@[0] == 'N' && "Previous"@[0] == 'P' && "Stop"@[0] == 'S' && "PlayPause"@[0]
        == 'P');
    assert("Previous"@[1] == 'r' && "PlayPause"@[1] == 'l');
}

/// Each button calls the method of its own name.
pub proof fn law_buttons_call_the_method_of_their_name(
    p: Player,
    action: Action,
    at: i64,
    plan: Plan,
)
    requires
        plans(p@, action, at, plan),
    ensures
        action is Next <==> (plan matches Plan::Call(m) && m@ == "Next"@),
        action is Previous <==> (plan matches Plan::Call(m) && m@ == "Previous"@),
        action is PlayPause <==> (plan matches Plan::Call(m) && m@ == "PlayPause"@),
        action is Stop <==> (plan matches Plan::Call(m) && m@ == "Stop"@),
        plan is Call <==> action is Next || action is Previous || action is PlayPause
            || action is Stop,
        action is Resync <==> plan is Nothing,
{
    lemma_methods_differ();
}

/// Different buttons call different methods, on whatever players.
pub proof fn law_buttons_are_told_apart(
    p: Player,
    a: Action,
    first: Plan,
    q: Player,
    b: Action,
    second: Plan,
    at: i64,
)
    requires
        plans(p@, a, at, first),
        plans(q@, b, at, second),
        first is Call,
        second is Call,
    ensures
        first->Call_0@ == second->Call_0@ <==> ((a is Next && b is Next) || (a is Previous
            && b is Previous) || (a is PlayPause && b is PlayPause) || (a is Stop && b is Stop)),
{
    lemma_methods_differ();
}

/// Switches are set to what was asked, and a seek goes where it was asked to: to
/// that place of the track that plays, or by the way that is left to it.
pub proof fn law_settings_are_set_as_asked(p: Player, action: Action, at: i64, plan: Plan)
    requires
        plans(p@, action, at, plan),
    ensures
        action matches Action::Shuffle(on) ==> plan == Plan::SetShuffle(on),
        action matches Action::Loop(mode) ==> plan == Plan::SetLoop(mode),
        action matches Action::Seek(target) ==> {
            &&& p.track matches Some(track) ==> (object_path(track@) ==> (
            plan matches Plan::SetPosition { track: t, target: to } && t@ == track@ && to
                == target))
            &&& p.track is None && i64::MIN <= target - at <= i64::MAX ==> (
            plan matches Plan::Seek(by) && at + by == target)
        },
        plan is SetShuffle <==> action is Shuffle,
        plan is SetLoop <==> action is Loop,
        plan is SetPosition || plan is Seek <==> action is Seek,
{
}

/// Every property reaches the field of its name, and what is not told stays.
pub proof fn law_properties_reach_their_field(p: Player, updates: Props, now: i64, q: Player)
    requires
        q@ == applied(p@, updates, now),
    ensures
        q.bus@ == p.bus@,
        q.identity@ == p.identity@,
        q.can_next == match flag_in(updates, "CanGoNext"@) {
            Some(can) => can,
            None => p.can_next,
        },
        q.can_previous == match flag_in(updates, "CanGoPrevious"@) {
            Some(can) => can,
            None => p.can_previous,
        },
        q.can_pause == match flag_in(updates, "CanPause"@) {
            Some(can) => can,
            None => p.can_pause,
        },
        q.can_play == match flag_in(updates, "CanPlay"@) {
            Some(can) => can,
            None => p.can_play,
        },
        q.can_seek == match flag_in(updates, "CanSeek"@) {
            Some(can) => can,
            None => p.can_seek,
        },
        flag_in(updates, "Shuffle"@) is Some ==> q.shuffle == flag_in(updates, "Shuffle"@),
        flag_in(updates, "Shuffle"@) is None ==> q.shuffle == p.shuffle,
        text_in(updates, "LoopStatus"@) is Some ==> opt_text(q.loop_status) == text_in(
            updates,
            "LoopStatus"@,
        ),
        text_in(updates, "LoopStatus"@) is None ==> opt_text(q.loop_status) == opt_text(
            p.loop_status,
        ),
        text_in(updates, "PlaybackStatus"@) is None ==> q.status == p.status,
        text_in(updates, "PlaybackStatus"@) matches Some(status) ==> {
            &&& q.status == Status::Playing <==> status == "Playing"@
            &&& q.status == Status::Paused <==> status == "Paused"@
        },
        integer_in(updates, "Position"@) matches Some(position) ==> q.position_us == position
            && q.sampled_ms == now,
        updates.raw("Metadata"@) is None ==> q.title@ == p.title@ && q.artist@ == p.artist@
            && q.album@ == p.album@ && q.length_us == p.length_us && opt_text(q.track) == opt_text(
            p.track,
        ),
        updates.raw("Metadata"@) is None && integer_in(updates, "Position"@) is None
            ==> q.position_us == p.position_us && q.sampled_ms == p.sampled_ms,
        updates.raw("Rate"@) is None ==> q.rate == p.rate,
        updates.raw("Rate"@) matches Some(value) ==> (loose_rate(value) matches Some(rate) ==> (
        forward(rate) ==> q.rate == rate)),
{
    reveal_strlit("Playing");
    reveal_strlit("Paused");
    assert("Playing"@[1] == 'l' && "Paused"@[1] == 'a');
}

/// A track that plays goes on from where it was read, at most to its end; one
/// that does not play stays there.
pub proof fn law_a_track_plays_on_from_where_it_was(p: Player, advanced: i64)
    requires
        advanced >= 0,
        p.position_us >= 0,
    ensures
        p.status != Status::Playing ==> elapsed(p@, advanced) == p.position_us,
        p.status == Status::Playing && p.length_us <= 0 && p.position_us + advanced <= i64::MAX
            ==> elapsed(p@, advanced) == p.position_us + advanced,
        p.status == Status::Playing && 0 < p.length_us && p.position_us + advanced <= p.length_us
            ==> elapsed(p@, advanced) == p.position_us + advanced,
        p.status == Status::Playing && 0 < p.length_us <= p.position_us + advanced ==> elapsed(
            p@,
            advanced,
        ) == p.length_us,
{
}

/// Statuses are told apart by their glyph.
pub proof fn law_statuses_have_their_own_glyph(a: Status)
    ensures
        glyph_of(a) == "\u{f040a}"@ <==> a == Status::Playing,
        glyph_of(a) == "\u{f03e4}"@ <==> a == Status::Paused,
        glyph_of(a) == "\u{f075a}"@ <==> a == Status::Stopped,
{
    reveal_strlit("\u{f040a}");
    reveal_strlit("\u{f03e4}");
    reveal_strlit("\u{f075a}");
    assert("\u{f040a}"@[0] == '\u{f040a}' && "\u{f03e4}"@[0] == '\u{f03e4}' && "\u{f075a}"@[0]
        == '\u{f075a}');
}

/// The player that is shown and asked: the pinned one while it is there, else
/// one that plays, else one that is paused, else the first.
pub proof fn law_the_current_player_is_the_one_that_matters(s: State)
    ensures
        current_in(s) is None <==> s.players@.len() == 0,
        current_in(s) matches Some(i) ==> {
            &&& 0 <= i < s.players@.len()
            &&& s.selected matches Some(bus) ==> ((exists|k: int|
                0 <= k < s.players@.len() && (#[trigger] s.players@[k]).bus@ == bus@)
                ==> s.players@[i].bus@ == bus@)
            &&& (s.selected is None || forall|k: int|
                0 <= k < s.players@.len() ==> (#[trigger] s.players@[k]).bus@ != s.selected->0@)
                ==> {
                &&& (exists|k: int|
                    0 <= k < s.players@.len() && (#[trigger] s.players@[k]).status
                        == Status::Playing) ==> s.players@[i].status == Status::Playing
                &&& s.players@[i].status == Status::Stopped ==> i == 0 && forall|k: int|
                    0 <= k < s.players@.len() ==> (#[trigger] s.players@[k]).status
                        == Status::Stopped
            }
        },
{
    let players = player_views(s.players@);
    assert forall|k: int| 0 <= k < players.len() implies (#[trigger] players[k])
        == s.players@[k]@ by {}
    lemma_first_with(players, Status::Playing);
    lemma_first_with(players, Status::Paused);
    if s.selected is Some {
        lemma_place(players, s.selected->0@);
        if exists|k: int|
            0 <= k < s.players@.len() && (#[trigger] s.players@[k]).bus@ == s.selected->0@ {
            let k = choose|k: int|
                0 <= k < s.players@.len() && (#[trigger] s.players@[k]).bus@ == s.selected->0@;
            assert(players[k].bus == s.selected->0@);
        }
    }
    if exists|k: int|
        0 <= k < s.players@.len() && (#[trigger] s.players@[k]).status == Status::Playing {
        let k = choose|k: int|
            0 <= k < s.players@.len() && (#[trigger] s.players@[k]).status == Status::Playing;
        assert(players[k].status == Status::Playing);
    }
    if current_in(s) is Some && s.players@[current_in(s)->0].status == Status::Stopped {
        assert forall|k: int| 0 <= k < s.players@.len() && (s.selected is None || forall|j: int|
            0 <= j < s.players@.len() ==> (#[trigger] s.players@[j]).bus@
                != s.selected->0@) implies (#[trigger] s.players@[k]).status == Status::Stopped by {
            assert(players[k].status == s.players@[k].status);
        }
    }
}

proof fn lemma_first_with(players: Seq<PlayerView>, status: Status)
    ensures
        first_with(players, status) matches Some(i) ==> 0 <= i < players.len() && players[i].status
            == status,
        first_with(players, status) is None ==> forall|i: int|
            0 <= i < players.len() ==> (#[trigger] players[i]).status != status,
    decreases players.len(),
{
    if players.len() > 0 {
        let rest = players.skip(1);
        lemma_first_with(rest, status);
        assert forall|i: int| 0 < i < players.len() implies (#[trigger] players[i]) == rest[i
            - 1] by {}
    }
}

proof fn lemma_place(players: Seq<PlayerView>, bus: Seq<char>)
    ensures
        place(players, bus) matches Some(i) ==> 0 <= i < players.len() && players[i].bus == bus,
        place(players, bus) is None ==> forall|i: int|
            0 <= i < players.len() ==> (#[trigger] players[i]).bus != bus,
    decreases players.len(),
{
    if players.len() > 0 {
        let rest = players.skip(1);
        lemma_place(rest, bus);
        assert forall|i: int| 0 < i < players.len() implies (#[trigger] players[i]) == rest[i
            - 1] by {}
    }
}

/// What was pressed is asked of the current player as it was pressed, and a drag
/// is asked for once it is let go, in microseconds and within the track.
pub proof fn law_presses_are_asked_of_the_current_player(
    s: State,
    event: Event,
    r: Option<Request>,
)
    requires
        requests(s, event, r),
    ensures
        r matches Some(request) ==> {
            &&& s.players@.len() > 0
            &&& exists|i: int|
                0 <= i < s.players@.len() && (#[trigger] s.players@[i]).bus@ == request.bus@
                    && current_in(s) == Some(i)
            &&& event matches Event::Dispatch(action) ==> request.action == action
            &&& event is Dispatch || (event is ScrubEnd && s.scrub is Some)
        },
        s.players@.len() > 0 && event is Dispatch ==> r is Some,
        s.players@.len() > 0 && event is ScrubEnd ==> (r is Some <==> s.scrub is Some),
        event is ScrubEnd && r is Some ==> (r->0.action matches Action::Seek(target) && exists|
            i: int,
        |
            0 <= i < s.players@.len() && current_in(s) == Some(i) && ({
                let length = (#[trigger] s.players@[i]).length_us;
                let asked = s.scrub->0 * 1_000_000;
                target == if asked > length {
                    length as int
                } else {
                    asked
                }
            })),
{
    law_the_current_player_is_the_one_that_matters(s);
    if current_in(s) is Some {
        let i = current_in(s)->0;
        assert(s.players@[i].bus@ == s.players@[i].bus@);
    }
}

/// A pick pins its player and lets a drag go; a bus that is gone takes all along;
/// what was acted is told.
pub proof fn law_events_change_what_they_tell_of(s: State, event: Event, t: State)
    requires
        follows(s, event, t),
    ensures
        event matches Event::Select(bus) ==> t.selected == Some(bus) && t.scrub is None
            && t.players == s.players && t.error == s.error,
        event matches Event::Scrub(seconds) ==> t.scrub == Some(seconds) && t.players == s.players
            && t.selected == s.selected && t.error == s.error,
        event is ScrubEnd ==> t.scrub is None && t.players == s.players && t.selected
            == s.selected && t.error == s.error,
        event is Gone ==> t.players@.len() == 0 && t.selected is None && t.scrub is None,
        event matches Event::Players(players) ==> t.players == players && t.scrub == s.scrub
            && t.error == s.error && (t.selected == s.selected || t.selected is None),
        event matches Event::Players(players) ==> (s.selected matches Some(bus) ==> (
        t.selected is Some <==> exists|k: int|
            0 <= k < players@.len() && (#[trigger] players@[k]).bus@ == bus@)),
        event is Dispatch ==> t == s,
        event matches Event::Acted(Ok(_)) ==> t.error is None && t.players == s.players
            && t.selected == s.selected && t.scrub == s.scrub,
        event matches Event::Acted(Err(error)) ==> t.error == Some(error) && t.players == s.players
            && t.selected == s.selected && t.scrub == s.scrub,
{
    if event is Players && s.selected is Some {
        let players = event->Players_0;
        let bus = s.selected->0;
        lemma_place(player_views(players@), bus@);
        assert forall|k: int| 0 <= k < players@.len() implies player_views(players@)[k]
            == (#[trigger] players@[k])@ by {}
        if pinned(players@, s.selected) {
            let k = place(player_views(players@), bus@)->0;
            assert(players@[k].bus@ == bus@);
        }
    }
}

/// The popup's buttons are those that the player can take, and its switches set
/// what is not set.
pub proof fn law_the_popup_offers_what_the_player_can(
    s: State,
    p: Player,
    played: i64,
    popup: Popup,
)
    requires
        played >= 0,
        shows_popup(s, p@, played, popup),
    ensures
        popup.can_next == p.can_next,
        popup.can_previous == p.can_previous,
        popup.can_toggle <==> p.can_pause || p.can_play,
        popup.can_stop <==> p.status != Status::Stopped,
        p.title@.len() > 0 ==> popup.title@ == p.title@,
        p.title@.len() == 0 ==> popup.title@ == p.identity@,
        popup.artist@ == p.artist@,
        popup.album@ == p.album@,
        p.shuffle is Some <==> popup.shuffle is Some,
        p.shuffle matches Some(on) ==> (popup.shuffle->0).1 != on && ((popup.shuffle->0).0@
            == "\u{f049d}"@ <==> on),
        p.loop_status is Some <==> popup.loops is Some,
        p.loop_status matches Some(mode) ==> {
            &&& (popup.loops->0).1 <==> mode@ == "Track"@ || mode@ == "Playlist"@
            &&& mode@ == "None"@ ==> (popup.loops->0).2@ == "Playlist"@ && (popup.loops->0).0@
                == "\u{f0457}"@
            &&& mode@ == "Playlist"@ ==> (popup.loops->0).2@ == "Track"@ && (popup.loops->0).0@
                == "\u{f0456}"@
            &&& mode@ == "Track"@ ==> (popup.loops->0).2@ == "None"@ && (popup.loops->0).0@
                == "\u{f0458}"@
        },
        popup.seek is Some <==> p.length_us > 0,
        popup.seek matches Some(seek) ==> {
            &&& seek.can_seek == p.can_seek
            &&& seek.dragged <==> s.scrub is Some
            &&& seek.at <= seek.total
            &&& 1_000_000 <= p.length_us < 0x1_0000_0000 * 1_000_000 ==> seek.total * 1_000_000
                <= p.length_us < (seek.total + 1) * 1_000_000
            &&& s.scrub matches Some(seconds) ==> (seconds <= seek.total ==> seek.at == seconds)
            &&& s.scrub is None && played / 1_000_000 <= seek.total ==> seek.at
                == played / 1_000_000
        },
        popup.played is Some <==> p.length_us <= 0 && played > 0,
        opt_text(popup.error) == opt_text(s.error),
        popup.toggle@ == "\u{f03e4}"@ <==> p.status == Status::Playing,
{
    if p.length_us > 0 {
        let seconds = p.length_us as int / 1_000_000;
        let total = total_of(p.length_us);
        if seconds < 0x1_0000_0000 {
            let shown = if seconds < 1 {
                1
            } else {
                seconds
            };
            assert(shown % 0x1_0000_0000 == shown);
            assert(total == shown);
        }
    }
    reveal_strlit("None");
    reveal_strlit("Track");
    reveal_strlit("Playlist");
    assert("None"@[0] == 'N' && "Track"@[0] == 'T' && "Playlist"@[0] == 'P');
    reveal_strlit("\u{f040a}");
    reveal_strlit("\u{f03e4}");
    reveal_strlit("\u{f049d}");
    reveal_strlit("\u{f049e}");
    assert("\u{f040a}"@[0] == '\u{f040a}' && "\u{f03e4}"@[0] == '\u{f03e4}' && "\u{f049d}"@[0]
        == '\u{f049d}' && "\u{f049e}"@[0] == '\u{f049e}');
}

/// Every player can be picked, by its own bus name, where there is more than one;
/// the current one is marked.
pub proof fn law_every_player_can_be_picked(s: State, p: Player, played: i64, popup: Popup)
    requires
        shows_popup(s, p@, played, popup),
    ensures
        s.players@.len() <= 1 ==> popup.picker@.len() == 0,
        s.players@.len() > 1 ==> popup.picker@.len() == s.players@.len(),
        forall|i: int|
            0 <= i < popup.picker@.len() ==> {
                &&& (#[trigger] popup.picker@[i]).bus@ == s.players@[i].bus@
                &&& popup.picker@[i].current <==> s.players@[i].bus@ == p.bus@
                &&& s.players@[i].identity@.len() <= 14 ==> popup.picker@[i].name@
                    == s.players@[i].identity@
            },
{
    assert(pick_views(popup.picker@).len() == popup.picker@.len());
    assert(player_views(s.players@).len() == s.players@.len());
    assert forall|i: int| 0 <= i < popup.picker@.len() implies {
        &&& (#[trigger] popup.picker@[i]).bus@ == s.players@[i].bus@
        &&& popup.picker@[i].current <==> s.players@[i].bus@ == p.bus@
        &&& s.players@[i].identity@.len() <= 14 ==> popup.picker@[i].name@
            == s.players@[i].identity@
    } by {
        assert(pick_views(popup.picker@)[i] == pick_view(popup.picker@[i]));
        assert(player_views(s.players@)[i] == s.players@[i]@);
    }
}

/// A sender speaks for the player that it was last seen to own, and for no other.
pub proof fn law_senders_speak_for_their_own_player(
    players: Seq<Player>,
    owners: Seq<(String, String)>,
    sender: Seq<char>,
)
    ensures
        speaker(player_views(players), pair_views(owners), None) is None,
        speaker(player_views(players), pair_views(owners), Some(sender)) matches Some(i) ==> 0 <= i
            < players.len() && exists|k: int|
            0 <= k < owners.len() && (#[trigger] owners[k]).0@ == sender && owners[k].1@
                == players[i].bus@,
        owned(pair_views(owners), sender) is None ==> forall|k: int|
            0 <= k < owners.len() ==> (#[trigger] owners[k]).0@ != sender,
{
    lemma_owned(pair_views(owners), sender);
    assert forall|k: int| 0 <= k < owners.len() implies pair_views(owners)[k] == (
        (#[trigger] owners[k]).0@,
        owners[k].1@,
    ) by {}
    if owned(pair_views(owners), sender) is Some {
        let bus = owned(pair_views(owners), sender)->0;
        lemma_place(player_views(players), bus);
        let k = choose|k: int|
            0 <= k < pair_views(owners).len() && (#[trigger] pair_views(owners)[k]).0 == sender
                && pair_views(owners)[k].1 == bus;
        assert(owners[k].0@ == sender && owners[k].1@ == bus);
    }
}

proof fn lemma_owned(owners: Seq<(Seq<char>, Seq<char>)>, owner: Seq<char>)
    ensures
        owned(owners, owner) matches Some(bus) ==> exists|k: int|
            0 <= k < owners.len() && (#[trigger] owners[k]).0 == owner && owners[k].1 == bus,
        owned(owners, owner) is None ==> forall|k: int|
            0 <= k < owners.len() ==> (#[trigger] owners[k]).0 != owner,
    decreases owners.len(),
{
    if owners.len() > 0 {
        let before = owners.drop_last();
        lemma_owned(before, owner);
        assert(owners[owners.len() - 1] == owners.last());
        if owners.last().0 != owner {
            match owned(before, owner) {
                Some(bus) => {
                    let k = choose|k: int|
                        0 <= k < before.len() && (#[trigger] before[k]).0 == owner && before[k].1
                            == bus;
                    assert(owners[k] == before[k]);
                },
                None => {
                    assert forall|k: int| 0 <= k < owners.len() implies (#[trigger] owners[k]).0
                        != owner by {
                        if k < before.len() {
                            assert(before[k] == owners[k]);
                        }
                    }
                },
            }
        }
    }
}

/// Who gives a name up owns nothing after that; everybody else owns what they
/// owned, and who takes a name owns it.
pub proof fn law_owners_come_and_go(
    owners: Seq<(Seq<char>, Seq<char>)>,
    owner: Seq<char>,
    other: Seq<char>,
    bus: Seq<char>,
)
    ensures
        owned(disowned(owners, owner), owner) is None,
        other != owner ==> owned(disowned(owners, owner), other) == owned(owners, other),
        owned(disowned(owners, owner).push((owner, bus)), owner) == Some(bus),
        other != owner ==> owned(disowned(owners, owner).push((owner, bus)), other) == owned(
            owners,
            other,
        ),
    decreases owners.len(),
{
    if owners.len() > 0 {
        let before = owners.drop_last();
        law_owners_come_and_go(before, owner, other, bus);
        let some = disowned(before, owner);
        if owners.last().0 != owner {
            assert(some.push(owners.last()).drop_last() =~= some);
        }
    }
    let left = disowned(owners, owner);
    assert(left.push((owner, bus)).drop_last() =~= left);
}

/// A player that is gone is not there any more, and takes no other along.
pub proof fn law_a_player_that_is_gone_is_dropped(players: Seq<PlayerView>, bus: Seq<char>)
    requires
        in_order(players),
    ensures
        forall|i: int|
            0 <= i < dropped(players, bus).len() ==> (#[trigger] dropped(players, bus)[i]).bus != bus
                && players.contains(dropped(players, bus)[i]),
        forall|i: int|
            0 <= i < players.len() && (#[trigger] players[i]).bus != bus ==> dropped(
                players,
                bus,
            ).contains(players[i]),
        in_order(dropped(players, bus)),
{
    lemma_place(players, bus);
    match place(players, bus) {
        Some(k) => {
            let left = players.remove(k);
            assert forall|i: int| 0 <= i < left.len() implies (#[trigger] left[i]).bus != bus
                && players.contains(left[i]) by {
                let j = if i < k {
                    i
                } else {
                    i + 1
                };
                assert(left[i] == players[j]);
                if j < k {
                    lemma_apart(players[j].bus, players[k].bus);
                } else {
                    lemma_apart(players[k].bus, players[j].bus);
                }
            }
            assert forall|i: int|
                0 <= i < players.len() && (#[trigger] players[i]).bus != bus implies left.contains(
                players[i],
            ) by {
                if i < k {
                    assert(left[i] == players[i]);
                } else {
                    assert(left[i - 1] == players[i]);
                }
            }
        },
        None => {},
    }
}

proof fn lemma_apart(a: Seq<char>, b: Seq<char>)
    requires
        text_before(a, b),
    ensures
        a != b,
{
    lemma_text_order_total(a, b);
}

/// A player starts out under its bus name, stopped and without anything it can
/// do, and goes by what it calls itself.
pub proof fn law_a_player_starts_out_with_nothing(bus: Seq<char>, root: Option<Props>)
    ensures
        ({
            let p = fresh(bus, root);
            &&& p.bus == bus
            &&& p.status == Status::Stopped
            &&& !p.can_next && !p.can_previous && !p.can_pause && !p.can_play && !p.can_seek
            &&& p.shuffle is None && p.loop_status is None && p.track is None
            &&& p.title.len() == 0 && p.artist.len() == 0 && p.album.len() == 0
            &&& p.length_us == 0 && p.position_us == 0
            &&& root matches Some(props) ==> (text_in(props, "Identity"@) matches Some(name) ==> (
            name.len() > 0 ==> p.identity == name))
        }),
{
}

/// A name on the bus is a player's where it is under the players' prefix and not
/// the proxy's own.
pub proof fn law_the_proxy_is_no_player(rest: Seq<char>)
    ensures
        is_player_name("org.mpris.MediaPlayer2."@ + rest) <==> rest != "playerctld"@,
{
    reveal_strlit("org.mpris.MediaPlayer2.");
    reveal_strlit("playerctld");
    reveal_strlit("org.mpris.MediaPlayer2.playerctld");
    let prefix = "org.mpris.MediaPlayer2."@;
    assert(prefix + "playerctld"@ =~= "org.mpris.MediaPlayer2.playerctld"@);
    assert((prefix + rest).skip(prefix.len() as int) =~= rest);
    assert((prefix + "playerctld"@).skip(prefix.len() as int) =~= "playerctld"@);
    assert(prefix.is_prefix_of(prefix + rest)) by {
        assert((prefix + rest).take(prefix.len() as int) =~= prefix);
    }
}

/// A track is told by what it says of itself, each under its own name.
pub proof fn law_tracks_are_told_by_their_metadata(
    p: Player,
    updates: Props,
    data: Datum,
    now: i64,
    q: Player,
)
    requires
        q@ == applied(p@, updates, now),
        updates.raw("Metadata"@) == Some(data),
    ensures
        loose_entry(data, "xesam:title"@) matches Some(Datum::Str(title)) ==> q.title@ == title@,
        loose_entry(data, "xesam:title"@) is None ==> q.title@.len() == 0,
        loose_entry(data, "xesam:album"@) matches Some(Datum::Str(album)) ==> q.album@ == album@,
        loose_entry(data, "xesam:album"@) is None ==> q.album@.len() == 0,
        loose_entry(data, "xesam:artist"@) matches Some(Datum::Str(artist)) ==> q.artist@
            == artist@,
        loose_entry(data, "xesam:artist"@) is None ==> q.artist@.len() == 0,
        loose_entry(data, "mpris:length"@) matches Some(Datum::I64(length)) ==> q.length_us
            == length,
        loose_entry(data, "mpris:length"@) is None ==> q.length_us == 0,
        loose_entry(data, "mpris:trackid"@) matches Some(Datum::Path(track)) ==> opt_text(q.track)
            == Some(track@),
        loose_entry(data, "mpris:trackid"@) is None ==> q.track is None,
{
    match loose_entry(data, "xesam:artist"@) {
        Some(Datum::Str(artist)) => {
            assert(loose_texts(Datum::Str(artist)) == seq![artist@]);
            assert(joined(seq![artist@], ", "@) == artist@);
        },
        _ => {},
    }
}

/// Times read in minutes and seconds, and from an hour on in hours too.
pub proof fn law_times_read_in_minutes_and_seconds(
    hours: int,
    minutes: int,
    seconds: int,
    micros: i64,
)
    requires
        hours >= 0,
        0 <= minutes < 60,
        0 <= seconds < 60,
        ((hours * 60 + minutes) * 60 + seconds) * 1_000_000 <= micros < ((hours * 60 + minutes) * 60
            + seconds + 1) * 1_000_000,
    ensures
        hours == 0 ==> clock_text(micros) == decimal(minutes as nat) + ":"@ + two_digits(
            seconds as nat,
        ),
        hours > 0 ==> clock_text(micros) == decimal(hours as nat) + ":"@ + two_digits(
            minutes as nat,
        ) + ":"@ + two_digits(seconds as nat),
{
    let all = (hours * 60 + minutes) * 60 + seconds;
    assert(micros as int / 1_000_000 == all);
    assert(all / 60 == hours * 60 + minutes && all % 60 == seconds);
    assert(all / 3600 == hours);
    assert(all % 3600 == minutes * 60 + seconds);
    assert((minutes * 60 + seconds) / 60 == minutes);
}

/// There is a popup as long as there is a player.
pub proof fn law_there_is_a_popup_with_a_player(s: State)
    ensures
        s.pops_up() <==> s.players@.len() > 0,
{
    law_the_current_player_is_the_one_that_matters(s);
}

} // verus!
