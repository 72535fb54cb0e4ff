//! What holds of notifications, and of what is asked of their daemon.
use crate::dbus::{Datum, Props};
use crate::modules::notifications::{
    bell, but, call_for, call_view, follows, mode_text, notification_in, other_actions, pair_views,
    shows_entry, shows_popup, text_pairs, toggled, tone_of, Call, Effects, Event, Notification,
    Popup, Snapshot, State, Tone,
};
use crate::number::decimal;
use crate::text::{joined, opt_text, replaced, texts};
use vstd::prelude::*;
use vstd::string::*;

verus! {

/// What is asked of the daemon is what was pressed, of the notification it was
/// pressed on, and only while the daemon is there.
pub proof fn law_calls_do_what_was_pressed(s: State, event: Event, t: State, r: Effects)
    requires
        follows(s, event, t),
        call_view(r.call) == call_for(s, event),
    ensures
        !s.connected ==> r.call is None,
        s.connected ==> {
            &&& event matches Event::Dismiss(id) ==> r.call == Some(Call::Dismiss(id))
            &&& event is DismissAll ==> r.call == Some(Call::DismissAll)
            &&& event matches Event::Invoke { id, action } ==> (r.call matches Some(
                Call::Invoke { id: i, action: a },
            ) && i == id && a@ == action@)
            &&& event is Restore ==> r.call == Some(Call::Restore)
            &&& event is ToggleDnd ==> r.call matches Some(Call::SetModes(_))
        },
        r.call matches Some(Call::Dismiss(_)) ==> event is Dismiss,
        r.call == Some(Call::DismissAll) ==> event is DismissAll,
        r.call matches Some(Call::Invoke { .. }) ==> event is Invoke,
        r.call == Some(Call::Restore) ==> event is Restore,
        r.call matches Some(Call::SetModes(_)) ==> event is ToggleDnd,
{
}

/// To toggle do-not-disturb sets it where it is not set and takes it out where it
/// is; every other mode stays, and the default one stands in for none.
pub proof fn law_toggling_changes_one_mode(s: State, snapshot: Snapshot, t: State, r: Effects)
    requires
        s.connected,
        s.snapshot == Some(snapshot),
        follows(s, Event::ToggleDnd, t),
        call_view(r.call) == call_for(s, Event::ToggleDnd),
    ensures
        r.call matches Some(Call::SetModes(modes)) && {
            let (before, after) = (texts(snapshot.modes@), texts(modes@));
            &&& after.contains("do-not-disturb"@) <==> !before.contains("do-not-disturb"@)
            &&& forall|mode: Seq<char>|
                mode != "do-not-disturb"@ && before.contains(mode) ==> #[trigger] after.contains(
                    mode,
                )
            &&& forall|mode: Seq<char>|
                mode != "do-not-disturb"@ && #[trigger] after.contains(mode) ==> before.contains(
                    mode,
                ) || mode == "default"@
            &&& after.len() > 0
        },
{
    let before = texts(snapshot.modes@);
    let after = toggled(before);
    lemma_but(before, "do-not-disturb"@);
    reveal_strlit("do-not-disturb");
    reveal_strlit("default");
    assert("do-not-disturb"@.len() == 14 && "default"@.len() == 7);
    let kept = but(before, "do-not-disturb"@);
    let base = if kept.len() == 0 {
        seq!["default"@]
    } else {
        kept
    };
    assert(forall|mode: Seq<char>|
        base.contains(mode) ==> #[trigger] kept.contains(mode) || mode == "default"@);
    if !before.contains("do-not-disturb"@) {
        assert(after == base.push("do-not-disturb"@));
        assert(after[after.len() - 1] == "do-not-disturb"@);
        assert forall|mode: Seq<char>| base.contains(mode) implies #[trigger] after.contains(
            mode,
        ) by {
            let k = choose|k: int| 0 <= k < base.len() && base[k] == mode;
            assert(after[k] == mode);
        }
        assert forall|mode: Seq<char>| #[trigger] after.contains(mode) && mode
            != "do-not-disturb"@ implies base.contains(mode) by {
            let k = choose|k: int| 0 <= k < after.len() && after[k] == mode;
            assert(base[k] == mode);
        }
    }
    assert forall|mode: Seq<char>|
        mode != "do-not-disturb"@ && before.contains(mode) implies #[trigger] after.contains(
        mode,
    ) by {
        assert(kept.contains(mode));
        assert(base.contains(mode));
    }
}

proof fn lemma_but(modes: Seq<Seq<char>>, mode: Seq<char>)
    ensures
        forall|m: Seq<char>| #[trigger]
            but(modes, mode).contains(m) <==> modes.contains(m) && m != mode,
    decreases modes.len(),
{
    if modes.len() > 0 {
        let before = modes.drop_last();
        lemma_but(before, mode);
        let some = but(before, mode);
        let all = but(modes, mode);
        assert(modes[modes.len() - 1] == modes.last());
        assert forall|m: Seq<char>| #[trigger] all.contains(m) <==> modes.contains(m) && m
            != mode by {
            if all.contains(m) {
                let k = choose|k: int| 0 <= k < all.len() && all[k] == m;
                if k < some.len() {
                    assert(some[k] == m);
                    assert(some.contains(m));
                    let j = choose|j: int| 0 <= j < before.len() && before[j] == m;
                    assert(modes[j] == m);
                }
            }
            if modes.contains(m) && m != mode {
                let k = choose|k: int| 0 <= k < modes.len() && modes[k] == m;
                if k < before.len() {
                    assert(before[k] == m);
                    assert(some.contains(m));
                    let j = choose|j: int| 0 <= j < some.len() && some[j] == m;
                    assert(all[j] == m);
                } else {
                    assert(all[all.len() - 1] == m);
                }
            }
        }
    }
}

/// What the daemon says is shown, a daemon that is gone takes what it said along,
/// and the end of a call says how it went.
pub proof fn law_events_change_what_they_tell_of(s: State, event: Event, t: State)
    requires
        follows(s, event, t),
    ensures
        event is Connected ==> t.connected && t.error is None && t.snapshot == s.snapshot,
        event matches Event::Snapshot(snapshot) ==> t.snapshot == Some(snapshot) && t.connected
            == s.connected && t.error == s.error,
        event is Absent ==> t.snapshot is None && t.connected == s.connected && t.error == s.error,
        event is Disconnected ==> t.snapshot is None && !t.connected && t.error == s.error,
        event matches Event::Mutated(Ok(_)) ==> t.error is None && t.snapshot == s.snapshot
            && t.connected == s.connected,
        event matches Event::Mutated(Err(error)) ==> t.error == Some(error) && t.snapshot
            == s.snapshot && t.connected == s.connected,
        event is Dismiss || event is DismissAll || event is Invoke || event is Restore
            || event is ToggleDnd ==> t == s,
{
}

/// A notification has what it was sent with, each under its own name.
pub proof fn law_notifications_have_what_they_were_sent_with(props: Props, n: Notification)
    requires
        n@ == notification_in(props),
    ensures
        props.raw("id"@) matches Some(Datum::U32(id)) ==> n.id == id,
        props.raw("app-name"@) matches Some(Datum::Str(name)) ==> n.app_name@ == name@,
        props.raw("summary"@) matches Some(Datum::Str(summary)) ==> n.summary@ == summary@,
        props.raw("body"@) matches Some(Datum::Str(body)) ==> n.body@ == body@,
        props.raw("urgency"@) matches Some(Datum::U8(urgency)) ==> n.urgency == urgency,
        props.raw("urgency"@) is None ==> n.urgency == 1,
        props.raw("body"@) is None ==> n.body@.len() == 0,
        props.raw("actions"@) matches Some(Datum::Dict(pairs)) ==> pair_views(n.actions@)
            == text_pairs(pairs@),
        props.raw("actions"@) is None ==> n.actions@.len() == 0,
{
    assert(pair_views(n.actions@).len() == n.actions@.len());
}

/// Actions keep their order, each label with its own key.
pub proof fn law_actions_keep_key_and_label(pairs: Seq<(Datum, Datum)>)
    requires
        forall|i: int|
            0 <= i < pairs.len() ==> (#[trigger] pairs[i]).0 is Str && pairs[i].1 is Str,
    ensures
        text_pairs(pairs).len() == pairs.len(),
        forall|i: int|
            0 <= i < pairs.len() ==> (#[trigger] text_pairs(pairs)[i]).0 == pairs[i].0->Str_0@
                && text_pairs(pairs)[i].1 == pairs[i].1->Str_0@,
    decreases pairs.len(),
{
    if pairs.len() > 0 {
        let before = pairs.drop_last();
        assert forall|i: int| 0 <= i < before.len() implies (#[trigger] before[i]).0 is Str
            && before[i].1 is Str by {
            assert(before[i] == pairs[i]);
        }
        law_actions_keep_key_and_label(before);
        assert(pairs[pairs.len() - 1] == pairs.last());
    }
}

/// Every notification that waits has its entry in its place, under its own id,
/// and is counted.
pub proof fn law_entries_stand_for_their_notification(
    s: State,
    snapshot: Snapshot,
    p: Popup,
    i: int,
)
    requires
        shows_popup(s, snapshot, p),
        0 <= i < snapshot.waiting@.len(),
    ensures
        p.entries@.len() == snapshot.waiting@.len(),
        p.title@ == decimal(snapshot.waiting@.len()) + " waiting"@,
        p.dnd <==> texts(snapshot.modes@).contains("do-not-disturb"@),
        opt_text(p.error) == opt_text(s.error),
        ({
            let (n, e) = (snapshot.waiting@[i], p.entries@[i]);
            &&& e.id == n.id
            &&& e.urgency == n.urgency
            &&& n.urgency == 1 ==> e.source@ == n.app_name@
            &&& n.urgency == 2 ==> e.source@ == n.app_name@ + " · critical"@
            &&& n.urgency == 0 ==> e.source@ == n.app_name@ + " · low"@
            &&& n.summary@.len() <= 64 && !n.summary@.contains('\n') ==> e.summary@ == n.summary@
            &&& e.body is None <==> n.body@.len() == 0
            &&& 0 < n.body@.len() <= 160 && !n.body@.contains('\n') ==> e.body is Some
                && e.body->0@ == n.body@
            &&& e.has_default <==> exists|k: int|
                0 <= k < n.actions@.len() && (#[trigger] n.actions@[k]).0@ == "default"@
            &&& forall|k: int|
                0 <= k < e.actions@.len() ==> (#[trigger] e.actions@[k]).0@ != "default"@
                    && pair_views(n.actions@).contains((e.actions@[k].0@, e.actions@[k].1@))
            &&& forall|k: int|
                0 <= k < n.actions@.len() && (#[trigger] n.actions@[k]).0@ != "default"@
                    ==> pair_views(e.actions@).contains((n.actions@[k].0@, n.actions@[k].1@))
        }),
{
    let (n, e) = (snapshot.waiting@[i], p.entries@[i]);
    assert(shows_entry(n@, e));
    reveal_strlit("");
    assert(n.app_name@ + ""@ =~= n.app_name@);
    lemma_flat(n.summary@);
    lemma_flat(n.body@);
    let actions = pair_views(n.actions@);
    lemma_other_actions(actions);
    assert forall|k: int| 0 <= k < n.actions@.len() implies actions[k] == (
        (#[trigger] n.actions@[k]).0@,
        n.actions@[k].1@,
    ) by {}
    let shown = pair_views(e.actions@);
    assert(shown.len() == e.actions@.len());
    assert forall|k: int| 0 <= k < e.actions@.len() implies (#[trigger] e.actions@[k]).0@
        != "default"@ && actions.contains((e.actions@[k].0@, e.actions@[k].1@)) by {
        assert(shown[k] == (e.actions@[k].0@, e.actions@[k].1@));
    }
    if e.has_default {
        let k = choose|k: int| 0 <= k < actions.len() && (#[trigger] actions[k]).0 == "default"@;
        assert(n.actions@[k].0@ == "default"@);
    }
    if exists|k: int| 0 <= k < n.actions@.len() && (#[trigger] n.actions@[k]).0@ == "default"@ {
        let k = choose|k: int|
            0 <= k < n.actions@.len() && (#[trigger] n.actions@[k]).0@ == "default"@;
        assert(actions[k].0 == "default"@);
    }
}

proof fn lemma_flat(s: Seq<char>)
    ensures
        !s.contains('\n') ==> replaced(s, '\n', ' ') == s,
        replaced(s, '\n', ' ').len() == s.len(),
{
    if !s.contains('\n') {
        assert forall|i: int| 0 <= i < s.len() implies replaced(s, '\n', ' ')[i]
            == s[i] by {
            assert(s.contains(s[i]));
        }
        assert(replaced(s, '\n', ' ') =~= s);
    }
}

proof fn lemma_other_actions(actions: Seq<(Seq<char>, Seq<char>)>)
    ensures
        forall|i: int|
            0 <= i < other_actions(actions).len() ==> (#[trigger] other_actions(actions)[i]).0
                != "default"@ && actions.contains(other_actions(actions)[i]),
        forall|i: int|
            0 <= i < actions.len() && (#[trigger] actions[i]).0 != "default"@ ==> other_actions(
                actions,
            ).contains(actions[i]),
    decreases actions.len(),
{
    if actions.len() > 0 {
        let before = actions.drop_last();
        lemma_other_actions(before);
        let some = other_actions(before);
        let all = other_actions(actions);
        assert(actions[actions.len() - 1] == actions.last());
        assert forall|i: int| 0 <= i < all.len() implies (#[trigger] all[i]).0 != "default"@
            && actions.contains(all[i]) by {
            if i < some.len() {
                assert(all[i] == some[i]);
                let k = choose|k: int| 0 <= k < before.len() && before[k] == some[i];
                assert(actions[k] == some[i]);
            }
        }
        assert forall|i: int|
            0 <= i < actions.len() && (#[trigger] actions[i]).0 != "default"@ implies all.contains(
            actions[i],
        ) by {
            if i < before.len() {
                assert(before[i] == actions[i]);
                let k = choose|k: int| 0 <= k < some.len() && some[k] == before[i];
                assert(all[k] == some[k]);
            } else {
                assert(all[all.len() - 1] == actions[i]);
            }
        }
    }
}

/// The bell and its tone tell whether anything waits, whether it is critical and
/// whether it is held back.
pub proof fn law_the_bell_tells_what_waits(dnd: bool, count: nat, critical: bool)
    ensures
        tone_of(dnd, count, critical) == Tone::Held <==> dnd,
        tone_of(dnd, count, critical) == Tone::Idle <==> !dnd && count == 0,
        tone_of(dnd, count, critical) == Tone::Critical <==> !dnd && count > 0 && critical,
        bell(dnd, count) == "\u{f116b}"@ <==> !dnd && count > 0,
        bell(dnd, count) == "\u{f009c}"@ <==> !dnd && count == 0,
        bell(dnd, count) == "\u{f009b}"@ <==> dnd && count > 0,
        bell(dnd, count) == "\u{f0a91}"@ <==> dnd && count == 0,
{
    reveal_strlit("\u{f116b}");
    reveal_strlit("\u{f009c}");
    reveal_strlit("\u{f009b}");
    reveal_strlit("\u{f0a91}");
    assert("\u{f116b}"@[0] == '\u{f116b}' && "\u{f009c}"@[0] == '\u{f009c}' && "\u{f009b}"@[0]
        == '\u{f009b}' && "\u{f0a91}"@[0] == '\u{f0a91}');
}

/// There is a popup as long as the daemon is there.
pub proof fn law_there_is_a_popup_while_the_daemon_is_there(s: State)
    ensures
        s.pops_up() <==> s.snapshot is Some,
{
}

/// The latest of what is past is listed, at most five, each with who sent it.
pub proof fn law_what_is_past_is_listed(s: State, snapshot: Snapshot, p: Popup, i: int)
    requires
        shows_popup(s, snapshot, p),
        0 <= i < snapshot.history@.len(),
        i < 5,
    ensures
        p.history@.len() <= 5,
        i < p.history@.len(),
        snapshot.history@[i].summary@.len() <= 64 && !snapshot.history@[i].summary@.contains('\n')
            ==> p.history@[i]@ == snapshot.history@[i].app_name@ + " · "@
            + snapshot.history@[i].summary@,
{
    assert(texts(p.history@).len() == p.history@.len());
    assert(texts(p.history@)[i] == p.history@[i]@);
    lemma_flat(snapshot.history@[i].summary@);
}

/// The modes are told by their names, but for the default one.
pub proof fn law_modes_are_told_by_their_names(mode: Seq<char>)
    requires
        mode.len() > 0,
    ensures
        mode != "default"@ ==> mode_text(seq![mode]) == "mode: "@ + mode,
        mode_text(seq!["default"@]) == "mode: default"@,
        mode_text(Seq::empty()) == "mode: default"@,
{
    let one = seq![mode];
    assert(one.drop_last() =~= Seq::empty());
    assert(but(one.drop_last(), "default"@) =~= Seq::empty());
    let default = seq!["default"@];
    assert(default.drop_last() =~= Seq::empty());
    assert(but(default.drop_last(), "default"@) =~= Seq::empty());
    if mode != "default"@ {
        assert(but(one, "default"@) =~= one);
        assert(joined(one, ", "@) == mode);
    }
}

} // verus!
