//! What holds of the displays and the modes, whatever happens to them.
use crate::modules::brightness::display::{
    all_asked, all_begun, asked, Display, Found, Sink, Target, Write,
};
use crate::modules::brightness::modes::Loaded;
use crate::modules::brightness::state::{
    by_mode, by_target, follows, is_active, is_named, lemma_trimmed_end_is_prefix, level_shown,
    refreshed, refreshed_one, Change, Editor, Event, State,
};
use crate::text::{folded, trimmed, trimmed_end};
use vstd::prelude::*;

verus! {

/// Whether an event may start writes by moving displays.
pub open spec fn moves_displays(event: Event) -> bool {
    event is SetLevel || event is Nudge || event is ApplyMode || event is ApplyNamed
        || event is CycleMode || event is EditMode
}

/// What a write is about: the display that it names now shows its level, was not
/// being written before, is now, and had another level or one waiting.
pub open spec fn is_due(before: Seq<Display>, after: Seq<Display>, w: Write) -> bool {
    &&& w.index < before.len()
    &&& !before[w.index as int].writing
    &&& after[w.index as int].writing
    &&& after[w.index as int].found.percent == w.percent
    &&& before[w.index as int].found.percent != w.percent || before[w.index as int].pending is Some
}

proof fn lemma_begun(ds: Seq<Display>, f: spec_fn(int) -> Option<u32>, n: int)
    requires
        0 <= n <= ds.len() <= usize::MAX,
    ensures
        forall|k: int|
            0 <= k < all_begun(ds, f, n).len() ==> {
                &&& is_due(ds, all_asked(ds, f), #[trigger] all_begun(ds, f, n)[k])
                &&& all_begun(ds, f, n)[k].index < n
            },
        forall|j: int, k: int|
            #![trigger all_begun(ds, f, n)[j], all_begun(ds, f, n)[k]]
            0 <= j < k < all_begun(ds, f, n).len() ==> all_begun(ds, f, n)[j].index < all_begun(
                ds,
                f,
                n,
            )[k].index,
        forall|i: int|
            0 <= i < n && !(#[trigger] ds[i]).writing && all_asked(ds, f)[i].writing ==> exists|
                k: int,
            |
                0 <= k < all_begun(ds, f, n).len() && (#[trigger] all_begun(ds, f, n)[k]).index
                    == i,
    decreases n,
{
    if n > 0 {
        lemma_begun(ds, f, n - 1);
        let (less, all) = (all_begun(ds, f, n - 1), all_begun(ds, f, n));
        assert forall|k: int| 0 <= k < all.len() implies {
            &&& is_due(ds, all_asked(ds, f), #[trigger] all[k])
            &&& all[k].index < n
        } by {
            if k < less.len() {
                assert(all[k] == less[k]);
            }
        }
        assert forall|j: int, k: int|
            #![trigger all[j], all[k]]
            0 <= j < k < all.len() implies all[j].index < all[k].index by {
            assert(all[j] == less[j]);
            if k < less.len() {
                assert(all[k] == less[k]);
            }
        }
        assert forall|i: int|
            0 <= i < n && !(#[trigger] ds[i]).writing && all_asked(ds, f)[i].writing implies exists|
            k: int,
        |
            0 <= k < all.len() && (#[trigger] all[k]).index == i by {
            if i < n - 1 {
                let k = choose|k: int| 0 <= k < less.len() && (#[trigger] less[k]).index == i;
                assert(all[k] == less[k]);
            } else {
                assert(all[less.len() as int].index == i);
            }
        }
    }
}

/// Where displays are asked for levels, each that starts to be written has one
/// write of its own, and nothing but levels moves.
pub proof fn law_what_is_asked_is_written_once(
    ds: Seq<Display>,
    f: spec_fn(int) -> Option<u32>,
    after: Seq<Display>,
    writes: Seq<Write>,
)
    requires
        ds.len() <= usize::MAX,
        after == all_asked(ds, f),
        writes == all_begun(ds, f, ds.len() as int),
    ensures
        written_once(ds, after, writes),
        only_levels_moved(ds, after),
{
    lemma_begun(ds, f, ds.len() as int);
}

/// Each display that starts to be written has exactly one write, with its own
/// number and the level that it shows, and no other display has any.
pub open spec fn written_once(before: Seq<Display>, after: Seq<Display>, writes: Seq<Write>) -> bool {
    &&& forall|k: int| 0 <= k < writes.len() ==> is_due(before, after, #[trigger] writes[k])
    &&& forall|j: int, k: int|
        #![trigger writes[j], writes[k]]
        0 <= j < k < writes.len() ==> writes[j].index < writes[k].index
    &&& forall|i: int|
        0 <= i < before.len() && !(#[trigger] before[i]).writing && after[i].writing ==> exists|
            k: int,
        |
            0 <= k < writes.len() && (#[trigger] writes[k]).index == i
}

/// Every display is the one it was, but for its level. A level that is asked for
/// during a write waits for its end.
pub open spec fn only_levels_moved(before: Seq<Display>, after: Seq<Display>) -> bool {
    &&& after.len() == before.len()
    &&& forall|i: int| #![trigger before[i]] #![trigger after[i]]
        0 <= i < before.len() ==> {
            &&& after[i].found.sink == before[i].found.sink
            &&& after[i].found.label == before[i].found.label
            &&& after[i].found.connector == before[i].found.connector
            &&& before[i].writing ==> after[i].writing
            &&& after[i].found.percent != before[i].found.percent ==> after[i].writing
            &&& after[i] != before[i] && before[i].writing ==> after[i].pending == Some(
                after[i].found.percent,
            )
            &&& !before[i].writing ==> after[i].pending == before[i].pending
        }
}

/// A change of brightness is written to the displays that it changes, to each
/// its own level, and to no other.
pub proof fn law_every_change_is_written_where_it_was_made(
    before: State,
    event: Event,
    now: u64,
    after: State,
    writes: Seq<Write>,
    save: bool,
)
    requires
        moves_displays(event),
        follows(before, event, now, after, writes, save),
    ensures
        written_once(before.displays@, after.displays@, writes),
        only_levels_moved(before.displays@, after.displays@),
        after.modes == before.modes,
        !save,
{
    let ds = before.displays@;
    assert(before.displays.len() == ds.len() && before.modes.len() == before.modes@.len());
    match event {
        Event::SetLevel(target, percent) => {
            law_what_is_asked_is_written_once(ds, by_target(ds, target, Change::To(percent)), after.displays@, writes);
        },
        Event::Nudge(target, steps) => {
            if !(after == before && writes.len() == 0) {
                let change = if steps > 0 {
                    Change::Up
                } else {
                    Change::Down
                };
                law_what_is_asked_is_written_once(ds, by_target(ds, target, change), after.displays@, writes);
            }
        },
        Event::ApplyMode(index) => {
            if index < before.modes@.len() {
                law_what_is_asked_is_written_once(ds, by_mode(ds, before.modes@[index as int]), after.displays@, writes);
            }
        },
        Event::ApplyNamed(name) => {
            if !(after == before && writes.len() == 0) {
                let i = after.last_mode->0 as int;
                law_what_is_asked_is_written_once(ds, by_mode(ds, before.modes@[i]), after.displays@, writes);
            }
        },
        Event::CycleMode => {
            if before.modes@.len() > 0 {
                let i = after.last_mode->0 as int;
                law_what_is_asked_is_written_once(ds, by_mode(ds, before.modes@[i]), after.displays@, writes);
            }
        },
        Event::EditMode(index) => {
            if before.modes_readable && index < before.modes@.len() {
                law_what_is_asked_is_written_once(ds, by_mode(ds, before.modes@[index as int]), after.displays@, writes);
            }
        },
        _ => {},
    }
}

/// A percentage is no more than the whole.
pub open spec fn at_most_all(percent: int) -> int {
    if percent > 100 {
        100
    } else {
        percent
    }
}

/// Setting a level sets that of the one display it is for, or of all of them,
/// and writes it at once where no write is in the way.
pub proof fn law_levels_are_set_where_they_are_meant(
    before: State,
    target: Target,
    percent: u32,
    now: u64,
    after: State,
    writes: Seq<Write>,
    save: bool,
    i: int,
)
    requires
        follows(before, Event::SetLevel(target, percent), now, after, writes, save),
        0 <= i < before.displays@.len(),
    ensures
        after == (State { displays: after.displays, ..before }),
        target == Target::All || target == Target::One(i as usize)
            ==> after.displays@[i].found.percent == at_most_all(percent as int),
        target != Target::All && target != Target::One(i as usize) ==> after.displays@[i]
            == before.displays@[i],
        target == Target::One(i as usize) && !before.displays@[i].writing
            && before.displays@[i].found.percent != at_most_all(percent as int) ==> writes == seq![
            Write { index: i as usize, percent: at_most_all(percent as int) as u32 },
        ],
{
    law_every_change_is_written_where_it_was_made(
        before,
        Event::SetLevel(target, percent),
        now,
        after,
        writes,
        save,
    );
    assert(before.displays.len() == before.displays@.len());
    let wanted = Write { index: i as usize, percent: at_most_all(percent as int) as u32 };
    if target == Target::One(i as usize) && !before.displays@[i].writing
        && before.displays@[i].found.percent != at_most_all(percent as int) {
        assert(before.displays@[i] != after.displays@[i]);
        let k = choose|k: int| 0 <= k < writes.len() && (#[trigger] writes[k]).index == i;
        assert forall|j: int| 0 <= j < writes.len() implies #[trigger] writes[j] == wanted by {
            let at = writes[j].index as int;
            if at != i {
                assert(after.displays@[at] == before.displays@[at]);
            }
        }
        if writes.len() > 1 {
            assert(writes[0].index < writes[1].index);
        }
        assert(writes =~= seq![wanted]);
    }
}

/// A notch of the wheel moves a level by five, up or down and never out of the
/// range, however far the wheel was turned; a second one within eighty
/// milliseconds moves nothing.
pub proof fn law_notches_move_levels_by_one_step(
    before: State,
    target: Target,
    steps: i32,
    now: u64,
    after: State,
    writes: Seq<Write>,
    save: bool,
    i: int,
)
    requires
        follows(before, Event::Nudge(target, steps), now, after, writes, save),
        0 <= i < before.displays@.len(),
        before.displays@[i].found.percent <= 100,
    ensures
        ({
            let late = match before.nudged_at {
                Some(last) => now >= last + 80_000_000,
                None => true,
            };
            let level = before.displays@[i].found.percent as int;
            let meant = target == Target::All || target == Target::One(i as usize);
            &&& steps == 0 || !late ==> after == before && writes.len() == 0
            &&& steps != 0 && late ==> after.nudged_at == Some(now)
            &&& steps > 0 && late && meant ==> after.displays@[i].found.percent == at_most_all(
                level + 5,
            )
            &&& steps < 0 && late && meant ==> after.displays@[i].found.percent == if level < 5 {
                0
            } else {
                level - 5
            }
            &&& !meant ==> after.displays@[i] == before.displays@[i]
        }),
{
}

/// The end of a write frees its display, unless the user has moved on: then the
/// newest level is written next. Whether it failed is told, and no other display
/// is touched.
pub proof fn law_the_end_of_a_write_brings_the_newest_level(
    before: State,
    index: usize,
    percent: u32,
    result: Result<(), String>,
    now: u64,
    after: State,
    writes: Seq<Write>,
    save: bool,
)
    requires
        follows(before, Event::Wrote { index, percent, result }, now, after, writes, save),
    ensures
        result matches Err(error) ==> after.error == Some(error),
        result is Ok ==> after.error is None,
        after.displays@.len() == before.displays@.len(),
        forall|i: int|
            0 <= i < before.displays@.len() && i != index ==> after.displays@[i]
                == #[trigger] before.displays@[i],
        index >= before.displays@.len() ==> writes.len() == 0,
        index < before.displays@.len() ==> {
            let (was, then) = (before.displays@[index as int], after.displays@[index as int]);
            &&& then.found == was.found
            &&& then.pending is None
            &&& then.writing <==> was.pending is Some && was.pending != Some(percent)
            &&& then.writing ==> writes == seq![Write { index, percent: was.pending->0 }]
            &&& !then.writing ==> writes.len() == 0
        },
        after.modes == before.modes && after.editor == before.editor && !save,
{
}

/// Displays that were found are shown as they were found, idle.
pub proof fn law_found_displays_are_shown(
    before: State,
    found: Vec<Found>,
    now: u64,
    after: State,
    writes: Seq<Write>,
    save: bool,
)
    requires
        follows(before, Event::Detected(found), now, after, writes, save),
    ensures
        after.displays@.len() == found@.len(),
        forall|i: int|
            0 <= i < found@.len() ==> {
                &&& (#[trigger] after.displays@[i]).found == found@[i]
                &&& !after.displays@[i].writing && after.displays@[i].pending is None
            },
        writes.len() == 0 && !save,
{
}

/// What a live value may change: the level of an idle display with that sink.
pub open spec fn only_idle_levels(before: Seq<Display>, after: Seq<Display>) -> bool {
    &&& after.len() == before.len()
    &&& forall|i: int| #![trigger after[i]] #![trigger before[i]]
        0 <= i < before.len() ==> {
            &&& after[i].found.sink == before[i].found.sink
            &&& after[i].found.label == before[i].found.label
            &&& after[i].found.connector == before[i].found.connector
            &&& after[i].writing == before[i].writing
            &&& after[i].pending == before[i].pending
            &&& before[i].writing || before[i].pending is Some ==> after[i] == before[i]
        }
}

proof fn lemma_refreshed_one_moves(ds: Seq<Display>, sink: Sink, percent: u32)
    ensures
        only_idle_levels(ds, refreshed_one(ds, sink@, percent)),
        forall|i: int|
            0 <= i < ds.len() && (#[trigger] refreshed_one(ds, sink@, percent)[i]) != ds[i] ==> {
                &&& ds[i].found.sink@ == sink@
                &&& refreshed_one(ds, sink@, percent)[i].found.percent == percent
            },
        forall|i: int|
            0 <= i < ds.len() && (#[trigger] ds[i]).found.sink@ == sink@ && !ds[i].writing
                && ds[i].pending is None && (forall|j: int|
                0 <= j < i ==> (#[trigger] ds[j]).found.sink@ != sink@) ==> refreshed_one(
                ds,
                sink@,
                percent,
            )[i].found.percent == percent,
    decreases ds.len(),
{
    if ds.len() > 0 && ds[0].found.sink@ != sink@ {
        let rest = ds.skip(1);
        lemma_refreshed_one_moves(rest, sink, percent);
        let after = refreshed_one(ds, sink@, percent);
        assert forall|i: int| 0 < i < ds.len() implies #[trigger] after[i] == refreshed_one(
            rest,
            sink@,
            percent,
        )[i - 1] && ds[i] == rest[i - 1] by {}
        assert forall|i: int|
            0 <= i < ds.len() && (#[trigger] ds[i]).found.sink@ == sink@ && !ds[i].writing
                && ds[i].pending is None && (forall|j: int|
                0 <= j < i ==> (#[trigger] ds[j]).found.sink@
                    != sink@) implies after[i].found.percent == percent by {
            assert(rest[i - 1] == ds[i]);
            assert forall|j: int| 0 <= j < i - 1 implies (#[trigger] rest[j]).found.sink@
                != sink@ by {
                assert(rest[j] == ds[j + 1]);
            }
            assert(after[i] == refreshed_one(rest, sink@, percent)[i - 1]);
        }
    }
}

proof fn lemma_refreshed_moves(ds: Seq<Display>, values: Seq<(Sink, u32)>)
    ensures
        only_idle_levels(ds, refreshed(ds, values)),
        forall|i: int|
            0 <= i < ds.len() && (#[trigger] refreshed(ds, values)[i]) != ds[i] ==> exists|k: int|
                0 <= k < values.len() && (#[trigger] values[k]).0@ == ds[i].found.sink@
                    && values[k].1 == refreshed(ds, values)[i].found.percent,
    decreases values.len(),
{
    if values.len() > 0 {
        let most = values.drop_last();
        let (had, all) = (refreshed(ds, most), refreshed(ds, values));
        lemma_refreshed_moves(ds, most);
        lemma_refreshed_one_moves(had, values.last().0, values.last().1);
        assert forall|i: int| 0 <= i < ds.len() && (#[trigger] all[i]) != ds[i] implies exists|
            k: int,
        |
            0 <= k < values.len() && (#[trigger] values[k]).0@ == ds[i].found.sink@ && values[k].1
                == all[i].found.percent by {
            if all[i] != had[i] {
                assert(values[values.len() - 1].0@ == ds[i].found.sink@);
            } else {
                let k = choose|k: int|
                    0 <= k < most.len() && (#[trigger] most[k]).0@ == ds[i].found.sink@ && most[k].1
                        == had[i].found.percent;
                assert(values[k] == most[k]);
            }
        }
    }
}

/// A level that was read is taken in for the display it was read from, and only
/// where the user is not changing it.
pub proof fn law_live_levels_do_not_fight_the_user(
    before: State,
    values: Vec<(Sink, u32)>,
    now: u64,
    after: State,
    writes: Seq<Write>,
    save: bool,
)
    requires
        follows(before, Event::Refreshed(values), now, after, writes, save),
    ensures
        only_idle_levels(before.displays@, after.displays@),
        forall|i: int|
            0 <= i < before.displays@.len() && (#[trigger] after.displays@[i])
                != before.displays@[i] ==> exists|k: int|
                0 <= k < values@.len() && (#[trigger] values@[k]).0@
                    == before.displays@[i].found.sink@ && values@[k].1
                    == after.displays@[i].found.percent,
        values@.len() == 1 ==> forall|i: int|
            0 <= i < before.displays@.len() && (#[trigger] before.displays@[i]).found.sink@
                == values@[0].0@ && !before.displays@[i].writing
                && before.displays@[i].pending is None && (forall|j: int|
                0 <= j < i ==> (#[trigger] before.displays@[j]).found.sink@ != values@[0].0@)
                ==> after.displays@[i].found.percent == values@[0].1,
        writes.len() == 0 && !save,
{
    lemma_refreshed_moves(before.displays@, values@);
    if values@.len() == 1 {
        assert(refreshed(before.displays@, values@.drop_last()) == before.displays@);
        lemma_refreshed_one_moves(before.displays@, values@[0].0, values@[0].1);
    }
}

/// Asking for a mode by its name applies a mode of that name, whatever the case,
/// and the first of them; where there is none, nothing happens.
pub proof fn law_modes_are_found_by_name(
    before: State,
    name: String,
    now: u64,
    after: State,
    writes: Seq<Write>,
    save: bool,
    i: int,
)
    requires
        follows(before, Event::ApplyNamed(name), now, after, writes, save),
        0 <= i < before.modes@.len(),
        folded(trimmed(before.modes@[i].name@)) == folded(trimmed(name@)),
    ensures
        after.last_mode matches Some(at) && at <= i && folded(
            trimmed(before.modes@[at as int].name@),
        ) == folded(trimmed(name@)) && follows(
            before,
            Event::ApplyMode(at),
            now,
            after,
            writes,
            save,
        ),
{
    assert(before.modes.len() == before.modes@.len());
    assert(is_named(before.modes@, name@, i));
}

/// A name that no mode has applies none.
pub proof fn law_unknown_modes_are_not_applied(
    before: State,
    name: String,
    now: u64,
    after: State,
    writes: Seq<Write>,
    save: bool,
)
    requires
        follows(before, Event::ApplyNamed(name), now, after, writes, save),
        forall|i: int|
            0 <= i < before.modes@.len() ==> folded(trimmed((#[trigger] before.modes@[i]).name@))
                != folded(trimmed(name@)),
    ensures
        after == before,
        writes.len() == 0,
{
    assert(forall|i: int| !is_named(before.modes@, name@, i));
}

/// Cycling applies the mode behind the one in effect, or behind the last one
/// applied, and comes round to the first.
pub proof fn law_cycling_moves_on_by_one(
    before: State,
    now: u64,
    after: State,
    writes: Seq<Write>,
    save: bool,
    active: Option<usize>,
)
    requires
        follows(before, Event::CycleMode, now, after, writes, save),
        before.wf(),
        before.modes@.len() > 0,
        is_active(before.modes@, before.displays@, before.last_mode, active),
    ensures
        ({
            let from = if active is Some {
                active
            } else {
                before.last_mode
            };
            &&& from is None ==> after.last_mode == Some(0usize)
            &&& from matches Some(at) ==> after.last_mode == Some(
                if at + 1 == before.modes@.len() {
                    0
                } else {
                    (at + 1) as usize
                },
            )
            &&& follows(before, Event::ApplyMode(after.last_mode->0), now, after, writes, save)
        }),
{
    assert(before.modes.len() == before.modes@.len());
    let n = before.modes@.len() as int;
    assert forall|at: int| 0 <= at < n implies #[trigger] ((at + 1) % n) == if at + 1 == n {
        0
    } else {
        at + 1
    } by {
        assert((at + 1) % n == if at + 1 == n {
            0
        } else {
            at + 1
        }) by (nonlinear_arith)
            requires
                0 <= at < n,
        ;
    }
}

/// The editor opens empty on a new mode, and on a mode under its own name, which
/// is applied; and not at all while the file cannot be read.
pub proof fn law_the_editor_opens_on_what_was_picked(
    before: State,
    event: Event,
    now: u64,
    after: State,
    writes: Seq<Write>,
    save: bool,
)
    requires
        follows(before, event, now, after, writes, save),
        event is NewMode || event is EditMode,
    ensures
        !before.modes_readable ==> after == before && writes.len() == 0,
        before.modes_readable && event is NewMode ==> {
            &&& after == (State { editor: after.editor, ..before })
            &&& after.editor matches Some(e) && e.target is None && e.name@.len() == 0
            &&& writes.len() == 0
        },
        event matches Event::EditMode(index) && index >= before.modes@.len() ==> after == before
            && writes.len() == 0,
        event matches Event::EditMode(index) ==> (before.modes_readable && index
            < before.modes@.len() ==> {
            &&& after.editor matches Some(e) && e.target == Some(index) && e.name@
                == before.modes@[index as int].name@
            &&& after.last_mode == Some(index)
        }),
        after.modes == before.modes && !save,
{
}

/// Saving puts the levels that the displays show under the draft's name: over
/// the mode that is edited, or behind the others.
pub proof fn law_saving_keeps_what_is_shown(
    before: State,
    now: u64,
    after: State,
    writes: Seq<Write>,
    save: bool,
    editor: Editor,
    i: int,
)
    requires
        follows(before, Event::SaveMode, now, after, writes, save),
        before.editor == Some(editor),
        save,
        0 <= i < before.displays@.len(),
        forall|j: int|
            0 <= j < before.displays@.len() && j != i ==> (match (
            #[trigger] before.displays@[j]).found.connector {
                Some(connector) => connector@,
                None => before.displays@[j].found.label@,
            }) != (match before.displays@[i].found.connector {
                Some(connector) => connector@,
                None => before.displays@[i].found.label@,
            }),
    ensures
        ({
            let edits = editor.target matches Some(at) && at < before.modes@.len();
            let at = if edits {
                editor.target->0 as int
            } else {
                before.modes@.len() as int
            };
            let key = match before.displays@[i].found.connector {
                Some(connector) => connector@,
                None => before.displays@[i].found.label@,
            };
            &&& after.editor is None
            &&& after.saves == before.saves + 1 || before.saves == u64::MAX
            &&& after.last_mode == Some(at as usize)
            &&& after.modes@.len() == before.modes@.len() + if edits {
                0int
            } else {
                1
            }
            &&& after.modes@[at].name@ == trimmed(editor.name@)
            &&& after.modes@[at].levels.at(key) == Some(before.displays@[i].found.percent)
            &&& forall|j: int|
                0 <= j < before.modes@.len() && j != at ==> after.modes@[j]
                    == #[trigger] before.modes@[j]
            &&& after.displays == before.displays && writes.len() == 0
        }),
{
    let key = match before.displays@[i].found.connector {
        Some(connector) => connector@,
        None => before.displays@[i].found.label@,
    };
    assert(before.modes.len() == before.modes@.len());
    lemma_level_shown(before.displays@, key, i);
}

proof fn lemma_level_shown(ds: Seq<Display>, key: Seq<char>, i: int)
    requires
        0 <= i < ds.len(),
        (match ds[i].found.connector {
            Some(connector) => connector@,
            None => ds[i].found.label@,
        }) == key,
        forall|j: int|
            0 <= j < ds.len() && j != i ==> (match (#[trigger] ds[j]).found.connector {
                Some(connector) => connector@,
                None => ds[j].found.label@,
            }) != key,
    ensures
        level_shown(ds, key) == Some(ds[i].found.percent),
    decreases ds.len(),
{
    if i < ds.len() - 1 {
        let most = ds.drop_last();
        assert(ds.last() == ds[ds.len() - 1]);
        assert forall|j: int| 0 <= j < most.len() && j != i implies (match (
        #[trigger] most[j]).found.connector {
            Some(connector) => connector@,
            None => most[j].found.label@,
        }) != key by {
            assert(most[j] == ds[j]);
        }
        lemma_level_shown(most, key, i);
    }
}

/// Deleting takes the mode out that is edited and no other, and closes the
/// editor.
pub proof fn law_deleting_takes_out_what_is_edited(
    before: State,
    now: u64,
    after: State,
    writes: Seq<Write>,
    save: bool,
    editor: Editor,
    at: usize,
)
    requires
        follows(before, Event::DeleteMode, now, after, writes, save),
        before.editor == Some(editor),
        editor.target == Some(at),
        at < before.modes@.len(),
    ensures
        save,
        after.editor is None && after.last_mode is None,
        after.modes@.len() == before.modes@.len() - 1,
        forall|j: int| 0 <= j < at ==> after.modes@[j] == #[trigger] before.modes@[j],
        forall|j: int|
            at < j < before.modes@.len() ==> after.modes@[j - 1] == #[trigger] before.modes@[j],
        after.displays == before.displays && writes.len() == 0,
{
}

/// Typing adds at the end of the name, erasing takes from it, and cancelling
/// closes the editor; none of them touches a mode or a display.
pub proof fn law_typing_stays_in_the_editor(
    before: State,
    event: Event,
    now: u64,
    after: State,
    writes: Seq<Write>,
    save: bool,
)
    requires
        follows(before, event, now, after, writes, save),
        event is Typed || event is Erase || event is CancelEdit,
    ensures
        after == (State { editor: after.editor, ..before }),
        writes.len() == 0 && !save,
        event is CancelEdit ==> after.editor is None,
        before.editor is None ==> after.editor is None,
        !(event is CancelEdit) && before.editor is Some ==> after.editor is Some
            && after.editor->0.target == before.editor->0.target,
        event is Typed && before.editor is Some ==> before.editor->0.name@.is_prefix_of(
            after.editor->0.name@,
        ),
        event is Erase && before.editor is Some ==> after.editor->0.name@.is_prefix_of(
            before.editor->0.name@,
        ),
        event matches Event::Erase { word } && !word && before.editor is Some
            && before.editor->0.name@.len() > 0 ==> after.editor->0.name@.len() + 1
            == before.editor->0.name@.len(),
        event is Erase && before.editor is Some && before.editor->0.name@.len() > 0
            && before.editor->0.name@.last() != ' ' ==> after.editor->0.name@.len()
            < before.editor->0.name@.len(),
{
    if event is Erase && before.editor is Some {
        let name = before.editor->0.name@;
        let short = trimmed_end(name);
        lemma_trimmed_end_is_prefix(name);
        short.index_of_last_ensures(' ');
        if let Some(i) = short.index_of_last(' ') {
            assert(short[i] == ' ');
            assert(name.take(i + 1).is_prefix_of(name));
            assert(short[i] == name[i]);
        }
        if name.len() > 0 {
            assert(name.drop_last().is_prefix_of(name));
        }
    }
}

/// Modes that could not be read close the editor and say so; those that were
/// read are the modes from then on.
pub proof fn law_modes_are_those_that_were_read(
    before: State,
    result: Result<Loaded, String>,
    now: u64,
    after: State,
    writes: Seq<Write>,
    save: bool,
)
    requires
        follows(before, Event::ModesLoaded(result), now, after, writes, save),
    ensures
        result matches Err(error) ==> {
            &&& !after.modes_readable && after.modes_error == Some(error) && after.editor is None
            &&& after.modes == before.modes
        },
        result matches Ok(loaded) && loaded.generation < before.saves ==> after == before,
        result matches Ok(loaded) ==> (loaded.generation >= before.saves ==> {
            &&& after.modes_readable
            &&& before.editor is None ==> after.editor is None
            &&& before.editor matches Some(editor) ==> (editor.target is None ==> after.editor
                == before.editor)
            &&& after.editor is Some && after.editor->0.target is Some ==> after.modes
                == before.modes
            &&& before.modes_error is None ==> after.modes_error is None
            &&& after.modes@.len() == loaded.modes@.len()
            &&& forall|i: int|
                0 <= i < loaded.modes@.len() ==> (#[trigger] after.modes@[i]).name@
                    == loaded.modes@[i].name@ && after.modes@[i].levels.pairs()
                    == loaded.modes@[i].levels.pairs()
        }),
        after.displays == before.displays && writes.len() == 0 && !save,
{
    if let Ok(loaded) = result {
        if loaded.generation >= before.saves {
            let (read, had) = (
                crate::modules::brightness::modes::contents(loaded.modes@),
                crate::modules::brightness::modes::contents(before.modes@),
            );
            if read == had {
                assert(read.len() == had.len());
                assert forall|i: int| 0 <= i < loaded.modes@.len() implies (
                #[trigger] after.modes@[i]).name@ == loaded.modes@[i].name@
                    && after.modes@[i].levels.pairs() == loaded.modes@[i].levels.pairs() by {
                    assert(read[i] == had[i]);
                }
            }
        }
    }
}

/// How a save went is told, until one goes well.
pub proof fn law_failed_saves_are_told(
    before: State,
    result: Result<(), String>,
    now: u64,
    after: State,
    writes: Seq<Write>,
    save: bool,
)
    requires
        follows(before, Event::Saved(result), now, after, writes, save),
    ensures
        result matches Err(error) ==> after.modes_error == Some(error),
        result is Ok ==> after.modes_error is None,
        after == (State { modes_error: after.modes_error, ..before }),
        writes.len() == 0 && !save,
{
}

/// To cancel an edit closes the editor and does nothing else; a new mode opens it
/// empty, where the modes could be read.
pub proof fn law_edits_are_cancelled_without_a_trace(
    before: State,
    event: Event,
    now: u64,
    after: State,
    writes: Seq<Write>,
    save: bool,
)
    requires
        follows(before, event, now, after, writes, save),
    ensures
        event is CancelEdit ==> after == (State { editor: None, ..before }) && writes.len() == 0
            && !save,
        event is NewMode && before.modes_readable ==> (after.editor matches Some(editor)
            && editor.target is None && editor.name@.len() == 0 && after == (State {
            editor: after.editor,
            ..before
        }) && writes.len() == 0 && !save),
        event is NewMode && !before.modes_readable ==> after == before && writes.len() == 0
            && !save,
        save ==> event is SaveMode || event is DeleteMode,
        save ==> after.saves == before.saves + 1 || before.saves == u64::MAX,
{
}

} // verus!
