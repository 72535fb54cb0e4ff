//! What holds of the bar: its surfaces, its popup and its cells.
use crate::bar::{
    cell_plan, closing, created, grouped, named_output, on_surface, popup_without, put_up, right_of,
    taken_down, toggled, verb_of, wanted, CellPlan, Effect, Island, Popup, RightClick, Surface,
    Verb,
};
use crate::modules::id::ModuleId;
use crate::text::opt_text;
use vstd::prelude::*;

verus! {

/// A press on a cell opens the popup of its own module on its own bar, or closes
/// it where that one is open; there is never more than one.
pub proof fn law_a_press_opens_its_own_popup(
    popup: Option<Popup>,
    parent: u64,
    module: ModuleId,
    has_popup: bool,
    id: u64,
)
    ensures
        toggled(popup, parent, module, has_popup, id) matches Some(open) ==> open.id == id
            && open.parent == parent && open.module == module && has_popup,
        !has_popup ==> toggled(popup, parent, module, has_popup, id) is None,
        popup is None && has_popup ==> toggled(popup, parent, module, has_popup, id) is Some,
        popup matches Some(open) ==> (has_popup ==> (toggled(
            popup,
            parent,
            module,
            has_popup,
            id,
        ) is None <==> open.module == module && open.parent == parent)),
        popup is None ==> closing(popup).len() == 0,
        popup matches Some(open) ==> closing(popup).len() == 1 && closing(popup)[0]
            == Effect::ClosePopup(open.id),
{
}

/// A bar stands on an output that was asked for by name, or on every output where
/// none was.
pub proof fn law_bars_stand_where_they_were_asked_for(
    outputs: Seq<Seq<char>>,
    name: Option<Seq<char>>,
)
    ensures
        outputs.len() == 0 ==> wanted(outputs, name),
        outputs.len() > 0 && name is None ==> !wanted(outputs, name),
        outputs.len() > 0 ==> (name matches Some(n) ==> (wanted(outputs, name) <==> exists|i: int|
            0 <= i < outputs.len() && #[trigger] outputs[i] == n)),
{
    if name is Some && exists|i: int| 0 <= i < outputs.len() && #[trigger] outputs[i] == name->0 {
        assert(outputs.contains(name->0));
    }
}

/// To rebuild takes every bar down and, with the bar that it hangs on, the popup;
/// another popup stays.
pub proof fn law_rebuilding_takes_every_bar_down(popup: Option<Popup>, bars: Seq<Surface>)
    ensures
        forall|i: int|
            0 <= i < bars.len() ==> taken_down(popup, bars, bars.len() as int).contains(
                Effect::DestroyBar((#[trigger] bars[i]).surface),
            ),
        popup is None ==> popup_without(popup, bars, bars.len() as int) is None,
        popup matches Some(open) ==> {
            let hangs = exists|i: int| 0 <= i < bars.len() && (#[trigger] bars[i]).surface == open.parent;
            &&& hangs ==> popup_without(popup, bars, bars.len() as int) is None && taken_down(
                popup,
                bars,
                bars.len() as int,
            ).contains(Effect::ClosePopup(open.id))
            &&& !hangs ==> popup_without(popup, bars, bars.len() as int) == popup
        },
        forall|k: int|
            0 <= k < taken_down(popup, bars, bars.len() as int).len() ==> is_taken(
                popup,
                bars,
                #[trigger] taken_down(popup, bars, bars.len() as int)[k],
            ),
{
    lemma_taken(popup, bars, bars.len() as int);
}

/// Whether an effect takes a bar down, or closes the popup.
pub open spec fn is_taken(popup: Option<Popup>, bars: Seq<Surface>, effect: Effect) -> bool {
    match effect {
        Effect::DestroyBar(surface) => exists|i: int|
            0 <= i < bars.len() && (#[trigger] bars[i]).surface == surface,
        Effect::ClosePopup(id) => popup matches Some(open) && open.id == id,
        _ => false,
    }
}

proof fn lemma_taken(popup: Option<Popup>, bars: Seq<Surface>, n: int)
    requires
        0 <= n <= bars.len(),
    ensures
        forall|i: int|
            0 <= i < n ==> taken_down(popup, bars, n).contains(
                Effect::DestroyBar((#[trigger] bars[i]).surface),
            ),
        popup is None ==> popup_without(popup, bars, n) is None,
        popup matches Some(open) ==> {
            let hangs = exists|i: int| 0 <= i < n && (#[trigger] bars[i]).surface == open.parent;
            &&& hangs ==> popup_without(popup, bars, n) is None && taken_down(
                popup,
                bars,
                n,
            ).contains(Effect::ClosePopup(open.id))
            &&& !hangs ==> popup_without(popup, bars, n) == popup
        },
        forall|k: int|
            0 <= k < taken_down(popup, bars, n).len() ==> is_taken(
                popup,
                bars,
                #[trigger] taken_down(popup, bars, n)[k],
            ),
    decreases n,
{
    if n > 0 {
        lemma_taken(popup, bars, n - 1);
        let before = taken_down(popup, bars, n - 1);
        let all = taken_down(popup, bars, n);
        let left = popup_without(popup, bars, n - 1);
        let surface = bars[n - 1].surface;
        assert forall|e: Effect| before.contains(e) implies all.contains(e) by {
            let k = choose|k: int| 0 <= k < before.len() && before[k] == e;
            assert(all[k] == e);
        }
        assert(all[before.len() as int] == Effect::DestroyBar(surface));
        if on_surface(left, surface) {
            assert(all[before.len() as int + 1] == Effect::ClosePopup(left->0.id));
        }
        assert forall|i: int| 0 <= i < n implies all.contains(
            Effect::DestroyBar((#[trigger] bars[i]).surface),
        ) by {
            if i < n - 1 {
                assert(before.contains(Effect::DestroyBar(bars[i].surface)));
            }
        }
        assert forall|k: int| 0 <= k < all.len() implies is_taken(
            popup,
            bars,
            #[trigger] all[k],
        ) by {
            if k < before.len() {
                assert(all[k] == before[k]);
            } else if k == before.len() {
                assert(bars[n - 1].surface == surface);
            } else {
                assert(all[k] == Effect::ClosePopup(left->0.id));
            }
        }
    }
}

/// To rebuild puts a bar up on every output that is wanted, under the output's
/// own name and each on a surface of its own, numbered from the next one on.
pub proof fn law_rebuilding_puts_the_wanted_bars_up(
    bars: Seq<Surface>,
    outputs: Seq<Seq<char>>,
    next: u64,
)
    requires
        next + bars.len() <= u64::MAX,
    ensures
        ({
            let up = put_up(bars, outputs, next as int, bars.len() as int);
            &&& up.len() <= bars.len()
            &&& created(up).len() == up.len()
            &&& forall|k: int|
                0 <= k < up.len() ==> (#[trigger] up[k]).surface == next + k && created(up)[k] == (
                Effect::CreateBar { surface: up[k].surface, output: up[k].output }) && stood(
                    bars,
                    outputs,
                    up[k],
                )
            &&& forall|i: int|
                0 <= i < bars.len() && wanted(outputs, opt_text((#[trigger] bars[i]).name))
                    ==> stands(up, bars[i])
        }),
{
    lemma_up(bars, outputs, next, bars.len() as int);
}

/// Whether a bar stood on the same output, one that is wanted.
pub open spec fn stood(bars: Seq<Surface>, outputs: Seq<Seq<char>>, bar: Surface) -> bool {
    exists|i: int|
        0 <= i < bars.len() && (#[trigger] bars[i]).output == bar.output && bars[i].name == bar.name
            && wanted(outputs, opt_text(bars[i].name))
}

/// Whether a bar stands on the same output.
pub open spec fn stands(up: Seq<Surface>, bar: Surface) -> bool {
    exists|k: int|
        0 <= k < up.len() && (#[trigger] up[k]).output == bar.output && up[k].name == bar.name
}

proof fn lemma_up(bars: Seq<Surface>, outputs: Seq<Seq<char>>, next: u64, n: int)
    requires
        0 <= n <= bars.len(),
        next + bars.len() <= u64::MAX,
    ensures
        put_up(bars, outputs, next as int, n).len() <= n,
        forall|k: int|
            0 <= k < put_up(bars, outputs, next as int, n).len() ==> (#[trigger] put_up(
                bars,
                outputs,
                next as int,
                n,
            )[k]).surface == next + k && stood(
                bars,
                outputs,
                put_up(bars, outputs, next as int, n)[k],
            ),
        forall|i: int|
            0 <= i < n && wanted(outputs, opt_text((#[trigger] bars[i]).name)) ==> stands(
                put_up(bars, outputs, next as int, n),
                bars[i],
            ),
    decreases n,
{
    if n > 0 {
        lemma_up(bars, outputs, next, n - 1);
        let before = put_up(bars, outputs, next as int, n - 1);
        let all = put_up(bars, outputs, next as int, n);
        assert forall|k: int| 0 <= k < all.len() implies (#[trigger] all[k]).surface == next + k
            && stood(bars, outputs, all[k]) by {
            if k < before.len() {
                assert(all[k] == before[k]);
            } else {
                assert(bars[n - 1].output == all[k].output);
            }
        }
        assert forall|i: int|
            0 <= i < n && wanted(outputs, opt_text((#[trigger] bars[i]).name)) implies stands(
            all,
            bars[i],
        ) by {
            if i < n - 1 {
                assert(stands(before, bars[i]));
                let k = choose|k: int|
                    0 <= k < before.len() && (#[trigger] before[k]).output == bars[i].output
                        && before[k].name == bars[i].name;
                assert(all[k] == before[k]);
            } else {
                assert(all[all.len() - 1].output == bars[i].output);
            }
        }
    }
}

/// A surface is on the output of the bar that it is of.
pub proof fn law_surfaces_are_on_their_own_output(bars: Seq<Surface>, surface: u64)
    ensures
        named_output(bars, None) is None,
        named_output(bars, Some(surface)) matches Some(name) ==> exists|i: int|
            0 <= i < bars.len() && (#[trigger] bars[i]).surface == surface && opt_text(bars[i].name)
                == Some(name),
        (forall|i: int| 0 <= i < bars.len() ==> (#[trigger] bars[i]).surface != surface)
            ==> named_output(bars, Some(surface)) is None,
        bars.len() > 0 && bars[0].surface == surface ==> named_output(bars, Some(surface))
            == opt_text(bars[0].name),
    decreases bars.len(),
{
    if bars.len() > 0 && bars[0].surface != surface {
        let rest = bars.skip(1);
        law_surfaces_are_on_their_own_output(rest, surface);
        if named_output(rest, Some(surface)) is Some {
            let name = named_output(rest, Some(surface))->0;
            let i = choose|i: int|
                0 <= i < rest.len() && (#[trigger] rest[i]).surface == surface && opt_text(
                    rest[i].name,
                ) == Some(name);
            assert(bars[i + 1] == rest[i]);
        }
        if forall|i: int| 0 <= i < bars.len() ==> (#[trigger] bars[i]).surface != surface {
            assert forall|i: int| 0 <= i < rest.len() implies (#[trigger] rest[i]).surface
                != surface by {
                assert(rest[i] == bars[i + 1]);
            }
        }
    } else if bars.len() > 0 {
        assert(bars[0].surface == surface);
    }
}

/// One more cell opens an island of its own, stands flat by itself, or joins the
/// island to its left; the groups before it stay.
pub proof fn law_one_more_cell(cells: Seq<(ModuleId, Island)>, id: ModuleId)
    ensures
        ({
            let before = grouped(cells);
            let start = grouped(cells.push((id, Island::Start)));
            let flat = grouped(cells.push((id, Island::Flat)));
            let join = grouped(cells.push((id, Island::Join)));
            &&& start.len() == before.len() + 1 && start.drop_last() == before
            &&& start.last().island == Island::Start && start.last().members == seq![id]
            &&& flat.len() == before.len() + 1 && flat.drop_last() == before
            &&& flat.last().island == Island::Flat && flat.last().members == seq![id]
            &&& before.len() > 0 && before.last().island == Island::Start ==> {
                &&& join.len() == before.len()
                &&& join.drop_last() == before.drop_last()
                &&& join.last().island == Island::Start
                &&& join.last().members == before.last().members.push(id)
            }
            &&& before.len() == 0 || before.last().island != Island::Start ==> join == start
        }),
{
    assert(cells.push((id, Island::Start)).drop_last() =~= cells);
    assert(cells.push((id, Island::Flat)).drop_last() =~= cells);
    assert(cells.push((id, Island::Join)).drop_last() =~= cells);
    let before = grouped(cells);
    if before.len() > 0 {
        assert(grouped(cells.push((id, Island::Join))).drop_last() =~= before.drop_last()
            || before.last().island != Island::Start);
    }
}

/// A right click does what its own module does by it, and otherwise opens or
/// closes the popup where there is one.
pub proof fn law_right_clicks_reach_their_own_module(id: ModuleId, clickable: bool, modes: bool)
    ensures
        right_of(id, clickable, modes) == RightClick::Do(Verb::PlayPause) <==> id
            == ModuleId::Mpris,
        right_of(id, clickable, modes) == RightClick::Do(Verb::MuteDefault) <==> id
            == ModuleId::Volume,
        right_of(id, clickable, modes) == RightClick::Do(Verb::ToggleWireless) <==> id
            == ModuleId::Network,
        right_of(id, clickable, modes) == RightClick::Do(Verb::TogglePowered) <==> id
            == ModuleId::Bluetooth,
        right_of(id, clickable, modes) == RightClick::Do(Verb::DismissAll) <==> id
            == ModuleId::Notifications,
        right_of(id, clickable, modes) == RightClick::Do(Verb::CheckNow) <==> id
            == ModuleId::Updates,
        right_of(id, clickable, modes) == RightClick::Do(Verb::ToggleInhibitor) <==> id
            == ModuleId::IdleInhibitor,
        right_of(id, clickable, modes) == RightClick::Do(Verb::CycleMode) <==> id
            == ModuleId::Brightness && modes,
        right_of(id, clickable, modes) == RightClick::Toggle ==> clickable,
        right_of(id, clickable, modes) == RightClick::Nothing ==> !clickable,
        verb_of(id) is None <==> !(id == ModuleId::Mpris || id == ModuleId::Volume || id
            == ModuleId::Network || id == ModuleId::Bluetooth || id == ModuleId::Notifications || id
            == ModuleId::Updates || id == ModuleId::IdleInhibitor),
{
}

/// The cells of an island stand in their order: each is clickable as itself, the
/// first and the last are rounded, and a gap sets off all but the last.
pub proof fn law_cells_stand_in_their_place(
    members: Seq<(ModuleId, bool)>,
    modes: bool,
    i: int,
    plan: CellPlan,
)
    requires
        0 <= i < members.len(),
        plan == cell_plan(members, modes, i),
    ensures
        plan.id == members[i].0,
        plan.clickable == members[i].1,
        plan.corners.left <==> i == 0,
        plan.corners.right <==> i == members.len() - 1,
        plan.gap <==> i < members.len() - 1,
        plan.right == right_of(members[i].0, members[i].1, modes),
{
}

} // verus!
