//! What holds of the modules' names, of extensions and of the launcher.
use crate::config::{declares, Config};
use crate::extension::{
    after_line, next_line, read_of, shown, step_of, Action, Command, Frame, FrameView, Item, Line,
    Read, Row, Step,
};
use crate::modules::extension::{after, told_of, told_on, Event, State};
use crate::modules::extensions::{first_entry, is_synced, runs, state_of};
use crate::modules::id::{bit_of, builtin_named, declared, id_name, index_in, ModuleId};
use crate::modules::launcher::{
    bare_id, behind, binary_target, configured_probe, entry_for, entry_views, first_value, ids_of,
    places_of, searched, well_known_browsers, Entry, ProbeView, Target,
};
use crate::paths::{law_spelling_keeps_names, nameable, names, rooted, seen_from, spelled};
use crate::text::{joined, pieces, tail, texts, trimmed, trimmed_start};
use vstd::prelude::*;
use vstd::string::*;

verus! {

/// Every module goes by its own name.
pub proof fn law_modules_go_by_their_own_name(id: ModuleId, names: Seq<String>)
    ensures
        id == ModuleId::Time ==> id_name(id, names) == "time"@,
        id == ModuleId::Date ==> id_name(id, names) == "date"@,
        id == ModuleId::Workspaces ==> id_name(id, names) == "workspaces"@,
        id == ModuleId::Taskbar ==> id_name(id, names) == "taskbar"@,
        id == ModuleId::Cpu ==> id_name(id, names) == "cpu"@,
        id == ModuleId::Memory ==> id_name(id, names) == "memory"@,
        id == ModuleId::Gpu ==> id_name(id, names) == "gpu"@,
        id == ModuleId::Network ==> id_name(id, names) == "network"@,
        id == ModuleId::Bluetooth ==> id_name(id, names) == "bluetooth"@,
        id == ModuleId::Volume ==> id_name(id, names) == "volume"@,
        id == ModuleId::Mpris ==> id_name(id, names) == "mpris"@,
        id == ModuleId::Tray ==> id_name(id, names) == "tray"@,
        id == ModuleId::Notifications ==> id_name(id, names) == "notifications"@,
        id == ModuleId::Updates ==> id_name(id, names) == "updates"@,
        id == ModuleId::Battery ==> id_name(id, names) == "battery"@,
        id == ModuleId::Brightness ==> id_name(id, names) == "brightness"@,
        id == ModuleId::IdleInhibitor ==> id_name(id, names) == "idle_inhibitor"@,
        id == ModuleId::Launcher ==> id_name(id, names) == "launcher"@,
        id == ModuleId::Power ==> id_name(id, names) == "power"@,
        id matches ModuleId::Extension(index) ==> (index < names.len() ==> id_name(id, names)
            == "extension:"@ + names[index as int]@),
{
}

/// A name that is a module's is that of no other.
pub proof fn law_names_stand_for_one_module(name: Seq<char>)
    ensures
        builtin_named(name) matches Some(id) ==> !(id is Extension) && id_name(id, Seq::empty())
            == name,
{
}

/// Every module but an extension has a place of its own in the mask.
pub proof fn law_places_in_the_mask_are_apart(a: ModuleId, b: ModuleId)
    ensures
        bit_of(a) is None <==> a is Extension,
        bit_of(a) matches Some(bit) ==> bit < 64,
        bit_of(a) is Some && bit_of(a) == bit_of(b) ==> a == b,
{
}

/// A module is wanted where it is placed, in whichever region.
pub proof fn law_modules_are_wanted_where_they_are_placed(config: Config, module: ModuleId)
    ensures
        config.order().contains(module) <==> config.left@.contains(module)
            || config.center@.contains(module) || config.right@.contains(module),
        config.order().len() == config.left@.len() + config.center@.len() + config.right@.len(),
        forall|i: int|
            0 <= i < config.left@.len() ==> config.order()[i] == #[trigger] config.left@[i],
{
    let all = config.order();
    let (left, center, right) = (config.left@, config.center@, config.right@);
    if left.contains(module) {
        let i = choose|i: int| 0 <= i < left.len() && left[i] == module;
        assert(all[i] == module);
    }
    if center.contains(module) {
        let i = choose|i: int| 0 <= i < center.len() && center[i] == module;
        assert(all[left.len() + i] == module);
    }
    if right.contains(module) {
        let i = choose|i: int| 0 <= i < right.len() && right[i] == module;
        assert(all[left.len() + center.len() + i] == module);
    }
    if all.contains(module) {
        let i = choose|i: int| 0 <= i < all.len() && all[i] == module;
        if i < left.len() {
            assert(left[i] == module);
        } else if i < left.len() + center.len() {
            assert(center[i - left.len()] == module);
        } else {
            assert(right[i - left.len() - center.len()] == module);
        }
    }
}

/// A program is told what was pressed in its own popup, and whether that popup is
/// open, and nothing while it does not run.
pub proof fn law_programs_are_told_what_happened(state: State, event: Event, open: bool)
    ensures
        event is Started ==> told_on(state, event) == Some(Command::Popup { popup: state.open }),
        event matches Event::Press(action) ==> {
            &&& state.running ==> told_on(state, event) == Some(Command::Action { action })
            &&& !state.running ==> told_on(state, event) is None
        },
        event is Frame || event is Stopped ==> told_on(state, event) is None,
        told_of(state, open) matches Some(command) ==> command == (Command::Popup { popup: open })
            && state.running && state.open != open,
        state.running && state.open != open ==> told_of(state, open) is Some,
{
}

/// What a program sent last is shown, and it runs from when it was started until
/// it stops.
pub proof fn law_programs_show_their_last_frame(state: State, event: Event)
    ensures
        event matches Event::Frame(frame) ==> after(state, event).frame == Some(frame),
        !(event is Frame) ==> after(state, event).frame == state.frame,
        event is Started ==> after(state, event).running,
        event is Stopped ==> !after(state, event).running,
        event is Frame || event is Press ==> after(state, event).running == state.running,
        after(state, event).index == state.index,
        after(state, event).command == state.command,
        after(state, event).open == state.open,
{
}

/// Frames are the same only where all that is drawn of them is.
pub proof fn law_frames_differ_in_what_is_drawn(a: Frame, b: Frame)
    requires
        a@ == b@,
    ensures
        a.cell is Some <==> b.cell is Some,
        a.cell matches Some(c) ==> c.glyph@ == b.cell->0.glyph@ && c.text@ == b.cell->0.text@
            && c.color == b.cell->0.color,
        a.header is Some <==> b.header is Some,
        a.header matches Some(row) ==> same_drawn(row, b.header->0),
        a.popup@.len() == b.popup@.len(),
        forall|i: int|
            0 <= i < a.popup@.len() ==> item_drawn(#[trigger] a.popup@[i], b.popup@[i]),
{
    if a.header is Some {
        lemma_rows(a.header->0, b.header->0);
    }
    assert(a@.popup.len() == a.popup@.len() && b@.popup.len() == b.popup@.len());
    assert forall|i: int| 0 <= i < a.popup@.len() implies item_drawn(
        #[trigger] a.popup@[i],
        b.popup@[i],
    ) by {
        assert(a@.popup[i] == a.popup@[i]@ && b@.popup[i] == b.popup@[i]@);
        if a.popup@[i] is Row {
            lemma_rows(a.popup@[i]->Row_0, b.popup@[i]->Row_0);
        }
    }
}

/// Whether two lines are drawn the same.
pub open spec fn line_drawn(a: Line, b: Line) -> bool {
    a.text@ == b.text@ && a.color == b.color && a.small == b.small
}

/// Whether two rows are drawn the same, and their buttons do the same.
pub open spec fn same_drawn(a: Row, b: Row) -> bool {
    &&& a.lines@.len() == b.lines@.len()
    &&& forall|i: int|
        0 <= i < a.lines@.len() ==> line_drawn(#[trigger] a.lines@[i], b.lines@[i])
    &&& a.action is Some <==> b.action is Some
    &&& a.action matches Some(x) ==> x.id@ == b.action->0.id@ && x.label@ == b.action->0.label@
        && x.danger == b.action->0.danger && x.enabled == b.action->0.enabled
}

/// Whether two items are drawn the same.
pub open spec fn item_drawn(a: Item, b: Item) -> bool {
    match (a, b) {
        (Item::Text(x), Item::Text(y)) => line_drawn(x, y),
        (Item::Row(x), Item::Row(y)) => same_drawn(x, y),
        (Item::Divider, Item::Divider) => true,
        _ => false,
    }
}

proof fn lemma_rows(a: Row, b: Row)
    requires
        a@ == b@,
    ensures
        same_drawn(a, b),
{
    assert(a@.lines.len() == a.lines@.len() && b@.lines.len() == b.lines@.len());
    assert forall|i: int| 0 <= i < a.lines@.len() implies line_drawn(
        #[trigger] a.lines@[i],
        b.lines@[i],
    ) by {
        assert(a@.lines[i] == a.lines@[i]@ && b@.lines[i] == b.lines@[i]@);
    }
}

/// A frame is sent on where it was read whole and is not what is drawn already;
/// the end of the stream and a line without an end stop the run.
pub proof fn law_only_new_frames_are_sent(
    line: Seq<u8>,
    last: Option<FrameView>,
    parsed: Option<FrameView>,
)
    ensures
        step_of(line, last, parsed) == Step::Stop <==> line.len() == 0 || line.last() != 0x0a,
        step_of(line, last, parsed) == Step::Send ==> parsed is Some && parsed != last,
        line.len() > 0 && line.last() == 0x0a && parsed is Some && parsed != last && (exists|i: int|
            0 <= i < line.len() && (#[trigger] line[i]) > 0x20) ==> step_of(line, last, parsed)
            == Step::Send,
        line.len() > 0 && line.last() == 0x0a && parsed == last ==> step_of(line, last, parsed)
            == Step::Pass,
        line.len() > 0 && line.last() == 0x0a && parsed is None ==> step_of(line, last, parsed)
            == Step::Pass,
{
    if exists|i: int| 0 <= i < line.len() && (#[trigger] line[i]) > 0x20 {
        let i = choose|i: int| 0 <= i < line.len() && (#[trigger] line[i]) > 0x20;
        assert(!crate::extension::is_ascii_white(line[i]));
    }
}

/// A stream is cut into the line it starts with and what is behind it.
pub proof fn law_lines_and_what_is_behind_make_the_stream(bytes: Seq<u8>)
    ensures
        next_line(bytes).len() <= bytes.len(),
        next_line(bytes) + after_line(bytes) == bytes,
{
    lemma_end(bytes, crate::extension::MAX_FRAME_BYTES as nat);
    assert(next_line(bytes) + after_line(bytes) =~= bytes);
}

proof fn lemma_end(bytes: Seq<u8>, cap: nat)
    ensures
        crate::extension::line_end(bytes, cap) <= bytes.len(),
        crate::extension::line_end(bytes, cap) <= cap,
    decreases bytes.len(),
{
    if bytes.len() > 0 && cap > 0 && bytes[0] != 0x0a {
        lemma_end(bytes.skip(1), (cap - 1) as nat);
    }
}

/// A program runs for an extension that is placed and declared with a command,
/// with that command; what it showed is kept while it is.
pub proof fn law_extensions_run_their_own_command(
    config: Config,
    names: Seq<String>,
    index: u32,
    was: Option<State>,
    now: State,
)
    requires
        runs(config, names, index),
        is_synced(was, now, index, first_entry(config.extensions@, names, index)->0),
        was matches Some(before) ==> before.index == index,
    ensures
        now.index == index,
        exists|i: int|
            0 <= i < config.extensions@.len() && index_in(
                names,
                (#[trigger] config.extensions@[i]).name@,
            ) == Some(index as int) && texts(now.command@) == texts(config.extensions@[i].command@)
                && config.extensions@[i].command@.len() > 0,
        was matches Some(before) ==> now.frame == before.frame && now.running == before.running
            && now.open == before.open,
        was is None ==> now.frame is None && !now.running && !now.open,
{
    lemma_first_entry(config.extensions@, names, index);
    let entry = first_entry(config.extensions@, names, index)->0;
    let i = choose|i: int|
        0 <= i < config.extensions@.len() && (#[trigger] config.extensions@[i]) == entry && index_in(
            names,
            config.extensions@[i].name@,
        ) == Some(index as int);
    assert(index_in(names, config.extensions@[i].name@) == Some(index as int));
}

proof fn lemma_first_entry(
    entries: Seq<crate::config::Extension>,
    names: Seq<String>,
    index: u32,
)
    ensures
        first_entry(entries, names, index) matches Some(entry) ==> exists|i: int|
            0 <= i < entries.len() && (#[trigger] entries[i]) == entry && index_in(
                names,
                entries[i].name@,
            ) == Some(index as int),
        first_entry(entries, names, index) is None ==> forall|i: int|
            0 <= i < entries.len() ==> index_in(names, (#[trigger] entries[i]).name@) != Some(
                index as int,
            ),
    decreases entries.len(),
{
    if entries.len() > 0 {
        let before = entries.drop_last();
        lemma_first_entry(before, names, index);
        assert(entries[entries.len() - 1] == entries.last());
        if first_entry(before, names, index) is Some {
            let entry = first_entry(before, names, index)->0;
            let i = choose|i: int|
                0 <= i < before.len() && (#[trigger] before[i]) == entry && index_in(
                    names,
                    before[i].name@,
                ) == Some(index as int);
            assert(entries[i] == before[i]);
        } else if first_entry(entries, names, index) is None {
            assert forall|i: int| 0 <= i < entries.len() implies index_in(
                names,
                (#[trigger] entries[i]).name@,
            ) != Some(index as int) by {
                if i < before.len() {
                    assert(before[i] == entries[i]);
                }
            }
        }
    }
}

/// An extension that is declared twice runs as it was declared first.
pub proof fn law_the_first_declaration_counts(
    entries: Seq<crate::config::Extension>,
    more: crate::config::Extension,
    names: Seq<String>,
    index: u32,
)
    ensures
        first_entry(entries, names, index) is Some ==> first_entry(
            entries.push(more),
            names,
            index,
        ) == first_entry(entries, names, index),
        first_entry(entries, names, index) is None && index_in(names, more.name@) == Some(
            index as int,
        ) ==> first_entry(entries.push(more), names, index) == Some(more),
        (forall|i: int|
            0 <= i < entries.len() ==> index_in(names, (#[trigger] entries[i]).name@) != Some(
                index as int,
            )) ==> first_entry(entries, names, index) is None,
{
    lemma_first_entry(entries, names, index);
    assert(entries.push(more).drop_last() =~= entries);
}

/// The state of an extension is the one of its own index.
pub proof fn law_states_are_found_by_their_index(states: Seq<State>, index: u32)
    ensures
        state_of(states, index) matches Some(state) ==> state.index == index && states.contains(
            state,
        ),
        state_of(states, index) is None <==> forall|i: int|
            0 <= i < states.len() ==> (#[trigger] states[i]).index != index,
    decreases states.len(),
{
    if states.len() > 0 {
        let rest = states.skip(1);
        law_states_are_found_by_their_index(rest, index);
        assert forall|i: int| 0 < i < states.len() implies (#[trigger] states[i]) == rest[i - 1] by {}
        if states[0].index == index {
            assert(states.contains(states[0]));
        } else if state_of(rest, index) is Some {
            let k = choose|k: int| 0 <= k < rest.len() && rest[k] == state_of(rest, index)->0;
            assert(states[k + 1] == rest[k]);
        }
    }
}

/// A desktop entry goes by its id with or without its ending, and a browser that
/// is set is looked for as what it is.
pub proof fn law_desktop_ids_go_without_their_ending(id: Seq<char>)
    requires
        id.len() > 0,
    ensures
        bare_id(id + ".desktop"@) == id,
        configured_probe(id + ".desktop"@) == seq![ProbeView::Desktop(id)],
        configured_probe(Seq::empty()).len() == 0,
{
    let full = id + ".desktop"@;
    reveal_strlit(".desktop");
    assert(".desktop"@.len() == 8);
    assert(full.skip(id.len() as int) =~= ".desktop"@);
    assert(full.take(id.len() as int) =~= id);
    assert(full.subrange(full.len() - 8, full.len() as int) =~= ".desktop"@);
    assert(full.subrange(0, full.len() - 8) =~= id);
    assert(".desktop"@.is_suffix_of(full));
}

/// A program is run by its own name, and hinted by the last part of it.
pub proof fn law_programs_run_by_their_name(program: Seq<char>, target: Target)
    requires
        target@ == binary_target(program),
    ensures
        texts(target.argv@) == seq![program],
        target.hint@ == tail(program, '/'),
{
}

/// An entry of the launcher starts its own target, under its own label.
pub proof fn law_entries_start_their_own_target(
    entry: Entry,
    glyph: Seq<char>,
    label: Seq<char>,
    target: Option<Target>,
)
    requires
        entry_views(seq![entry]) == entry_for(glyph, label, target),
    ensures
        target is Some,
        entry.label@ == label,
        entry.glyph@ == glyph,
        entry.target.hint@ == target->0.hint@,
        texts(entry.target.argv@) == texts(target->0.argv@),
{
    assert(entry_views(seq![entry])[0] == entry@);
    assert(entry_views(seq![entry]).len() == 1);
}

/// A program with a slash in its name is looked for there, any other in every
/// directory of the path, in their order.
pub proof fn law_programs_are_looked_for_along_the_path(program: Seq<char>, path: Seq<char>)
    ensures
        program.contains('/') ==> places_of(program, Some(path)) == seq![program],
        !program.contains('/') ==> {
            &&& places_of(program, Some(path)).len() == pieces(path, ':').len()
            &&& forall|i: int|
                0 <= i < pieces(path, ':').len() ==> #[trigger] places_of(program, Some(path))[i]
                    == seen_from(pieces(path, ':')[i], program)
            &&& places_of(program, None).len() == 0
        },
{
}

/// The own directory is looked in first, the one that is set before the one under
/// home; an empty setting counts as none.
pub proof fn law_the_own_directory_is_looked_in_first(
    own: Seq<char>,
    home: Seq<char>,
    under: Seq<char>,
    dirs: Seq<char>,
    usual: Seq<char>,
)
    ensures
        own.len() > 0 ==> searched(Some(own), Some(home), under, Some(dirs), usual)[0] == own,
        own.len() == 0 ==> searched(Some(own), Some(home), under, Some(dirs), usual)[0]
            == seen_from(home, under),
        searched(None, Some(home), under, Some(dirs), usual)[0] == seen_from(home, under),
        dirs.len() > 0 ==> searched(None, None, under, Some(dirs), usual) == pieces(dirs, ':'),
        dirs.len() == 0 ==> searched(None, None, under, Some(dirs), usual) == pieces(usual, ':'),
        searched(None, None, under, None, usual) == pieces(usual, ':'),
{
    assert(searched(None, None, under, None, usual) =~= pieces(usual, ':'));
    assert(searched(None, None, under, Some(dirs), usual) =~= pieces(
        if dirs.len() == 0 {
            usual
        } else {
            dirs
        },
        ':',
    ));
}

/// Listed ids are the parts that hold anything, in their order.
pub proof fn law_listed_ids_hold_something(parts: Seq<Seq<char>>)
    ensures
        forall|i: int|
            0 <= i < ids_of(parts).len() ==> (#[trigger] ids_of(parts)[i]).len() > 0 && exists|
                k: int,
            |
                0 <= k < parts.len() && trimmed(#[trigger] parts[k]) == ids_of(parts)[i],
        forall|k: int|
            0 <= k < parts.len() && trimmed(#[trigger] parts[k]).len() > 0 ==> ids_of(
                parts,
            ).contains(trimmed(parts[k])),
    decreases parts.len(),
{
    if parts.len() > 0 {
        let before = parts.drop_last();
        law_listed_ids_hold_something(before);
        let some = ids_of(before);
        let all = ids_of(parts);
        assert(parts[parts.len() - 1] == parts.last());
        assert forall|i: int| 0 <= i < all.len() implies (#[trigger] all[i]).len() > 0 && exists|
            k: int,
        |
            0 <= k < parts.len() && trimmed(#[trigger] parts[k]) == all[i] by {
            if i < some.len() {
                assert(all[i] == some[i]);
                let k = choose|k: int| 0 <= k < before.len() && trimmed(#[trigger] before[k]) == some[i];
                assert(parts[k] == before[k]);
            }
        }
        assert forall|k: int|
            0 <= k < parts.len() && trimmed(#[trigger] parts[k]).len() > 0 implies all.contains(
            trimmed(parts[k]),
        ) by {
            if k < before.len() {
                assert(before[k] == parts[k]);
                let i = choose|i: int| 0 <= i < some.len() && some[i] == trimmed(before[k]);
                assert(all[i] == some[i]);
            } else {
                assert(all[all.len() - 1] == trimmed(parts[k]));
            }
        }
    }
}

/// A path seen from a directory has the directory's names before its own; one
/// from the root stands by itself.
pub proof fn law_paths_go_on_from_their_directory(
    a: Seq<Seq<char>>,
    b: Seq<Seq<char>>,
    root: bool,
)
    requires
        nameable(a, root),
        nameable(b, true),
        a.len() > 0,
        b.len() > 0,
    ensures
        names(seen_from(spelled(a, root), joined(b, "/"@))) == a + b,
        seen_from(spelled(a, root), spelled(b, true)) == spelled(b, true),
{
    reveal_strlit("/");
    let (base, path) = (spelled(a, root), joined(b, "/"@));
    let all = a + b;
    assert forall|i: int| 0 <= i < all.len() implies {
        &&& (#[trigger] all[i]).len() > 0
        &&& !all[i].contains('/')
        &&& all[i] == "."@ ==> !root && i == 0
    } by {
        if i < a.len() {
            assert(all[i] == a[i]);
        } else {
            assert(all[i] == b[i - a.len()]);
        }
    }
    assert(nameable(b, false)) by {
        assert forall|i: int| 0 <= i < b.len() implies {
            &&& (#[trigger] b[i]).len() > 0
            &&& !b[i].contains('/')
            &&& b[i] == "."@ ==> !false && i == 0
        } by {}
    }
    law_spelling_keeps_names(all, root);
    law_spelling_keeps_names(b, false);
    law_spelling_keeps_names(b, true);
    lemma_joined_ends(a);
    lemma_joined_adds(a, b);
    assert(spelled(b, false) =~= path);
    assert(!rooted(path));
    assert(base.len() > 0 && base.last() != '/') by {
        let j = joined(a, "/"@);
        assert(base.last() == j.last());
    }
    assert(base.push('/') + path =~= spelled(all, root));
}

proof fn lemma_joined_ends(a: Seq<Seq<char>>)
    requires
        a.len() > 0,
        forall|i: int| 0 <= i < a.len() ==> (#[trigger] a[i]).len() > 0 && !a[i].contains('/'),
    ensures
        joined(a, "/"@).len() > 0,
        joined(a, "/"@).last() != '/',
    decreases a.len(),
{
    assert(a[a.len() - 1] == a.last());
    let last = a.last();
    assert(last.contains(last.last()));
    if a.len() > 1 {
        let before = a.drop_last();
        assert(joined(a, "/"@).last() == last.last());
    }
}

proof fn lemma_joined_adds(a: Seq<Seq<char>>, b: Seq<Seq<char>>)
    requires
        a.len() > 0,
        b.len() > 0,
    ensures
        joined(a + b, "/"@) == joined(a, "/"@) + "/"@ + joined(b, "/"@),
    decreases b.len(),
{
    let all = a + b;
    assert(all.last() == b.last());
    assert(all.drop_last() =~= a + b.drop_last());
    if b.len() > 1 {
        lemma_joined_adds(a, b.drop_last());
        assert(joined(all, "/"@) =~= joined(a, "/"@) + "/"@ + joined(b, "/"@));
    } else {
        assert(a + b.drop_last() =~= a);
        assert(joined(all, "/"@) =~= joined(a, "/"@) + "/"@ + joined(b, "/"@));
    }
}

/// A line of nothing but white space draws nothing, whatever it could be read as.
pub proof fn law_blank_lines_draw_nothing(
    line: Seq<u8>,
    last: Option<FrameView>,
    parsed: Option<FrameView>,
)
    requires
        line.len() > 0,
        line.last() == 0x0a,
        forall|i: int|
            0 <= i < line.len() ==> (#[trigger] line[i] == 0x20 || line[i] == 0x09 || line[i]
                == 0x0a || line[i] == 0x0c || line[i] == 0x0d),
    ensures
        read_of(line) == Read::Blank,
        step_of(line, last, parsed) == Step::Pass,
{
    assert forall|i: int| 0 <= i < line.len() implies crate::extension::is_ascii_white(
        #[trigger] line[i],
    ) by {}
}

/// The browsers that are tried, the most usual first.
pub proof fn law_usual_browsers_are_tried_first()
    ensures
        well_known_browsers().len() == 6,
        well_known_browsers()[0] == ProbeView::Binary("firefox"@),
        well_known_browsers()[1] == ProbeView::Binary("chromium"@),
        well_known_browsers()[2] == ProbeView::Binary("google-chrome-stable"@),
        well_known_browsers()[3] == ProbeView::Binary("brave"@),
        well_known_browsers()[4] == ProbeView::Binary("epiphany"@),
        well_known_browsers()[5] == ProbeView::Binary("qutebrowser"@),
{
}

/// An extension has a popup where its last frame has anything to put in it.
pub proof fn law_extensions_pop_up_what_they_sent(state: State)
    ensures
        state.frame is None ==> !state.pops_up(),
        state.frame matches Some(frame) ==> (state.pops_up() <==> frame.header is Some
            || frame.popup@.len() > 0),
{
}

/// The value of a key stands under its heading, before the next one.
pub proof fn law_values_stand_under_their_heading(
    heading: Seq<char>,
    key: Seq<char>,
    value: Seq<char>,
    lines: Seq<Seq<char>>,
)
    requires
        lines.len() >= 2,
        trimmed(lines[0]) == heading,
        lines[1] == key + "="@ + value,
        !crate::modules::launcher::is_heading(lines[1]),
    ensures
        first_value(behind(lines, heading), key) == Some(value),
{
    crate::modules::launcher::law_keys_are_exact(lines[1], key, value);
    let rest = behind(lines, heading);
    assert(rest == lines.skip(1));
    assert(rest[0] == lines[1]);
}

/// A value is not found behind the next heading.
pub proof fn law_values_end_at_the_next_heading(lines: Seq<Seq<char>>, key: Seq<char>)
    requires
        lines.len() > 0,
        trimmed_start(lines[0]).len() > 0,
        trimmed_start(lines[0])[0] == '[',
    ensures
        first_value(lines, key) is None,
{
}

/// An extension is declared by the entry of its own name.
pub proof fn law_extensions_are_declared_by_their_name(
    entry: crate::config::Extension,
    names: Seq<String>,
    index: u32,
)
    requires
        index < names.len(),
        forall|i: int, j: int|
            #![trigger names[i], names[j]]
            0 <= i < j < names.len() ==> names[i]@ != names[j]@,
    ensures
        declares(entry, ModuleId::Extension(index), names) <==> entry.name@ == names[index as int]@,
        !declares(entry, ModuleId::Time, names),
{
    lemma_index(names, entry.name@);
    if entry.name@ == names[index as int]@ {
        assert(index_in(names, entry.name@) is Some);
    }
}

proof fn lemma_index(names: Seq<String>, name: Seq<char>)
    ensures
        index_in(names, name) matches Some(i) ==> 0 <= i < names.len() && names[i]@ == name,
        index_in(names, name) is None ==> forall|i: int|
            0 <= i < names.len() ==> (#[trigger] names[i])@ != name,
    decreases names.len(),
{
    if names.len() > 0 {
        let rest = names.skip(1);
        lemma_index(rest, name);
        assert forall|i: int| 0 < i < names.len() implies (#[trigger] names[i]) == rest[i - 1] by {}
    }
}

} // verus!
