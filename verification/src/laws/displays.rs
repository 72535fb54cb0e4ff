//! What holds of displays: their levels, and how they are found.
use crate::modules::brightness::display::{
    after_write, asked, begins, capped, glyph_of, heading_of, key_of, raw_at, Display, Found, Sink,
    SinkView, Target,
};
use crate::modules::brightness::level::{lemma_raw, percent_of, raw_of};
use crate::modules::brightness::modes::{
    contents, level_in, level_text, pairs, summary_of, Mode,
};
use crate::modules::brightness::popup::{modes_rows, ModesRow};
use crate::modules::brightness::probe::{
    connector_of, flushed, model_of, u32_of, vcp_line, vcp_of, with_line, Listing,
};
use crate::modules::brightness::state::{
    draft_of, in_effect_at, is_active, level_shown, mode_in_effect, shown_percent, speaks_for,
    total, State,
};
use crate::number::{decimal, whole};
use crate::text::{
    folded, opt_text, pieces, tail, text_words, trimmed, trimmed_start, unprefixed,
};
use vstd::prelude::*;
use vstd::string::*;

verus! {

/// A level is the share of the maximum that it is, to the nearest unit; all of it
/// at a hundred, nothing at nought.
pub proof fn law_levels_are_shares_of_the_maximum(percent: nat, max: nat)
    requires
        percent <= 100,
        max <= u32::MAX,
    ensures
        -50 <= 100 * raw_of(percent, max) - percent * max <= 50,
        percent == 0 ==> raw_of(percent, max) == 0,
        percent == 100 ==> raw_of(percent, max) == max,
        raw_of(percent, max) <= max,
        percent_of(max, max) == if max == 0 {
            0nat
        } else {
            100
        },
{
    lemma_raw(percent, max);
    if percent == 0 {
        assert(percent * max == 0) by (nonlinear_arith)
            requires
                percent == 0,
        ;
    }
    if percent == 100 {
        assert(percent * max == 100 * max) by (nonlinear_arith)
            requires
                percent == 100,
        ;
    }
}

/// A panel is never set to nothing, and a monitor to what was asked.
pub proof fn law_panels_stay_lit(name: Seq<char>, bus: u32, max: u32, percent: u32)
    requires
        percent <= 100,
    ensures
        raw_at(SinkView::Backlight { name, max }, 0) == raw_of(1, max as nat),
        percent >= 1 ==> raw_at(SinkView::Backlight { name, max }, percent) == raw_of(
            percent as nat,
            max as nat,
        ),
        raw_at(SinkView::Ddc { bus, max }, percent) == raw_of(percent as nat, max as nat),
{
}

/// A level that is asked for is shown, at most a hundred; it is written at once
/// where nothing is being written, and otherwise kept for after that.
pub proof fn law_levels_asked_for_are_shown(d: Display, percent: u32)
    ensures
        asked(d, percent).found.percent == if percent > 100 {
            100u32
        } else {
            percent
        },
        asked(d, percent).found.label == d.found.label,
        asked(d, percent).found.sink == d.found.sink,
        asked(d, percent).found.connector == d.found.connector,
        begins(d, percent) ==> !d.writing && asked(d, percent).writing,
        d.writing && capped(percent) != d.found.percent ==> asked(d, percent).pending == Some(
            capped(percent),
        ) && !begins(d, percent),
        !d.writing && capped(percent) != d.found.percent ==> begins(d, percent),
        capped(percent) == d.found.percent && d.pending is None ==> asked(d, percent) == d && !begins(
            d,
            percent,
        ),
{
}

/// The end of a write starts the next one where another level was asked for
/// meanwhile, and otherwise leaves the display idle.
pub proof fn law_the_next_level_follows_a_write(d: Display, percent: u32)
    ensures
        ({
            let (after, next) = after_write(d, percent);
            &&& after.found == d.found
            &&& after.pending is None
            &&& next is Some <==> d.pending is Some && d.pending->0 != percent
            &&& next is Some ==> next == d.pending
            &&& after.writing <==> next is Some
        }),
{
}

/// A display goes by its connector where that is known, else by its label, and is
/// headed by both.
pub proof fn law_displays_go_by_their_connector(found: Found)
    ensures
        found.connector matches Some(connector) ==> key_of(found) == connector@ && heading_of(found)
            == connector@ + " · "@ + found.label@,
        found.connector is None ==> key_of(found) == found.label@ && heading_of(found)
            == found.label@,
{
}

/// The glyph fills up with the level.
pub proof fn law_glyphs_fill_up_with_the_level(percent: u32)
    ensures
        glyph_of(percent) == "\u{f00dc}"@ <==> percent < 25,
        glyph_of(percent) == "\u{f00dd}"@ <==> 25 <= percent < 50,
        glyph_of(percent) == "\u{f00de}"@ <==> 50 <= percent < 75,
        glyph_of(percent) == "\u{f00e0}"@ <==> percent >= 75,
{
    reveal_strlit("\u{f00dc}");
    reveal_strlit("\u{f00dd}");
    reveal_strlit("\u{f00de}");
    reveal_strlit("\u{f00e0}");
    assert("\u{f00dc}"@[0] == '\u{f00dc}' && "\u{f00dd}"@[0] == '\u{f00dd}' && "\u{f00de}"@[0]
        == '\u{f00de}' && "\u{f00e0}"@[0] == '\u{f00e0}');
}

/// A level is found under its own key.
pub proof fn law_levels_are_found_under_their_key(entries: Seq<(Seq<char>, u32)>, i: int)
    requires
        0 <= i < entries.len(),
        forall|k: int| 0 <= k < i ==> (#[trigger] entries[k]).0 != entries[i].0,
    ensures
        level_in(entries, entries[i].0) == Some(entries[i].1),
    decreases entries.len(),
{
    if i > 0 {
        let rest = entries.skip(1);
        assert(entries[0].0 != entries[i].0);
        assert(rest[i - 1] == entries[i]);
        assert forall|k: int| 0 <= k < i - 1 implies (#[trigger] rest[k]).0 != rest[i - 1].0 by {
            assert(rest[k] == entries[k + 1]);
        }
        law_levels_are_found_under_their_key(rest, i - 1);
    }
}

/// A summary says each level with its key.
pub proof fn law_summaries_say_key_and_level(key: Seq<char>, level: u32)
    ensures
        summary_of(seq![(key, level)]) == key + " "@ + decimal(level as nat) + "%"@,
        summary_of(Seq::empty()).len() == 0,
{
    let one = seq![(key, level)];
    assert(one.map_values(|e: (Seq<char>, u32)| level_text(e)) =~= seq![level_text((key, level))]);
}

/// Modes are the same where their names and all of their levels are.
pub proof fn law_modes_differ_in_name_or_level(a: Seq<Mode>, b: Seq<Mode>)
    requires
        contents(a) == contents(b),
    ensures
        a.len() == b.len(),
        forall|i: int|
            0 <= i < a.len() ==> (#[trigger] a[i]).name@ == b[i].name@ && a[i].levels.pairs()
                == b[i].levels.pairs() && a[i].levels.entries@.len() == b[i].levels.entries@.len(),
{
    assert(contents(a).len() == a.len() && contents(b).len() == b.len());
    assert forall|i: int| 0 <= i < a.len() implies (#[trigger] a[i]).name@ == b[i].name@
        && a[i].levels.pairs() == b[i].levels.pairs() && a[i].levels.entries@.len()
        == b[i].levels.entries@.len() by {
        assert(contents(a)[i] == (a[i].name@, a[i].levels.pairs()));
        assert(contents(b)[i] == (b[i].name@, b[i].levels.pairs()));
        assert(a[i].levels.pairs().len() == a[i].levels.entries@.len());
        assert(b[i].levels.pairs().len() == b[i].levels.entries@.len());
    }
}

/// Every mode has its row in its place, the edited one the editor; the active one
/// is marked.
pub proof fn law_modes_have_their_row(state: State, active: Option<usize>, i: int)
    requires
        0 <= i < state.modes@.len(),
    ensures
        modes_rows(state, active).len() >= state.modes@.len(),
        modes_rows(state, active)[i] matches ModesRow::Mode { index, active: marked } ==> index == i
            && (marked <==> active is Some && active->0 == i),
        modes_rows(state, active)[i] is Editor <==> state.editor is Some
            && state.editor->0.target is Some && state.editor->0.target->0 == i,
        state.editor matches Some(editor) ==> (editor.target is None ==> modes_rows(
            state,
            active,
        ).last() is Editor),
{
    assert(state.modes.len() == state.modes@.len());
}

/// What was said of one monitor is told of it together: its bus, its connector and
/// its model, and nothing of it is left over for the next.
pub proof fn law_monitors_are_told_whole(l: Listing)
    ensures
        flushed(l).bus is None && flushed(l).connector is None && flushed(l).label is None,
        l.bus is None ==> flushed(l).found == l.found,
        l.bus matches Some(bus) ==> flushed(l).found.len() == l.found.len() + 1
            && flushed(l).found.drop_last() == l.found && flushed(l).found.last().bus == bus
            && flushed(l).found.last().connector == l.connector && flushed(l).found.last().label
            == l.label,
{
    if l.bus is Some {
        assert(flushed(l).found.drop_last() =~= l.found);
    }
}

/// Each line tells of what it names, and of nothing else.
pub proof fn law_lines_tell_of_what_they_name(l: Listing, raw: Seq<char>)
    ensures
        ({
            let line = trimmed(raw);
            let after = with_line(l, raw);
            &&& "Display "@.is_prefix_of(line) ==> after == flushed(l)
            &&& "Invalid display"@.is_prefix_of(line) ==> after == flushed(l)
            &&& unprefixed(line, "I2C bus:"@) matches Some(rest) ==> after.bus == u32_of(
                tail(trimmed(rest), '-'),
            ) && after.found == l.found && after.connector == l.connector && after.label == l.label
            &&& unprefixed(line, "DRM connector:"@) matches Some(rest) ==> after.connector
                == connector_of(trimmed(rest)) && after.found == l.found && after.bus == l.bus
                && after.label == l.label
            &&& unprefixed(line, "Monitor:"@) matches Some(rest) ==> after.label == Some(
                model_of(trimmed(rest)),
            ) && after.found == l.found && after.bus == l.bus && after.connector == l.connector
        }),
{
    let line = trimmed(raw);
    reveal_strlit("Display ");
    reveal_strlit("Invalid display");
    reveal_strlit("I2C bus:");
    reveal_strlit("DRM connector:");
    reveal_strlit("Monitor:");
    assert("Display "@[0] == 'D' && "Display "@[1] == 'i' && "Invalid display"@[0] == 'I'
        && "Invalid display"@[1] == 'n' && "I2C bus:"@[0] == 'I' && "I2C bus:"@[1] == '2'
        && "DRM connector:"@[0] == 'D' && "DRM connector:"@[1] == 'R' && "Monitor:"@[0] == 'M');
    assert("Display "@.len() > 1 && "Invalid display"@.len() > 1 && "I2C bus:"@.len() > 1
        && "DRM connector:"@.len() > 1 && "Monitor:"@.len() > 1);
    lemma_starts(line, "Display "@);
    lemma_starts(line, "Invalid display"@);
    lemma_starts(line, "I2C bus:"@);
    lemma_starts(line, "DRM connector:"@);
    lemma_starts(line, "Monitor:"@);
}

proof fn lemma_starts(line: Seq<char>, prefix: Seq<char>)
    requires
        prefix.len() > 1,
    ensures
        prefix.is_prefix_of(line) ==> line.len() > 1 && line[0] == prefix[0] && line[1]
            == prefix[1],
{
    if prefix.is_prefix_of(line) {
        let start = line.subrange(0, prefix.len() as int);
        assert(start[0] == line[0] && start[1] == line[1]);
        assert(start =~= prefix);
    }
}

/// A connector goes without the card before it, and a monitor by its model.
pub proof fn law_connectors_go_without_their_card(card: Seq<char>, rest: Seq<char>)
    requires
        !card.contains('-'),
        rest.len() > 0,
    ensures
        connector_of(card + seq!['-'] + rest) == Some(rest),
{
    let s = card + seq!['-'] + rest;
    s.index_of_first_ensures('-');
    let at = card.len() as int;
    assert(s[at] == '-');
    assert(s.contains('-'));
    assert forall|k: int| 0 <= k < at implies s[k] != '-' by {
        assert(s[k] == card[k]);
        assert(card.contains(card[k]));
    }
    assert(s.skip(at + 1) =~= rest);
}

/// The level and the maximum are the fourth and the fifth word of their line.
pub proof fn law_the_level_is_the_fourth_word(line: Seq<char>)
    ensures
        ({
            let words = text_words(line);
            &&& vcp_of(line) is Some <==> words.len() > 3 && u32_of(words[3]) is Some
            &&& vcp_of(line) matches Some((current, max)) ==> {
                &&& u32_of(words[3]) == Some(current)
                &&& max >= 1
                &&& words.len() > 4 && u32_of(words[4]) is Some && u32_of(words[4])->0 >= 1 ==> u32_of(
                    words[4],
                ) == Some(max)
                &&& words.len() == 4 ==> max == 100
                &&& words.len() > 4 && u32_of(words[4]) is None ==> max == 100
            }
        }),
{
}

/// The level is read from the first line that is of it.
pub proof fn law_the_level_is_read_from_its_own_line(lines: Seq<Seq<char>>)
    ensures
        vcp_line(lines) matches Some(line) ==> "VCP 10"@.is_prefix_of(trimmed_start(line))
            && lines.contains(line),
        vcp_line(lines) is None <==> forall|i: int|
            0 <= i < lines.len() ==> !"VCP 10"@.is_prefix_of(trimmed_start(#[trigger] lines[i])),
    decreases lines.len(),
{
    if lines.len() > 0 {
        let rest = lines.skip(1);
        law_the_level_is_read_from_its_own_line(rest);
        assert forall|i: int| 0 < i < lines.len() implies (#[trigger] lines[i]) == rest[i - 1] by {}
        if "VCP 10"@.is_prefix_of(trimmed_start(lines[0])) {
            assert(lines.contains(lines[0]));
        } else if vcp_line(rest) is Some {
            let k = choose|k: int| 0 <= k < rest.len() && rest[k] == vcp_line(rest)->0;
            assert(lines[k + 1] == rest[k]);
        }
    }
}

/// A sink is the same where it is of the same kind, device and maximum.
pub proof fn law_sinks_differ_in_their_device(a: Sink, b: Sink)
    requires
        a@ == b@,
    ensures
        a is Backlight <==> b is Backlight,
        a matches Sink::Backlight { name, max } ==> (b matches Sink::Backlight {
            name: other,
            max: most,
        } && name@ == other@ && max == most),
        a matches Sink::Ddc { bus, max } ==> (b matches Sink::Ddc { bus: other, max: most } && bus
            == other && max == most),
{
}

/// A cell speaks for the display on its own output, the first there is; without
/// one, for the only display, or for all of them.
pub proof fn law_cells_speak_for_their_own_output(
    ds: Seq<Display>,
    output: Option<Seq<char>>,
    r: Target,
)
    requires
        ds.len() <= usize::MAX,
        speaks_for(ds, output, r),
    ensures
        output is Some ==> (forall|i: int|
            0 <= i < ds.len() && opt_text((#[trigger] ds[i]).found.connector) == output && (forall|
                k: int,
            |
                0 <= k < i ==> opt_text((#[trigger] ds[k]).found.connector) != output) ==> r
                == Target::One(i as usize)),
        (output is None || forall|i: int|
            0 <= i < ds.len() ==> opt_text((#[trigger] ds[i]).found.connector) != output) ==> r
            == if ds.len() == 1 {
            Target::One(0)
        } else {
            Target::All
        },
{
    if output is Some {
        assert forall|i: int|
            0 <= i < ds.len() && opt_text((#[trigger] ds[i]).found.connector) == output && (forall|
                k: int,
            |
                0 <= k < i ==> opt_text((#[trigger] ds[k]).found.connector) != output) implies r
            == Target::One(i as usize) by {
            assert(crate::modules::brightness::state::shown_on(ds, i, output));
            let at = r->One_0 as int;
            assert(opt_text(ds[at].found.connector) == output);
            if i < at {
                assert(!crate::modules::brightness::state::shown_on(ds, i, output));
            } else if at < i {
                assert(opt_text(ds[at].found.connector) != output);
            }
        }
    }
}

/// What a cell shows: the level of its display, and of all of them their mean,
/// rounded down.
pub proof fn law_cells_show_the_level_or_the_mean(ds: Seq<Display>, i: usize)
    ensures
        i < ds.len() ==> shown_percent(ds, Target::One(i)) == ds[i as int].found.percent,
        ds.len() > 0 ==> {
            let mean = shown_percent(ds, Target::All) as int;
            mean * ds.len() <= total(ds) < (mean + 1) * ds.len()
        },
        ds.len() == 0 ==> shown_percent(ds, Target::All) == 0,
{
    if ds.len() > 0 {
        let (t, n) = (total(ds) as int, ds.len() as int);
        assert(t / n * n <= t < (t / n + 1) * n) by (nonlinear_arith)
            requires
                n > 0,
                t >= 0,
        ;
    }
}

/// The levels of the displays add up, each once.
pub proof fn law_levels_add_up(ds: Seq<Display>, d: Display)
    ensures
        total(Seq::empty()) == 0,
        total(ds.push(d)) == total(ds) + d.found.percent,
{
    assert(ds.push(d).drop_last() =~= ds);
}

/// The active mode is one whose levels are all in effect, on at least one display;
/// the one applied last where it is, else the first there is.
pub proof fn law_the_active_mode_is_in_effect(
    modes: Seq<Mode>,
    ds: Seq<Display>,
    last: Option<usize>,
    r: Option<usize>,
)
    requires
        is_active(modes, ds, last, r),
    ensures
        r matches Some(i) ==> i < modes.len() && (exists|k: int|
            0 <= k < ds.len() && modes[i as int].levels.at(
                key_of((#[trigger] ds[k]).found),
            ) is Some) && forall|k: int|
            0 <= k < ds.len() ==> (modes[i as int].levels.at(
                key_of((#[trigger] ds[k]).found),
            ) matches Some(level) ==> raw_at(ds[k].found.sink@, level) == raw_at(
                ds[k].found.sink@,
                ds[k].found.percent,
            )),
        last is Some && last->0 < modes.len() && mode_in_effect(modes[last->0 as int], ds) ==> r
            == last,
        r is None ==> forall|i: int| 0 <= i < modes.len() ==> !mode_in_effect(#[trigger] modes[i], ds),
{
    if r is Some {
        assert(in_effect_at(modes, ds, r->0 as int));
    } else {
        assert forall|i: int| 0 <= i < modes.len() implies !mode_in_effect(
            #[trigger] modes[i],
            ds,
        ) by {
            assert(!in_effect_at(modes, ds, i));
        }
    }
}

/// A name can be saved where it says something and no other mode has it, whatever
/// the case of its letters.
pub proof fn law_names_are_saved_where_they_are_free(state: State)
    ensures
        state.editor is None ==> draft_of(state.editor, state.modes@) is None,
        state.editor matches Some(editor) ==> {
            let name = trimmed(editor.name@);
            &&& draft_of(state.editor, state.modes@) matches Some(draft) ==> draft == name
                && name.len() > 0 && forall|i: int|
                0 <= i < state.modes@.len() && editor.target != Some(i as usize) ==> folded(
                    trimmed((#[trigger] state.modes@[i]).name@),
                ) != folded(name)
            &&& name.len() > 0 && (forall|i: int|
                0 <= i < state.modes@.len() ==> folded(trimmed((#[trigger] state.modes@[i]).name@))
                    != folded(name)) ==> draft_of(state.editor, state.modes@) == Some(name)
            &&& name.len() == 0 ==> draft_of(state.editor, state.modes@) is None
        },
{
}

/// The level under a key is that of the display that goes by it.
pub proof fn law_levels_shown_are_those_of_their_display(ds: Seq<Display>, i: int)
    requires
        0 <= i < ds.len(),
        forall|k: int|
            i < k < ds.len() ==> key_of((#[trigger] ds[k]).found) != key_of(ds[i].found),
    ensures
        level_shown(ds, key_of(ds[i].found)) == Some(ds[i].found.percent),
    decreases ds.len(),
{
    if i < ds.len() - 1 {
        let before = ds.drop_last();
        assert(key_of(ds[ds.len() - 1].found) != key_of(ds[i].found));
        assert(before[i] == ds[i]);
        assert forall|k: int| i < k < before.len() implies key_of((#[trigger] before[k]).found)
            != key_of(before[i].found) by {
            assert(before[k] == ds[k]);
        }
        law_levels_shown_are_those_of_their_display(before, i);
    }
}

/// How to save the first mode is told where there is none, the modes could be read
/// and none is being made.
pub proof fn law_the_hint_is_for_the_first_mode(state: State, active: Option<usize>)
    ensures
        state.modes@.len() > 0 ==> forall|i: int|
            0 <= i < modes_rows(state, active).len() ==> !(#[trigger] modes_rows(
                state,
                active,
            )[i] is Hint),
        state.modes@.len() == 0 && state.modes_readable && state.editor is None ==> modes_rows(
            state,
            active,
        ) == seq![ModesRow::Hint],
        state.modes@.len() == 0 && !state.modes_readable && state.editor is None ==> modes_rows(
            state,
            active,
        ).len() == 0,
{
    let rows = modes_rows(state, active);
    if state.modes@.len() == 0 && state.modes_readable && state.editor is None {
        assert(rows =~= seq![ModesRow::Hint]);
    }
}

/// A monitor goes by its model, the second part of what it says, and by all of it
/// where that is empty.
pub proof fn law_monitors_go_by_their_model(parts: Seq<Seq<char>>, value: Seq<char>)
    requires
        parts == pieces(value, ':'),
    ensures
        parts.len() > 1 && parts[1].len() > 0 ==> model_of(value) == parts[1],
        parts.len() > 1 && parts[1].len() == 0 ==> model_of(value) == value,
        parts.len() == 1 ==> model_of(value) == value,
{
}

/// A card without a connector behind it names none.
pub proof fn law_a_card_alone_is_no_connector(card: Seq<char>)
    requires
        !card.contains('-'),
    ensures
        connector_of(card) is None,
        connector_of(card.push('-')) is None,
{
    let s = card.push('-');
    card.index_of_first_ensures('-');
    s.index_of_first_ensures('-');
    let at = card.len() as int;
    assert(s[at] == '-');
    assert(s.contains('-'));
    assert forall|k: int| 0 <= k < at implies s[k] != '-' by {
        assert(s[k] == card[k]);
        assert(card.contains(card[k]));
    }
}

/// A number is read where it is one and fits.
pub proof fn law_numbers_are_read_where_they_fit(s: Seq<char>)
    ensures
        u32_of(s) matches Some(n) ==> whole(s) == Some(n as nat),
        whole(s) matches Some(n) ==> (u32_of(s) is Some <==> n <= 0xffff_ffff),
        whole(s) is None ==> u32_of(s) is None,
{
}

} // verus!
