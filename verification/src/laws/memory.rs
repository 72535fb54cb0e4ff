//! What holds of what the memory and graphics modules measure.
use crate::modules::gpu::{clock_text, heat_of, held, larger, temp_of, Heat, Holding};
use crate::modules::memory::{
    figure, given, key_of, meminfo_of, resident_of, BarKey, Figures, Resident,
};
use crate::number::{decimal, whole};
use crate::order::{in_line, law_sorting_keeps_everything, law_sorting_sorts, Ranked};
use crate::reading::{NINETY, SEVENTY_FIVE};
use crate::text::text_words;
use vstd::prelude::*;
use vstd::string::*;

verus! {

/// A line gives a figure under the name before its colon: the first word behind
/// it.
pub proof fn law_lines_give_the_figure_they_name(
    name: Seq<char>,
    rest: Seq<char>,
    key: Seq<char>,
    n: nat,
)
    requires
        !name.contains(':'),
        text_words(rest).len() > 0,
        whole(text_words(rest)[0]) == Some(n),
        n <= u64::MAX,
    ensures
        given(name + seq![':'] + rest, name) == Some(n as u64),
        key != name ==> given(name + seq![':'] + rest, key) is None,
{
    let line = name + seq![':'] + rest;
    line.index_of_first_ensures(':');
    let at = name.len() as int;
    assert(line[at] == ':');
    assert(line.contains(':'));
    assert forall|k: int| 0 <= k < at implies line[k] != ':' by {
        assert(line[k] == name[k]);
        assert(name.contains(name[k]));
    }
    assert(line.take(at) =~= name);
    assert(line.skip(at + 1) =~= rest);
    assert(line.subrange(0, at) =~= name);
    assert(line.subrange(at + 1, line.len() as int) =~= rest);
}

/// Each figure is that of the lines of its own name, the last there is.
pub proof fn law_figures_come_from_their_own_lines(lines: Seq<Seq<char>>, i: int)
    requires
        0 <= i < lines.len(),
    ensures
        ({
            let info = meminfo_of(lines);
            &&& given(lines[i], "MemTotal"@) is Some && (forall|k: int|
                i < k < lines.len() ==> given(#[trigger] lines[k], "MemTotal"@) is None) ==> Some(
                info.total_kib,
            ) == given(lines[i], "MemTotal"@)
            &&& given(lines[i], "MemAvailable"@) is Some && (forall|k: int|
                i < k < lines.len() ==> given(#[trigger] lines[k], "MemAvailable"@) is None)
                ==> Some(info.available_kib) == given(lines[i], "MemAvailable"@)
            &&& given(lines[i], "Cached"@) is Some && (forall|k: int|
                i < k < lines.len() ==> given(#[trigger] lines[k], "Cached"@) is None) ==> Some(
                info.cached_kib,
            ) == given(lines[i], "Cached"@)
            &&& given(lines[i], "SwapTotal"@) is Some && (forall|k: int|
                i < k < lines.len() ==> given(#[trigger] lines[k], "SwapTotal"@) is None) ==> Some(
                info.swap_total_kib,
            ) == given(lines[i], "SwapTotal"@)
            &&& given(lines[i], "SwapFree"@) is Some && (forall|k: int|
                i < k < lines.len() ==> given(#[trigger] lines[k], "SwapFree"@) is None) ==> Some(
                info.swap_free_kib,
            ) == given(lines[i], "SwapFree"@)
        }),
{
    lemma_figure(lines, "MemTotal"@, i);
    lemma_figure(lines, "MemAvailable"@, i);
    lemma_figure(lines, "Cached"@, i);
    lemma_figure(lines, "SwapTotal"@, i);
    lemma_figure(lines, "SwapFree"@, i);
}

proof fn lemma_figure(lines: Seq<Seq<char>>, key: Seq<char>, i: int)
    requires
        0 <= i < lines.len(),
    ensures
        given(lines[i], key) is Some && (forall|k: int|
            i < k < lines.len() ==> given(#[trigger] lines[k], key) is None) ==> Some(
            figure(lines, key),
        ) == given(lines[i], key),
    decreases lines.len(),
{
    if i < lines.len() - 1 {
        let before = lines.drop_last();
        lemma_figure(before, key, i);
        if forall|k: int| i < k < lines.len() ==> given(#[trigger] lines[k], key) is None {
            assert(given(lines[lines.len() - 1], key) is None);
            assert forall|k: int| i < k < before.len() implies given(
                #[trigger] before[k],
                key,
            ) is None by {
                assert(before[k] == lines[k]);
            }
        }
    }
}

/// What is not told counts as nothing.
pub proof fn law_figures_that_are_not_told_are_nought(lines: Seq<Seq<char>>, key: Seq<char>)
    requires
        forall|k: int| 0 <= k < lines.len() ==> given(#[trigger] lines[k], key) is None,
    ensures
        figure(lines, key) == 0,
    decreases lines.len(),
{
    if lines.len() > 0 {
        let before = lines.drop_last();
        assert(given(lines[lines.len() - 1], key) is None);
        assert forall|k: int| 0 <= k < before.len() implies given(
            #[trigger] before[k],
            key,
        ) is None by {
            assert(before[k] == lines[k]);
        }
        law_figures_that_are_not_told_are_nought(before, key);
    }
}

/// The cell shows what is used before what there is, and warns from where it
/// should.
pub proof fn law_the_cell_shows_used_of_total(f: Figures, key: BarKey)
    requires
        key@ == key_of(f),
    ensures
        key.text@ == f.used@ + "/"@ + f.total@ + "G "@ + (f.percent.shown@ + "%"@),
        key.tier == 2 <==> f.percent.order >= NINETY,
        key.tier == 1 <==> SEVENTY_FIVE <= f.percent.order < NINETY,
        key.glyph@ == "\u{f0027}"@ <==> f.percent.order >= SEVENTY_FIVE,
{
    reveal_strlit("\u{f061a}");
    reveal_strlit("\u{f0027}");
    assert("\u{f061a}"@[0] == '\u{f061a}' && "\u{f0027}"@[0] == '\u{f0027}');
}

/// A process holds its second count of pages, of four KiB each.
pub proof fn law_processes_hold_their_resident_pages(statm: Seq<char>, pages: nat)
    requires
        text_words(statm).len() >= 2,
        whole(text_words(statm)[1]) == Some(pages),
        pages <= u64::MAX,
    ensures
        resident_of(statm) is Some,
        resident_of(statm)->0 == 4096 * pages,
{
}

/// The largest processes come first, and what is not shown is no larger.
pub proof fn law_the_largest_come_first(all: Seq<Resident>)
    ensures
        in_line(all).len() == all.len(),
        forall|i: int, j: int|
            0 <= i < j < in_line(all).len() ==> (#[trigger] in_line(all)[i]).bytes >= (
            #[trigger] in_line(all)[j]).bytes,
        forall|i: int| 0 <= i < in_line(all).len() ==> all.contains(#[trigger] in_line(all)[i]),
{
    law_sorting_sorts(all);
    law_sorting_keeps_everything(all);
    broadcast use vstd::seq_lib::group_to_multiset_ensures;

    let line = in_line(all);
    assert forall|i: int, j: int| 0 <= i < j < line.len() implies (#[trigger] line[i]).bytes >= (
    #[trigger] line[j]).bytes by {
        assert(!line[j].precedes(&line[i]));
    }
    assert forall|i: int| 0 <= i < line.len() implies all.contains(#[trigger] line[i]) by {
        assert(line.contains(line[i]));
        assert(line.to_multiset().contains(line[i]));
        assert(all.to_multiset().contains(line[i]));
    }
}

/// The graphics card is critical from where it slows itself down, or from ninety
/// degrees where it does not say, and warm within ten degrees of that.
pub proof fn law_heat_is_told_by_its_limit(temp: u32, limit: Option<u32>)
    ensures
        limit matches Some(at) ==> {
            &&& heat_of(temp, limit) == Heat::Critical <==> temp >= at
            &&& heat_of(temp, limit) == Heat::Warm <==> at > temp && temp >= at - 10
        },
        limit is None ==> {
            &&& heat_of(temp, limit) == Heat::Critical <==> temp >= 90
            &&& heat_of(temp, limit) == Heat::Warm <==> 80 <= temp < 90
        },
{
}

/// Readings stand before their limits.
pub proof fn law_readings_stand_before_their_limits(reading: u32, limit: u32)
    ensures
        temp_of(reading, Some(limit)) == decimal(reading as nat) + "°C / "@ + decimal(limit as nat)
            + "°C"@,
        temp_of(reading, None) == decimal(reading as nat) + "°C"@,
        clock_text(reading, Some(limit)) == decimal(reading as nat) + " / "@ + decimal(limit as nat)
            + " MHz"@,
        clock_text(reading, None) == decimal(reading as nat) + " MHz"@,
{
}

/// Processes that hold more graphics memory come first, and those that do not say
/// come last.
pub proof fn law_the_largest_holdings_come_first(all: Seq<Holding>, i: int, j: int)
    requires
        0 <= i < j < in_line(held(all)).len(),
    ensures
        ({
            let (a, b) = (in_line(held(all))[i], in_line(held(all))[j]);
            &&& b.bytes is Some ==> a.bytes is Some && a.bytes->0 >= b.bytes->0
        }),
{
    law_sorting_sorts(held(all));
    assert(!in_line(held(all))[j].precedes(&in_line(held(all))[i]));
}

/// Of two readings of one process the larger counts, one that is told before one
/// that is not.
pub proof fn law_the_larger_reading_counts(a: Option<u64>, b: Option<u64>)
    ensures
        larger(a, b) <==> a is Some && (b is None || a->0 > b->0),
{
}

} // verus!
