//! What holds of what the processor module measures.
use crate::modules::cpu::{
    all_spent, all_times, busiest, clocks_in, columns_of, counter, counters, first_package,
    is_package, kept, key_of, model_in, package_of, ran_since, shorn, summed, temp_of, ticks_of, tier_of, times_of,
    value_of, BarKey, Core, Ran, Spent, Times,
};
use crate::number::whole;
use crate::order::{in_line, law_sorting_keeps_everything, law_sorting_sorts, Ranked};
use crate::reading::{Reading, EIGHTY_FIVE, NINETY, SEVENTY_FIVE, SIXTY, THIRTY};
use crate::text::{text_words, trimmed};
use vstd::prelude::*;
use vstd::string::*;

verus! {

/// Every line spends its own time: what its own counters grew by since the last
/// sample, less what it was idle for. A line whose counters stood still spent
/// nothing, whatever the others did.
pub proof fn law_lines_spend_their_own_time(
    now: Seq<Times>,
    before: Seq<Times>,
    spent: Seq<Spent>,
    i: int,
)
    requires
        spent == all_spent(now, before),
        now.len() == before.len(),
        0 <= i < now.len(),
    ensures
        spent.len() == now.len(),
        now[i].total >= before[i].total ==> spent[i].total == now[i].total - before[i].total,
        now[i].total < before[i].total ==> spent[i].total == 0,
        now[i].idle >= before[i].idle && spent[i].total >= now[i].idle - before[i].idle
            ==> spent[i].busy == spent[i].total - (now[i].idle - before[i].idle),
        now[i].idle < before[i].idle ==> spent[i].busy == spent[i].total,
        now[i].total == before[i].total && now[i].idle == before[i].idle ==> spent[i].total == 0
            && spent[i].busy == 0,
        spent[i].busy <= spent[i].total,
{
}

/// What one line spends does not hang on the others.
pub proof fn law_lines_are_apart(
    now: Seq<Times>,
    before: Seq<Times>,
    other_now: Seq<Times>,
    other_before: Seq<Times>,
    i: int,
    j: int,
)
    requires
        0 <= i < now.len(),
        0 <= j < other_now.len(),
        now[i] == other_now[j],
        before[i] == other_before[j],
    ensures
        all_spent(now, before)[i] == all_spent(other_now, other_before)[j],
{
}

/// The counters of a line: all of it is the sum of its first eight, idle the
/// fourth and the fifth of them.
pub proof fn law_idle_is_the_fourth_and_the_fifth_counter(line: Seq<char>)
    ensures
        times_of(line) is Some <==> text_words(line).len() >= 6,
        times_of(line) matches Some(times) ==> {
            let words = text_words(line);
            &&& times.idle == counter(words[4]) + counter(words[5])
            &&& times.total >= times.idle
            &&& words.len() == 9 ==> times.total == counter(words[1]) + counter(words[2]) + counter(
                words[3],
            ) + counter(words[4]) + counter(words[5]) + counter(words[6]) + counter(words[7])
                + counter(words[8])
        },
{
    let words = text_words(line);
    let fields = counters(line);
    if fields.len() >= 5 {
        assert(fields[3] == words[4] && fields[4] == words[5]);
        lemma_summed_bound(fields);
        assert(fields.len() <= 8);
        assert(summed(fields) <= 8 * 0xffff_ffff_ffff_ffff) by {
            assert(fields.len() * 0xffff_ffff_ffff_ffff <= 8 * 0xffff_ffff_ffff_ffff)
                by (nonlinear_arith)
                requires
                    fields.len() <= 8,
            ;
        }
        lemma_summed_part(fields, 3, 4);
        if words.len() == 9 {
            reveal_with_fuel(summed, 9);
            assert(fields.drop_last().drop_last() =~= fields.take(6));
            let a = fields.drop_last();
            let b = a.drop_last();
            let c = b.drop_last();
            let d = c.drop_last();
            let e = d.drop_last();
            let f = e.drop_last();
            let g = f.drop_last();
            assert(g.drop_last().len() == 0);
            assert(fields.last() == words[8] && a.last() == words[7] && b.last() == words[6]
                && c.last() == words[5] && d.last() == words[4] && e.last() == words[3] && f.last()
                == words[2] && g.last() == words[1]);
        }
    }
}

proof fn lemma_summed_bound(fields: Seq<Seq<char>>)
    ensures
        summed(fields) <= fields.len() * 0xffff_ffff_ffff_ffff,
    decreases fields.len(),
{
    if fields.len() > 0 {
        lemma_summed_bound(fields.drop_last());
    }
}

proof fn lemma_summed_part(fields: Seq<Seq<char>>, i: int, j: int)
    requires
        0 <= i < j < fields.len(),
    ensures
        summed(fields) >= counter(fields[i]) + counter(fields[j]),
    decreases fields.len(),
{
    if j < fields.len() - 1 {
        lemma_summed_part(fields.drop_last(), i, j);
    } else {
        lemma_summed_one(fields.drop_last(), i);
    }
}

proof fn lemma_summed_one(fields: Seq<Seq<char>>, i: int)
    requires
        0 <= i < fields.len(),
    ensures
        summed(fields) >= counter(fields[i]),
    decreases fields.len(),
{
    if i < fields.len() - 1 {
        lemma_summed_one(fields.drop_last(), i);
    }
}

/// Every line of a processor is read, each from its own text and in its place.
pub proof fn law_every_line_is_read_in_its_place(lines: Seq<Seq<char>>, n: int)
    requires
        0 <= n <= lines.len(),
        forall|i: int|
            0 <= i < n ==> "cpu"@.is_prefix_of(#[trigger] lines[i]) && times_of(lines[i]) is Some,
        n < lines.len() ==> !"cpu"@.is_prefix_of(lines[n]),
    ensures
        all_times(lines).len() == n,
        forall|i: int| 0 <= i < n ==> Some(#[trigger] all_times(lines)[i]) == times_of(lines[i]),
    decreases lines.len(),
{
    if n > 0 {
        let rest = lines.skip(1);
        assert forall|i: int| 0 <= i < n - 1 implies "cpu"@.is_prefix_of(#[trigger] rest[i])
            && times_of(rest[i]) is Some by {
            assert(rest[i] == lines[i + 1]);
        }
        assert("cpu"@.is_prefix_of(lines[0]));
        law_every_line_is_read_in_its_place(rest, n - 1);
        assert forall|i: int| 0 <= i < n implies Some(#[trigger] all_times(lines)[i]) == times_of(
            lines[i],
        ) by {
            if i > 0 {
                assert(all_times(lines)[i] == all_times(rest)[i - 1]);
                assert(rest[i - 1] == lines[i]);
            }
        }
    }
}

/// The busiest processes: what each ran since the last sample is what its own
/// count grew by, the busiest come first, and there are at most five.
pub proof fn law_the_busiest_ran_the_longest(prev: Map<u32, u128>, now: Seq<(u32, u128)>)
    ensures
        busiest(prev, now).len() <= 5,
        forall|i: int|
            0 <= i < busiest(prev, now).len() ==> has_run(
                prev,
                now,
                #[trigger] busiest(prev, now)[i],
            ),
        forall|i: int, j: int|
            0 <= i < j < busiest(prev, now).len() ==> (#[trigger] busiest(prev, now)[i]).ticks >= (
            #[trigger] busiest(prev, now)[j]).ticks,
        forall|k: int|
            0 <= k < now.len() && prev.contains_key((#[trigger] now[k]).0) && now[k].1
                > prev[now[k].0] ==> (exists|i: int|
                0 <= i < busiest(prev, now).len() && (#[trigger] busiest(prev, now)[i]).pid
                    == now[k].0 && busiest(prev, now)[i].ticks == now[k].1 - prev[now[k].0]) || (
            busiest(prev, now).len() == 5 && busiest(prev, now)[4].ticks >= now[k].1
                - prev[now[k].0]),
{
    let ran = ran_since(prev, now);
    let line = in_line(ran);
    lemma_ran(prev, now);
    law_sorting_sorts(ran);
    law_sorting_keeps_everything(ran);
    broadcast use vstd::seq_lib::group_to_multiset_ensures;

    let top = busiest(prev, now);
    assert forall|i: int| 0 <= i < line.len() implies has_run(prev, now, #[trigger] line[i]) by {
        assert(line.contains(line[i]));
        assert(line.to_multiset().contains(line[i]));
        assert(ran.to_multiset().contains(line[i]));
        assert(ran.contains(line[i]));
    }
    assert forall|i: int, j: int| 0 <= i < j < top.len() implies (#[trigger] top[i]).ticks >= (
    #[trigger] top[j]).ticks by {
        assert(!line[j].precedes(&line[i]));
    }
    assert forall|k: int|
        0 <= k < now.len() && prev.contains_key((#[trigger] now[k]).0) && now[k].1
            > prev[now[k].0] implies (exists|i: int|
        0 <= i < top.len() && (#[trigger] top[i]).pid == now[k].0 && top[i].ticks == now[k].1
            - prev[now[k].0]) || (top.len() == 5 && top[4].ticks >= now[k].1 - prev[now[k].0]) by {
        let grown = Ran { pid: now[k].0, ticks: (now[k].1 - prev[now[k].0]) as u128 };
        assert(ran.contains(grown));
        assert(ran.to_multiset().contains(grown));
        assert(line.to_multiset().contains(grown));
        assert(line.contains(grown));
        let i = choose|i: int| 0 <= i < line.len() && line[i] == grown;
        if i < top.len() {
            assert(top[i] == grown);
        } else {
            assert(!line[i].precedes(&line[4]));
            assert(top[4] == line[4]);
        }
    }
}

/// Whether a process ran for what its own count grew by.
pub open spec fn has_run(prev: Map<u32, u128>, now: Seq<(u32, u128)>, ran: Ran) -> bool {
    exists|k: int|
        0 <= k < now.len() && (#[trigger] now[k]).0 == ran.pid && prev.contains_key(ran.pid)
            && ran.ticks == now[k].1 - prev[ran.pid] && ran.ticks > 0
}

proof fn lemma_ran(prev: Map<u32, u128>, now: Seq<(u32, u128)>)
    ensures
        forall|i: int|
            0 <= i < ran_since(prev, now).len() ==> has_run(
                prev,
                now,
                #[trigger] ran_since(prev, now)[i],
            ),
        forall|k: int|
            0 <= k < now.len() && prev.contains_key((#[trigger] now[k]).0) && now[k].1
                > prev[now[k].0] ==> ran_since(prev, now).contains(
                Ran { pid: now[k].0, ticks: (now[k].1 - prev[now[k].0]) as u128 },
            ),
    decreases now.len(),
{
    if now.len() > 0 {
        let before = now.drop_last();
        lemma_ran(prev, before);
        let some = ran_since(prev, before);
        let all = ran_since(prev, now);
        assert(now[now.len() - 1] == now.last());
        assert forall|i: int| 0 <= i < all.len() implies has_run(prev, now, #[trigger] all[i]) by {
            if i < some.len() {
                assert(all[i] == some[i]);
                assert(has_run(prev, before, some[i]));
                let k = choose|k: int|
                    0 <= k < before.len() && (#[trigger] before[k]).0 == some[i].pid
                        && prev.contains_key(some[i].pid) && some[i].ticks == before[k].1
                        - prev[some[i].pid] && some[i].ticks > 0;
                assert(now[k] == before[k]);
            }
        }
        assert forall|k: int|
            0 <= k < now.len() && prev.contains_key((#[trigger] now[k]).0) && now[k].1
                > prev[now[k].0] implies all.contains(
            Ran { pid: now[k].0, ticks: (now[k].1 - prev[now[k].0]) as u128 },
        ) by {
            let ran = Ran { pid: now[k].0, ticks: (now[k].1 - prev[now[k].0]) as u128 };
            if k < before.len() {
                assert(before[k] == now[k]);
                let i = choose|i: int| 0 <= i < some.len() && some[i] == ran;
                assert(all[i] == ran);
            } else {
                assert(all[all.len() - 1] == ran);
            }
        }
    }
}

/// What is kept of the processes is the last count of each, and of no other.
pub proof fn law_the_last_counts_are_kept(now: Seq<(u32, u128)>, k: int)
    requires
        0 <= k < now.len(),
        forall|j: int| k < j < now.len() ==> (#[trigger] now[j]).0 != now[k].0,
    ensures
        kept(now).contains_key(now[k].0),
        kept(now)[now[k].0] == now[k].1,
    decreases now.len(),
{
    if k < now.len() - 1 {
        let before = now.drop_last();
        assert(now[now.len() - 1].0 != now[k].0);
        assert(before[k] == now[k]);
        assert forall|j: int| k < j < before.len() implies (#[trigger] before[j]).0
            != before[k].0 by {
            assert(now[j] == before[j]);
        }
        law_the_last_counts_are_kept(before, k);
    }
}

/// Nothing is kept of a process that was not counted.
pub proof fn law_nothing_is_kept_of_others(now: Seq<(u32, u128)>, pid: u32)
    requires
        forall|k: int| 0 <= k < now.len() ==> (#[trigger] now[k]).0 != pid,
    ensures
        !kept(now).contains_key(pid),
    decreases now.len(),
{
    if now.len() > 0 {
        let before = now.drop_last();
        assert(now[now.len() - 1].0 != pid);
        assert forall|k: int| 0 <= k < before.len() implies (#[trigger] before[k]).0 != pid by {
            assert(now[k] == before[k]);
        }
        law_nothing_is_kept_of_others(before, pid);
    }
}

/// A process has run for what it ran itself and what ran for it: the twelfth and
/// the thirteenth word behind its name.
pub proof fn law_a_process_ran_for_both_its_counts(
    name: Seq<char>,
    rest: Seq<char>,
    user: nat,
    system: nat,
)
    requires
        !rest.contains(')'),
        text_words(rest).len() >= 13,
        whole(text_words(rest)[11]) == Some(user),
        whole(text_words(rest)[12]) == Some(system),
        user <= u64::MAX,
        system <= u64::MAX,
    ensures
        ticks_of(name + seq![')'] + rest) == Some((user + system) as u128),
{
    let s = name + seq![')'] + rest;
    s.index_of_last_ensures(')');
    let at = name.len() as int;
    assert(s[at] == ')');
    assert(s.contains(')'));
    assert forall|k: int| at < k < s.len() implies s[k] != ')' by {
        assert(s[k] == rest[k - at - 1]);
        assert(rest.contains(rest[k - at - 1]));
    }
    assert(s.skip(at + 1) =~= rest);
    assert(s.subrange(at + 1, s.len() as int) =~= rest);
}

/// A reading is warned of from where it should be, and not below.
pub proof fn law_warnings_start_where_they_should(usage: i64, temp: i64)
    ensures
        tier_of(usage) == 2 <==> usage >= NINETY,
        tier_of(usage) == 1 <==> SEVENTY_FIVE <= usage < NINETY,
        tier_of(usage) == 0 <==> usage < SEVENTY_FIVE,
        temp_of(temp).1 == 2 <==> temp >= NINETY,
        temp_of(temp).1 == 1 <==> EIGHTY_FIVE <= temp < NINETY,
        temp_of(temp).0 == "\u{f0026}"@ <==> temp >= NINETY,
{
    reveal_strlit("\u{f0026}");
    reveal_strlit("\u{f10c3}");
    reveal_strlit("\u{f050f}");
    reveal_strlit("\u{f10c2}");
    assert("\u{f0026}"@[0] == '\u{f0026}' && "\u{f10c3}"@[0] == '\u{f10c3}' && "\u{f050f}"@[0]
        == '\u{f050f}' && "\u{f10c2}"@[0] == '\u{f10c2}');
}

/// A hotter reading has no lower tier, and a busier one neither.
pub proof fn law_tiers_rise_with_their_reading(low: i64, high: i64)
    requires
        low <= high,
    ensures
        tier_of(low) <= tier_of(high),
        temp_of(low).1 <= temp_of(high).1,
{
}

/// The cell shows the usage as usage and the temperature as temperature.
pub proof fn law_the_cell_shows_its_readings(total: Reading, package: Option<Reading>, key: BarKey)
    requires
        key@ == key_of(total, package),
    ensures
        key.usage@ == total.shown@ + "%"@,
        key.tier == tier_of(total.order),
        key.temp is Some <==> package is Some,
        package matches Some(temp) ==> {
            &&& (key.temp->0).shown@ == temp.shown@ + "°C"@
            &&& (key.temp->0).tier == temp_of(temp.order).1
            &&& (key.temp->0).glyph@ == temp_of(temp.order).0
        },
        key.glyph@ == "\u{f0028}"@ <==> total.order >= SEVENTY_FIVE,
{
    reveal_strlit("\u{f035b}");
    reveal_strlit("\u{f0028}");
    assert("\u{f035b}"@[0] == '\u{f035b}' && "\u{f0028}"@[0] == '\u{f0028}');
}

/// The package is the sensor that is named so, the first of them; without one,
/// the first sensor stands in.
pub proof fn law_the_package_is_the_sensor_named_so(labels: Seq<Seq<char>>)
    ensures
        package_of(labels) is None <==> labels.len() == 0,
        package_of(labels) matches Some(i) ==> 0 <= i < labels.len() && (labels[i] == "Tctl"@ || (i
            == 0 && forall|k: int| 0 <= k < labels.len() ==> #[trigger] labels[k] != "Tctl"@)),
        package_of(labels) matches Some(i) ==> forall|k: int|
            0 <= k < i ==> #[trigger] labels[k] != "Tctl"@,
{
    if exists|i: int|
        0 <= i < labels.len() && is_package(#[trigger] labels[i]) {
        let i = choose|i: int|
            0 <= i < labels.len() && is_package(#[trigger] labels[i]);
        lemma_first_package(labels, i);
    } else {
        assert forall|k: int| 0 <= k < labels.len() implies #[trigger] labels[k] != "Tctl"@ by {
            assert(!is_package(labels[k]));
        }
    }
}

proof fn lemma_first_package(labels: Seq<Seq<char>>, i: int)
    requires
        0 <= i < labels.len(),
        labels[i] == "Tctl"@,
    ensures
        0 <= first_package(labels) <= i,
        labels[first_package(labels)] == "Tctl"@,
        forall|k: int|
            0 <= k < first_package(labels) ==> #[trigger] labels[k]
                != "Tctl"@,
    decreases labels.len(),
{
    if labels[0] != "Tctl"@ {
        let rest = labels.skip(1);
        assert(rest[i - 1] == labels[i]);
        lemma_first_package(rest, i - 1);
        let n = first_package(rest);
        assert(rest[n] == labels[n + 1]);
        assert forall|k: int| 0 <= k < n + 1 implies #[trigger] labels[k] != "Tctl"@ by {
            if k > 0 {
                assert(rest[k - 1] == labels[k]);
            }
        }
    }
}

/// Every thread is shown once, under its own number and with its own usage.
pub proof fn law_threads_show_their_own_usage(cores: Seq<Core>, i: int)
    requires
        0 <= i < cores.len(),
    ensures
        ({
            let half = (cores.len() as int + 1) / 2;
            let thread = if i < half {
                columns_of(cores)[0][i]
            } else {
                columns_of(cores)[1][i - half]
            };
            &&& thread.number == i
            &&& thread.value == cores[i].busy@
            &&& columns_of(cores).len() == if cores.len() > 1 {
                2
            } else {
                1int
            }
            &&& columns_of(cores)[0].len() == half
            &&& cores.len() > 1 ==> columns_of(cores)[1].len() == cores.len() - half
        }),
{
}

/// The clocks are those of the lines that name one, each from its own line.
pub proof fn law_clocks_come_from_their_lines(lines: Seq<Seq<char>>)
    ensures
        clocks_in(lines).len() <= lines.len(),
        forall|i: int|
            0 <= i < clocks_in(lines).len() ==> exists|k: int|
                0 <= k < lines.len() && value_of(#[trigger] lines[k], "cpu MHz"@) == Some(
                    #[trigger] clocks_in(lines)[i],
                ),
        (forall|k: int|
            0 <= k < lines.len() ==> value_of(#[trigger] lines[k], "cpu MHz"@) is Some)
            ==> clocks_in(lines).len() == lines.len() && forall|k: int|
            0 <= k < lines.len() ==> value_of(#[trigger] lines[k], "cpu MHz"@) == Some(
                clocks_in(lines)[k],
            ),
    decreases lines.len(),
{
    if lines.len() > 0 {
        let before = lines.drop_last();
        law_clocks_come_from_their_lines(before);
        assert(lines[lines.len() - 1] == lines.last());
        let some = clocks_in(before);
        let all = clocks_in(lines);
        assert forall|i: int| 0 <= i < all.len() implies exists|k: int|
            0 <= k < lines.len() && value_of(#[trigger] lines[k], "cpu MHz"@) == Some(
                #[trigger] all[i],
            ) by {
            if i < some.len() {
                assert(all[i] == some[i]);
                let k = choose|k: int|
                    0 <= k < before.len() && value_of(#[trigger] before[k], "cpu MHz"@) == Some(
                        some[i],
                    );
                assert(lines[k] == before[k]);
            }
        }
        if forall|k: int|
            0 <= k < lines.len() ==> value_of(#[trigger] lines[k], "cpu MHz"@) is Some {
            assert forall|k: int| 0 <= k < before.len() implies value_of(
                #[trigger] before[k],
                "cpu MHz"@,
            ) is Some by {
                assert(before[k] == lines[k]);
            }
            assert forall|k: int| 0 <= k < lines.len() implies value_of(
                #[trigger] lines[k],
                "cpu MHz"@,
            ) == Some(all[k]) by {
                if k < before.len() {
                    assert(before[k] == lines[k]);
                    assert(all[k] == some[k]);
                }
            }
        }
    }
}

/// A name loses its ending, every one of it, and nothing else.
pub proof fn law_endings_are_taken_off(s: Seq<char>, suffix: Seq<char>)
    requires
        suffix.len() > 0,
    ensures
        shorn(s + suffix, suffix) == shorn(s, suffix),
        !suffix.is_suffix_of(s) ==> shorn(s, suffix) == s,
{
    let all = s + suffix;
    assert(all.subrange(s.len() as int, all.len() as int) =~= suffix);
    assert(suffix.is_suffix_of(all));
    assert(all.take(s.len() as int) =~= s);
}

/// The model is that of the first line that names one.
pub proof fn law_the_model_is_the_first_that_is_named(lines: Seq<Seq<char>>, i: int)
    requires
        0 <= i < lines.len(),
        value_of(lines[i], "model name"@) is Some,
        forall|k: int| 0 <= k < i ==> value_of(#[trigger] lines[k], "model name"@) is None,
    ensures
        model_in(lines) == shorn(value_of(lines[i], "model name"@)->0, " Processor"@),
    decreases lines.len(),
{
    if i > 0 {
        let rest = lines.skip(1);
        assert(value_of(lines[0], "model name"@) is None);
        assert(rest[i - 1] == lines[i]);
        assert forall|k: int| 0 <= k < i - 1 implies value_of(
            #[trigger] rest[k],
            "model name"@,
        ) is None by {
            assert(rest[k] == lines[k + 1]);
        }
        law_the_model_is_the_first_that_is_named(rest, i - 1);
    }
}

/// A line has the value behind its colon, where it starts with the key.
pub proof fn law_lines_have_the_value_behind_their_colon(
    key: Seq<char>,
    blank: Seq<char>,
    value: Seq<char>,
)
    requires
        !blank.contains(':'),
    ensures
        value_of(key + (blank + seq![':'] + value), key) == Some(trimmed(value)),
{
    let rest = blank + seq![':'] + value;
    let line = key + rest;
    assert(line.subrange(0, key.len() as int) =~= key);
    assert(key.is_prefix_of(line));
    assert(line.skip(key.len() as int) =~= rest);
    rest.index_of_first_ensures(':');
    let at = blank.len() as int;
    assert(rest[at] == ':');
    assert(rest.contains(':'));
    assert forall|k: int| 0 <= k < at implies rest[k] != ':' by {
        assert(rest[k] == blank[k]);
        assert(blank.contains(blank[k]));
    }
    assert(rest.skip(at + 1) =~= value);
}

/// The glyph of a temperature rises with it.
pub proof fn law_temperatures_have_the_glyph_of_their_range(temp: i64)
    ensures
        temp < THIRTY ==> temp_of(temp).0 == "\u{f10c3}"@,
        THIRTY <= temp < SIXTY ==> temp_of(temp).0 == "\u{f050f}"@,
        SIXTY <= temp < NINETY ==> temp_of(temp).0 == "\u{f10c2}"@,
        temp >= NINETY ==> temp_of(temp).0 == "\u{f0026}"@,
{
}

} // verus!
