//! What the popup of the queue lists, and in what order.
use crate::mlq::extension::{elapsed, Extension, RECENT};
use crate::mlq::frame::{
    active, active_rows, attention, attention_rows, attention_view, entries, finished, group_of,
    is_drawn, names_in, popup_view, recent, recent_rows, running_view, section, turn_of, waiting,
    waiting_rows, waiting_view, Drawn, Ended, EntryView, Group, JobRowView, Longest, Turn,
};
use crate::mlq::job::Job;
use crate::order::{
    in_line, law_sorting_keeps_everything, law_sorting_sorts, lemma_in_line_has,
    lemma_in_line_once, lemma_in_line_within, Ranked,
};
use vstd::prelude::*;

verus! {

/// The rows of jobs among the entries of a popup, top to bottom.
pub open spec fn job_rows(entries: Seq<EntryView>) -> Seq<JobRowView>
    decreases entries.len(),
{
    if entries.len() == 0 {
        Seq::empty()
    } else {
        let before = job_rows(entries.drop_last());
        match entries.last() {
            EntryView::Job(row) => before.push(row),
            _ => before,
        }
    }
}

/// The jobs that have not finished, as the popup lists them from top to bottom.
pub open spec fn unfinished(jobs: Seq<Job>, started: Map<i64, i64>, now: i64) -> Seq<usize> {
    attention(jobs, now) + in_line(active(jobs, started, now)).map_values(|l: Longest| l.job)
        + in_line(waiting(jobs, now)).map_values(|t: Turn| t.job)
}

/// The row of a job that has not finished.
pub open spec fn row_of(e: Extension, jobs: Seq<Job>, i: usize, now: i64, clock: u64) -> JobRowView {
    let job = jobs[i as int];
    match group_of(job, now) {
        Group::Attention => attention_view(e.armed, job, clock),
        Group::Active => running_view(e.started@, e.armed, job, now, clock),
        _ => waiting_view(e.armed, job, names_in(jobs), clock),
    }
}

/// Whether the popup may list `a` above `b`, neither of which has finished:
/// what needs attention, then what runs, the longest first, then what waits, in
/// the order of its turns.
pub open spec fn above(a: Job, b: Job, started: Map<i64, i64>, now: i64) -> bool {
    match (group_of(a, now), group_of(b, now)) {
        (Group::Attention, _) => true,
        (Group::Active, Group::Active) => elapsed(started, a.id, now) >= elapsed(
            started,
            b.id,
            now,
        ),
        (Group::Active, group) => group == Group::Waiting,
        (_, group) => group == Group::Waiting && !turn_of(b, 0).precedes(&turn_of(a, 0)),
    }
}

proof fn lemma_job_rows_of_both(a: Seq<EntryView>, b: Seq<EntryView>)
    ensures
        job_rows(a + b) == job_rows(a) + job_rows(b),
    decreases b.len(),
{
    if b.len() == 0 {
        assert(a + b =~= a);
        assert(job_rows(a) + job_rows(b) =~= job_rows(a));
    } else {
        lemma_job_rows_of_both(a, b.drop_last());
        assert((a + b).drop_last() =~= a + b.drop_last());
        assert(job_rows(a + b) =~= job_rows(a) + job_rows(b));
    }
}

proof fn lemma_job_rows_of_section(title: Seq<char>, rows: Seq<JobRowView>)
    ensures
        job_rows(section(title, rows)) == rows,
    decreases rows.len(),
{
    let entries = section(title, rows);
    if rows.len() == 0 {
        assert(job_rows(entries) =~= rows);
    } else {
        let most = rows.drop_last();
        lemma_job_rows_of_section(title, most);
        assert(entries.last() == EntryView::Job(rows.last()));
        if most.len() == 0 {
            assert(entries.drop_last() =~= seq![EntryView::Section(title)]);
            assert(entries.drop_last().drop_last() =~= Seq::empty());
            reveal_with_fuel(job_rows, 2);
        } else {
            assert(entries.drop_last() =~= section(title, most));
        }
        assert(job_rows(entries) =~= rows);
    }
}

proof fn lemma_job_rows(
    e: Extension,
    jobs: Seq<Job>,
    now: i64,
    clock: u64,
    ended: Seq<Seq<char>>,
)
    ensures
        job_rows(popup_view(e, jobs, now, clock, ended)) == attention_rows(e, jobs, now, clock)
            + active_rows(e, jobs, now, clock) + waiting_rows(e, jobs, now, clock) + recent_rows(
            jobs,
            now,
            ended,
        ),
{
    let (a, b, c, d) = (
        attention_rows(e, jobs, now, clock),
        active_rows(e, jobs, now, clock),
        waiting_rows(e, jobs, now, clock),
        recent_rows(jobs, now, ended),
    );
    let error = match e.error {
        Some(error) => seq![EntryView::Error(error@)],
        None => Seq::empty(),
    };
    assert(job_rows(error) =~= Seq::empty()) by {
        reveal_with_fuel(job_rows, 2);
        if error.len() > 0 {
            assert(error.drop_last() =~= Seq::empty());
        }
    }
    lemma_job_rows_of_section("needs attention"@, a);
    lemma_job_rows_of_section("running"@, b);
    lemma_job_rows_of_section("up next"@, c);
    lemma_job_rows_of_section("recent"@, d);
    let first = error + section("needs attention"@, a);
    let second = first + section("running"@, b);
    let third = second + section("up next"@, c);
    lemma_job_rows_of_both(error, section("needs attention"@, a));
    lemma_job_rows_of_both(first, section("running"@, b));
    lemma_job_rows_of_both(second, section("up next"@, c));
    lemma_job_rows_of_both(third, section("recent"@, d));
    assert(job_rows(first) =~= a);
}

/// What a group holds: each job of it once, and nothing else.
spec fn holds(places: Seq<usize>, jobs: Seq<Job>, inside: spec_fn(Job) -> bool) -> bool {
    &&& forall|k: int|
        0 <= k < places.len() ==> (#[trigger] places[k]) < jobs.len() && inside(
            jobs[places[k] as int],
        )
    &&& forall|i: usize| #![trigger places.contains(i)]
        i < jobs.len() && inside(jobs[i as int]) ==> places.contains(i)
    &&& places.no_duplicates()
}

proof fn lemma_holds_one_more(
    most: Seq<usize>,
    places: Seq<usize>,
    jobs: Seq<Job>,
    inside: spec_fn(Job) -> bool,
)
    requires
        0 < jobs.len() <= usize::MAX,
        holds(most, jobs.drop_last(), inside),
        places == if inside(jobs.last()) {
            most.push((jobs.len() - 1) as usize)
        } else {
            most
        },
    ensures
        holds(places, jobs, inside),
{
    let before = jobs.drop_last();
    assert forall|k: int| 0 <= k < places.len() implies (#[trigger] places[k]) < jobs.len()
        && inside(jobs[places[k] as int]) by {
        if k < most.len() {
            assert(places[k] == most[k]);
            assert(before[most[k] as int] == jobs[most[k] as int]);
        }
    }
    assert forall|i: usize| #![trigger places.contains(i)]
        i < jobs.len() && inside(jobs[i as int]) implies places.contains(i) by {
        if i < before.len() {
            assert(before[i as int] == jobs[i as int]);
            assert(most.contains(i));
            let k = choose|k: int| 0 <= k < most.len() && most[k] == i;
            assert(places[k] == i);
        } else {
            assert(places[most.len() as int] == i);
        }
    }
}

proof fn lemma_attention(jobs: Seq<Job>, now: i64)
    requires
        jobs.len() <= usize::MAX,
    ensures
        holds(attention(jobs, now), jobs, |job: Job| group_of(job, now) == Group::Attention),
    decreases jobs.len(),
{
    if jobs.len() > 0 {
        lemma_attention(jobs.drop_last(), now);
        lemma_holds_one_more(
            attention(jobs.drop_last(), now),
            attention(jobs, now),
            jobs,
            |job: Job| group_of(job, now) == Group::Attention,
        );
    }
}

proof fn lemma_active(jobs: Seq<Job>, started: Map<i64, i64>, now: i64)
    requires
        jobs.len() <= usize::MAX,
    ensures
        holds(
            active(jobs, started, now).map_values(|l: Longest| l.job),
            jobs,
            |job: Job| group_of(job, now) == Group::Active,
        ),
        forall|k: int|
            0 <= k < active(jobs, started, now).len() ==> (#[trigger] active(
                jobs,
                started,
                now,
            )[k]).elapsed_ms == elapsed(
                started,
                jobs[active(jobs, started, now)[k].job as int].id,
                now,
            ),
    decreases jobs.len(),
{
    if jobs.len() > 0 {
        let before = jobs.drop_last();
        lemma_active(before, started, now);
        let (most, all) = (active(before, started, now), active(jobs, started, now));
        let (had, has) = (
            most.map_values(|l: Longest| l.job),
            all.map_values(|l: Longest| l.job),
        );
        let inside = |job: Job| group_of(job, now) == Group::Active;
        if inside(jobs.last()) {
            assert(has =~= had.push((jobs.len() - 1) as usize));
        }
        lemma_holds_one_more(had, has, jobs, inside);
        assert forall|k: int| 0 <= k < all.len() implies (#[trigger] all[k]).elapsed_ms == elapsed(
            started,
            jobs[all[k].job as int].id,
            now,
        ) by {
            if k < most.len() {
                assert(all[k] == most[k]);
                assert(had[k] < before.len());
            }
        }
    }
}

proof fn lemma_waiting(jobs: Seq<Job>, now: i64)
    requires
        jobs.len() <= usize::MAX,
    ensures
        holds(
            waiting(jobs, now).map_values(|t: Turn| t.job),
            jobs,
            |job: Job| group_of(job, now) == Group::Waiting,
        ),
        forall|k: int|
            0 <= k < waiting(jobs, now).len() ==> #[trigger] waiting(jobs, now)[k] == turn_of(
                jobs[waiting(jobs, now)[k].job as int],
                waiting(jobs, now)[k].job,
            ),
    decreases jobs.len(),
{
    if jobs.len() > 0 {
        let before = jobs.drop_last();
        lemma_waiting(before, now);
        let (most, all) = (waiting(before, now), waiting(jobs, now));
        let (had, has) = (most.map_values(|t: Turn| t.job), all.map_values(|t: Turn| t.job));
        let inside = |job: Job| group_of(job, now) == Group::Waiting;
        if inside(jobs.last()) {
            assert(has =~= had.push((jobs.len() - 1) as usize));
        }
        lemma_holds_one_more(had, has, jobs, inside);
        assert forall|k: int| 0 <= k < all.len() implies #[trigger] all[k] == turn_of(
            jobs[all[k].job as int],
            all[k].job,
        ) by {
            if k < most.len() {
                assert(all[k] == most[k]);
                assert(had[k] < before.len());
            }
        }
    }
}

proof fn lemma_finished(jobs: Seq<Job>, now: i64)
    requires
        jobs.len() <= usize::MAX,
    ensures
        holds(
            finished(jobs, now).map_values(|f: Ended| f.job),
            jobs,
            |job: Job| group_of(job, now) is Recent,
        ),
        forall|k: int|
            0 <= k < finished(jobs, now).len() ==> group_of(
                jobs[(#[trigger] finished(jobs, now)[k]).job as int],
                now,
            ) == Group::Recent(finished(jobs, now)[k].at),
    decreases jobs.len(),
{
    if jobs.len() > 0 {
        let before = jobs.drop_last();
        lemma_finished(before, now);
        let (most, all) = (finished(before, now), finished(jobs, now));
        let (had, has) = (most.map_values(|f: Ended| f.job), all.map_values(|f: Ended| f.job));
        let inside = |job: Job| group_of(job, now) is Recent;
        if inside(jobs.last()) {
            assert(has =~= had.push((jobs.len() - 1) as usize));
        }
        lemma_holds_one_more(had, has, jobs, inside);
        assert forall|k: int| 0 <= k < all.len() implies group_of(
            jobs[(#[trigger] all[k]).job as int],
            now,
        ) == Group::Recent(all[k].at) by {
            if k < most.len() {
                assert(all[k] == most[k]);
                assert(had[k] < before.len());
            }
        }
    }
}

/// A group holds in line what it held before.
proof fn lemma_holds_in_line<T: Ranked>(
    s: Seq<T>,
    place: spec_fn(T) -> usize,
    jobs: Seq<Job>,
    inside: spec_fn(Job) -> bool,
)
    requires
        holds(s.map_values(place), jobs, inside),
    ensures
        holds(in_line(s).map_values(place), jobs, inside),
{
    let (before, after) = (s.map_values(place), in_line(s).map_values(place));
    let line = in_line(s);
    assert forall|k: int| 0 <= k < after.len() implies (#[trigger] after[k]) < jobs.len() && inside(
        jobs[after[k] as int],
    ) by {
        lemma_in_line_within(s, k);
        let j = choose|j: int| 0 <= j < s.len() && s[j] == line[k];
        assert(before[j] == after[k]);
    }
    assert forall|i: usize| #![trigger after.contains(i)]
        i < jobs.len() && inside(jobs[i as int]) implies after.contains(i) by {
        assert(before.contains(i));
        let j = choose|j: int| 0 <= j < before.len() && before[j] == i;
        lemma_in_line_has(s, j);
        let k = choose|k: int| 0 <= k < line.len() && line[k] == s[j];
        assert(after[k] == i);
    }
    assert(s.no_duplicates()) by {
        assert forall|a: int, b: int| 0 <= a < s.len() && 0 <= b < s.len() && a != b implies s[a]
            != s[b] by {
            assert(before[a] != before[b]);
        }
    }
    lemma_in_line_once(s);
    assert forall|a: int, b: int|
        0 <= a < after.len() && 0 <= b < after.len() && a != b implies after[a] != after[b] by {
        lemma_in_line_within(s, a);
        lemma_in_line_within(s, b);
        let x = choose|x: int| 0 <= x < s.len() && s[x] == line[a];
        let y = choose|y: int| 0 <= y < s.len() && s[y] == line[b];
        assert(line[a] != line[b]);
        assert(before[x] != before[y]);
    }
}

/// The groups in line hold what they held, each in its order.
proof fn lemma_lines(jobs: Seq<Job>, started: Map<i64, i64>, now: i64)
    requires
        jobs.len() <= usize::MAX,
    ensures
        holds(
            in_line(active(jobs, started, now)).map_values(|l: Longest| l.job),
            jobs,
            |job: Job| group_of(job, now) == Group::Active,
        ),
        holds(
            in_line(waiting(jobs, now)).map_values(|t: Turn| t.job),
            jobs,
            |job: Job| group_of(job, now) == Group::Waiting,
        ),
        forall|a: int, b: int|
            #![trigger in_line(active(jobs, started, now))[a], in_line(
                active(jobs, started, now),
            )[b]]
            0 <= a < b < in_line(active(jobs, started, now)).len() ==> above(
                jobs[in_line(active(jobs, started, now))[a].job as int],
                jobs[in_line(active(jobs, started, now))[b].job as int],
                started,
                now,
            ),
        forall|a: int, b: int|
            #![trigger in_line(waiting(jobs, now))[a], in_line(waiting(jobs, now))[b]]
            0 <= a < b < in_line(waiting(jobs, now)).len() ==> above(
                jobs[in_line(waiting(jobs, now))[a].job as int],
                jobs[in_line(waiting(jobs, now))[b].job as int],
                started,
                now,
            ),
{
    let (running, queued) = (active(jobs, started, now), waiting(jobs, now));
    let (first, second) = (in_line(running), in_line(queued));
    lemma_active(jobs, started, now);
    lemma_waiting(jobs, now);
    lemma_holds_in_line(
        running,
        |l: Longest| l.job,
        jobs,
        |job: Job| group_of(job, now) == Group::Active,
    );
    lemma_holds_in_line(
        queued,
        |t: Turn| t.job,
        jobs,
        |job: Job| group_of(job, now) == Group::Waiting,
    );
    law_sorting_sorts(running);
    law_sorting_sorts(queued);
    assert forall|a: int, b: int| #![trigger first[a], first[b]] 0 <= a < b < first.len() implies above(
        jobs[first[a].job as int],
        jobs[first[b].job as int],
        started,
        now,
    ) by {
        let places = first.map_values(|l: Longest| l.job);
        assert(places[a] == first[a].job && places[b] == first[b].job);
        lemma_in_line_within(running, a);
        lemma_in_line_within(running, b);
        let x = choose|x: int| 0 <= x < running.len() && running[x] == first[a];
        let y = choose|y: int| 0 <= y < running.len() && running[y] == first[b];
        assert(!first[b].precedes(&first[a]));
    }
    assert forall|a: int, b: int| #![trigger second[a], second[b]] 0 <= a < b < second.len() implies above(
        jobs[second[a].job as int],
        jobs[second[b].job as int],
        started,
        now,
    ) by {
        let places = second.map_values(|t: Turn| t.job);
        assert(places[a] == second[a].job && places[b] == second[b].job);
        lemma_in_line_within(queued, a);
        lemma_in_line_within(queued, b);
        let x = choose|x: int| 0 <= x < queued.len() && queued[x] == second[a];
        let y = choose|y: int| 0 <= y < queued.len() && queued[y] == second[b];
        assert(!second[b].precedes(&second[a]));
    }
}

/// Every job that has not finished has exactly one row in the popup, above the
/// rows of the finished ones: the jobs that need attention, then those that
/// hold a slot, the longest-running first, then the rest in the order of their
/// turns.
pub proof fn law_unfinished_jobs_have_one_row_each(
    e: Extension,
    jobs: Seq<Job>,
    now: i64,
    clock: u64,
    ended: Seq<Seq<char>>,
)
    requires
        jobs.len() <= usize::MAX,
    ensures
        unfinished(jobs, e.started@, now).no_duplicates(),
        forall|i: usize| #![trigger jobs[i as int]]
            unfinished(jobs, e.started@, now).contains(i) <==> i < jobs.len()
                && !(jobs[i as int].finished is At),
        forall|a: int, b: int|
            #![trigger unfinished(jobs, e.started@, now)[a], unfinished(jobs, e.started@, now)[b]]
            0 <= a < b < unfinished(jobs, e.started@, now).len() ==> above(
                jobs[unfinished(jobs, e.started@, now)[a] as int],
                jobs[unfinished(jobs, e.started@, now)[b] as int],
                e.started@,
                now,
            ),
        job_rows(popup_view(e, jobs, now, clock, ended)) == unfinished(
            jobs,
            e.started@,
            now,
        ).map_values(|i: usize| row_of(e, jobs, i, now, clock)) + recent_rows(jobs, now, ended),
{
    let started = e.started@;
    let all = unfinished(jobs, started, now);
    let first = attention(jobs, now);
    let second = in_line(active(jobs, started, now)).map_values(|l: Longest| l.job);
    let third = in_line(waiting(jobs, now)).map_values(|t: Turn| t.job);
    let (n, m) = (first.len() as int, first.len() + second.len());
    lemma_attention(jobs, now);
    lemma_lines(jobs, started, now);
    lemma_job_rows(e, jobs, now, clock, ended);
    assert forall|k: int| 0 <= k < all.len() implies {
        &&& (#[trigger] all[k]) < jobs.len()
        &&& group_of(jobs[all[k] as int], now) == if k < n {
            Group::Attention
        } else if k < m {
            Group::Active
        } else {
            Group::Waiting
        }
    } by {
        if k < n {
            assert(all[k] == first[k]);
        } else if k < m {
            assert(all[k] == second[k - n]);
        } else {
            assert(all[k] == third[k - m]);
        }
    }
    assert(all.no_duplicates()) by {
        assert forall|a: int, b: int| 0 <= a < all.len() && 0 <= b < all.len() && a
            != b implies all[a] != all[b] by {
            if a < n && b < n {
                assert(all[a] == first[a] && all[b] == first[b]);
            } else if n <= a < m && n <= b < m {
                assert(all[a] == second[a - n] && all[b] == second[b - n]);
            } else if m <= a && m <= b {
                assert(all[a] == third[a - m] && all[b] == third[b - m]);
            }
        }
    }
    assert forall|i: usize| #![trigger jobs[i as int]]
        all.contains(i) <==> i < jobs.len() && !(jobs[i as int].finished is At) by {
        if i < jobs.len() && !(jobs[i as int].finished is At) {
            match group_of(jobs[i as int], now) {
                Group::Attention => {
                    assert(first.contains(i));
                    let k = choose|k: int| 0 <= k < first.len() && first[k] == i;
                    assert(all[k] == i);
                },
                Group::Active => {
                    assert(second.contains(i));
                    let k = choose|k: int| 0 <= k < second.len() && second[k] == i;
                    assert(all[n + k] == i);
                },
                _ => {
                    assert(third.contains(i));
                    let k = choose|k: int| 0 <= k < third.len() && third[k] == i;
                    assert(all[m + k] == i);
                },
            }
        }
        if all.contains(i) {
            let k = choose|k: int| 0 <= k < all.len() && all[k] == i;
            assert(all[k] < jobs.len());
        }
    }
    assert forall|a: int, b: int| #![trigger all[a], all[b]] 0 <= a < b < all.len() implies above(
        jobs[all[a] as int],
        jobs[all[b] as int],
        started,
        now,
    ) by {
        if n <= a && b < m {
            assert(all[a] == in_line(active(jobs, started, now))[a - n].job);
            assert(all[b] == in_line(active(jobs, started, now))[b - n].job);
        } else if m <= a {
            assert(all[a] == in_line(waiting(jobs, now))[a - m].job);
            assert(all[b] == in_line(waiting(jobs, now))[b - m].job);
        }
    }
    let rows = all.map_values(|i: usize| row_of(e, jobs, i, now, clock));
    let (x, y, z) = (
        attention_rows(e, jobs, now, clock),
        active_rows(e, jobs, now, clock),
        waiting_rows(e, jobs, now, clock),
    );
    assert(rows =~= x + y + z) by {
        assert(rows.len() == (x + y + z).len());
        assert forall|k: int| 0 <= k < rows.len() implies #[trigger] rows[k] == (x + y + z)[k] by {
            assert(all[k] < jobs.len());
            if k < n {
                assert(all[k] == first[k]);
            } else if k < m {
                assert(all[k] == second[k - n]);
            } else {
                assert(all[k] == third[k - m]);
            }
        }
    }
}

/// The recent rows are of the latest among the jobs that finished within the
/// window, as many as there are but no more than the popup has room for, the
/// newest first.
pub proof fn law_recent_jobs_are_the_latest(jobs: Seq<Job>, now: i64, ended: Seq<Seq<char>>)
    requires
        jobs.len() <= usize::MAX,
    ensures
        recent_rows(jobs, now, ended).len() == recent(jobs, now).len(),
        recent(jobs, now).len() == if finished(jobs, now).len() < RECENT {
            finished(jobs, now).len()
        } else {
            RECENT as nat
        },
        recent(jobs, now).map_values(|f: Ended| f.job).no_duplicates(),
        forall|k: int|
            0 <= k < recent(jobs, now).len() ==> {
                &&& (#[trigger] recent(jobs, now)[k]).job < jobs.len()
                &&& group_of(jobs[recent(jobs, now)[k].job as int], now) == Group::Recent(
                    recent(jobs, now)[k].at,
                )
            },
        forall|a: int, b: int|
            #![trigger recent(jobs, now)[a], recent(jobs, now)[b]]
            0 <= a < b < recent(jobs, now).len() ==> recent(jobs, now)[a].at >= recent(
                jobs,
                now,
            )[b].at,
        forall|i: usize, k: int|
            #![trigger jobs[i as int], recent(jobs, now)[k]]
            i < jobs.len() && 0 <= k < recent(jobs, now).len() && !recent(jobs, now).map_values(
                |f: Ended| f.job,
            ).contains(i) ==> match group_of(jobs[i as int], now) {
                Group::Recent(at) => at <= recent(jobs, now)[k].at,
                _ => true,
            },
{
    let line = in_line(finished(jobs, now));
    let kept = recent(jobs, now);
    let inside = |job: Job| group_of(job, now) is Recent;
    let (places, rows) = (line.map_values(|f: Ended| f.job), kept.map_values(|f: Ended| f.job));
    lemma_finished(jobs, now);
    lemma_holds_in_line(finished(jobs, now), |f: Ended| f.job, jobs, inside);
    law_sorting_keeps_everything(finished(jobs, now));
    law_sorting_sorts(finished(jobs, now));
    assert forall|k: int| 0 <= k < line.len() implies {
        &&& (#[trigger] line[k]).job < jobs.len()
        &&& group_of(jobs[line[k].job as int], now) == Group::Recent(line[k].at)
    } by {
        assert(places[k] == line[k].job);
        lemma_in_line_within(finished(jobs, now), k);
        let j = choose|j: int|
            0 <= j < finished(jobs, now).len() && finished(jobs, now)[j] == line[k];
        assert(finished(jobs, now)[j] == line[k]);
    }
    assert forall|k: int| 0 <= k < kept.len() implies {
        &&& (#[trigger] kept[k]).job < jobs.len()
        &&& group_of(jobs[kept[k].job as int], now) == Group::Recent(kept[k].at)
    } by {
        assert(kept[k] == line[k]);
    }
    assert forall|a: int, b: int| 0 <= a < rows.len() && 0 <= b < rows.len() && a != b implies rows[a]
        != rows[b] by {
        assert(rows[a] == places[a] && rows[b] == places[b]);
    }
    assert forall|a: int, b: int| #![trigger kept[a], kept[b]] 0 <= a < b < kept.len() implies kept[a].at
        >= kept[b].at by {
        assert(!line[b].precedes(&line[a]));
    }
    assert forall|i: usize, k: int|
        #![trigger jobs[i as int], kept[k]]
        i < jobs.len() && 0 <= k < kept.len() && !rows.contains(i) implies match group_of(
        jobs[i as int],
        now,
    ) {
        Group::Recent(at) => at <= kept[k].at,
        _ => true,
    } by {
        if group_of(jobs[i as int], now) is Recent {
            assert(places.contains(i));
            let j = choose|j: int| 0 <= j < places.len() && places[j] == i;
            assert(line[j].job == i);
            if j < kept.len() {
                assert(rows[j] == i);
            }
            assert(!line[j].precedes(&line[k]));
        }
    }
}

proof fn lemma_titles(title: Seq<char>, rows: Seq<JobRowView>, other: Seq<char>)
    ensures
        section(title, rows).contains(EntryView::Section(other)) <==> title == other && rows.len()
            > 0,
{
    let entries = section(title, rows);
    if rows.len() > 0 {
        assert(entries[0] == EntryView::Section(title));
        assert forall|k: int| 0 < k < entries.len() implies #[trigger] entries[k] == EntryView::Job(
            rows[k - 1],
        ) by {}
    }
}

proof fn lemma_either<A>(a: Seq<A>, b: Seq<A>, x: A)
    ensures
        (a + b).contains(x) <==> a.contains(x) || b.contains(x),
{
    let both = a + b;
    if a.contains(x) {
        let k = choose|k: int| 0 <= k < a.len() && a[k] == x;
        assert(both[k] == x);
    }
    if b.contains(x) {
        let k = choose|k: int| 0 <= k < b.len() && b[k] == x;
        assert(both[a.len() + k] == x);
    }
}

/// Whether some job is in a group.
pub open spec fn some_in(jobs: Seq<Job>, inside: spec_fn(Job) -> bool) -> bool {
    exists|i: usize| i < jobs.len() && inside(#[trigger] jobs[i as int])
}

/// A section stands in the popup if and only if its group holds a job.
pub proof fn law_empty_groups_have_no_section(
    e: Extension,
    jobs: Seq<Job>,
    now: i64,
    clock: u64,
    ended: Seq<Seq<char>>,
)
    requires
        jobs.len() <= usize::MAX,
    ensures
        popup_view(e, jobs, now, clock, ended).contains(EntryView::Section("needs attention"@))
            <==> some_in(jobs, |job: Job| group_of(job, now) == Group::Attention),
        popup_view(e, jobs, now, clock, ended).contains(EntryView::Section("running"@))
            <==> some_in(jobs, |job: Job| group_of(job, now) == Group::Active),
        popup_view(e, jobs, now, clock, ended).contains(EntryView::Section("up next"@))
            <==> some_in(jobs, |job: Job| group_of(job, now) == Group::Waiting),
        popup_view(e, jobs, now, clock, ended).contains(EntryView::Section("recent"@))
            <==> some_in(jobs, |job: Job| group_of(job, now) is Recent),
{
    lemma_attention(jobs, now);
    lemma_active(jobs, e.started@, now);
    lemma_waiting(jobs, now);
    lemma_finished(jobs, now);
    law_sorting_keeps_everything(active(jobs, e.started@, now));
    law_sorting_keeps_everything(waiting(jobs, now));
    law_sorting_keeps_everything(finished(jobs, now));
    lemma_some_in(attention(jobs, now), jobs, |job: Job| group_of(job, now) == Group::Attention);
    lemma_some_in(
        active(jobs, e.started@, now).map_values(|l: Longest| l.job),
        jobs,
        |job: Job| group_of(job, now) == Group::Active,
    );
    lemma_some_in(
        waiting(jobs, now).map_values(|t: Turn| t.job),
        jobs,
        |job: Job| group_of(job, now) == Group::Waiting,
    );
    lemma_some_in(
        finished(jobs, now).map_values(|f: Ended| f.job),
        jobs,
        |job: Job| group_of(job, now) is Recent,
    );
    reveal_strlit("needs attention");
    reveal_strlit("running");
    reveal_strlit("up next");
    reveal_strlit("recent");
    assert("running"@[0] == 'r' && "running"@[1] == 'u' && "up next"@[0] == 'u' && "recent"@[0]
        == 'r' && "recent"@[1] == 'e' && "needs attention"@[0] == 'n');
    lemma_section_shown(e, jobs, now, clock, ended, "needs attention"@);
    lemma_section_shown(e, jobs, now, clock, ended, "running"@);
    lemma_section_shown(e, jobs, now, clock, ended, "up next"@);
    lemma_section_shown(e, jobs, now, clock, ended, "recent"@);
}

proof fn lemma_some_in(places: Seq<usize>, jobs: Seq<Job>, inside: spec_fn(Job) -> bool)
    requires
        holds(places, jobs, inside),
    ensures
        some_in(jobs, inside) <==> places.len() > 0,
{
    if places.len() > 0 {
        assert(inside(jobs[places[0] as int]));
    }
    if some_in(jobs, inside) {
        let i = choose|i: usize| i < jobs.len() && inside(#[trigger] jobs[i as int]);
        assert(places.contains(i));
    }
}

proof fn lemma_section_shown(
    e: Extension,
    jobs: Seq<Job>,
    now: i64,
    clock: u64,
    ended: Seq<Seq<char>>,
    title: Seq<char>,
)
    ensures
        popup_view(e, jobs, now, clock, ended).contains(EntryView::Section(title)) <==> {
            ||| title == "needs attention"@ && attention_rows(e, jobs, now, clock).len() > 0
            ||| title == "running"@ && active_rows(e, jobs, now, clock).len() > 0
            ||| title == "up next"@ && waiting_rows(e, jobs, now, clock).len() > 0
            ||| title == "recent"@ && recent_rows(jobs, now, ended).len() > 0
        },
{
    let x = EntryView::Section(title);
    let (a, b, c, d) = (
        section("needs attention"@, attention_rows(e, jobs, now, clock)),
        section("running"@, active_rows(e, jobs, now, clock)),
        section("up next"@, waiting_rows(e, jobs, now, clock)),
        section("recent"@, recent_rows(jobs, now, ended)),
    );
    let error = match e.error {
        Some(error) => seq![EntryView::Error(error@)],
        None => Seq::empty(),
    };
    lemma_titles("needs attention"@, attention_rows(e, jobs, now, clock), title);
    lemma_titles("running"@, active_rows(e, jobs, now, clock), title);
    lemma_titles("up next"@, waiting_rows(e, jobs, now, clock), title);
    lemma_titles("recent"@, recent_rows(jobs, now, ended), title);
    lemma_either(error, a, x);
    lemma_either(error + a, b, x);
    lemma_either(error + a + b, c, x);
    lemma_either(error + a + b + c, d, x);
}

/// What is drawn of a queue lists its unfinished jobs, one row each, and below
/// them the latest that finished, and no section without a job.
pub proof fn law_a_frame_lists_its_jobs(
    drawn: Drawn,
    e: Extension,
    now: i64,
    clock: u64,
    ended: Seq<Seq<char>>,
)
    requires
        e.status is Some,
        is_drawn(drawn, e, now, clock, ended),
    ensures
        job_rows(entries(drawn.popup@)) == unfinished(
            e.status->0.jobs@,
            e.started@,
            now,
        ).map_values(|i: usize| row_of(e, e.status->0.jobs@, i, now, clock)) + recent_rows(
            e.status->0.jobs@,
            now,
            ended,
        ),
        entries(drawn.popup@).contains(EntryView::Section("needs attention"@)) <==> some_in(
            e.status->0.jobs@,
            |job: Job| group_of(job, now) == Group::Attention,
        ),
        entries(drawn.popup@).contains(EntryView::Section("running"@)) <==> some_in(
            e.status->0.jobs@,
            |job: Job| group_of(job, now) == Group::Active,
        ),
        entries(drawn.popup@).contains(EntryView::Section("up next"@)) <==> some_in(
            e.status->0.jobs@,
            |job: Job| group_of(job, now) == Group::Waiting,
        ),
        entries(drawn.popup@).contains(EntryView::Section("recent"@)) <==> some_in(
            e.status->0.jobs@,
            |job: Job| group_of(job, now) is Recent,
        ),
{
    let jobs = e.status->0.jobs@;
    assert(e.status->0.jobs.len() == jobs.len());
    law_unfinished_jobs_have_one_row_each(e, jobs, now, clock, ended);
    law_empty_groups_have_no_section(e, jobs, now, clock, ended);
}

} // verus!
