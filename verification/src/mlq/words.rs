//! How the queue's jobs read: durations, reasons, what a job waits for, and
//! what a popup button asks of the daemon.
use crate::mlq::job::Job;
use crate::number::{decimal, i64_of, parse_i64, signed, signed_decimal, two, two_digits, unsigned};
use crate::text::{
    concat, concat4, cut_at, digit_runs, elide, elided, opt_text, replace, replaced, runs_of_digits,
    same, split_at_text, strip_prefix, strip_suffix, texts, unprefixed, unsuffixed,
};
use std::collections::HashMap;
use vstd::prelude::*;
use vstd::string::*;

verus! {

/// A job's name in the popup. Longer than the cell's: the popup has the room,
/// and two sweeps differing only in their last token are why the name exists.
pub const ROW_NAME_LIMIT: usize = 44;

pub const REASON_LIMIT: usize = 48;

/// A time in its largest units: `42s`, `25m`, `1h`, `1h05m`.
pub open spec fn duration_text(ms: int) -> Seq<char> {
    let seconds = if ms < 0 {
        0
    } else {
        ms / 1000
    };
    let minutes = seconds / 60;
    if seconds < 60 {
        decimal(seconds as nat) + "s"@
    } else if minutes < 60 {
        decimal(minutes as nat) + "m"@
    } else if minutes % 60 == 0 {
        decimal((minutes / 60) as nat) + "h"@
    } else {
        decimal((minutes / 60) as nat) + "h"@ + two_digits((minutes % 60) as nat) + "m"@
    }
}

pub fn duration(ms: i64) -> (r: String)
    ensures
        r@ == duration_text(ms as int),
{
    let seconds: u64 = if ms < 0 {
        0
    } else {
        ms as u64 / 1000
    };
    let minutes: u64 = seconds / 60;
    if seconds < 60 {
        concat(unsigned(seconds).as_str(), "s")
    } else if minutes < 60 {
        concat(unsigned(minutes).as_str(), "m")
    } else if minutes % 60 == 0 {
        concat(unsigned(minutes / 60).as_str(), "h")
    } else {
        concat4(unsigned(minutes / 60).as_str(), "h", two(minutes % 60).as_str(), "m")
    }
}

/// What a finished job's reason adds to its state.
pub open spec fn outcome_of(reason: Seq<char>) -> Option<Seq<char>> {
    let code = unprefixed(reason, "command exited with code "@);
    let signal = unprefixed(reason, "command terminated by signal "@);
    if code is Some {
        Some(elided("exit "@ + code->0, REASON_LIMIT as nat))
    } else if signal is Some {
        Some(elided("signal "@ + signal->0, REASON_LIMIT as nat))
    } else if time_limit(reason) is Some {
        Some("timed out at "@ + duration_text(time_limit(reason)->0 as int))
    } else if reason == ""@ || reason == "cancelled by request"@ {
        None
    } else if reason == "cancelled before start"@ {
        Some("before start"@)
    } else if reason == "cancelled before launch"@ {
        Some("before launch"@)
    } else {
        Some(elided(reason, REASON_LIMIT as nat))
    }
}

/// The time limit that a reason says was exceeded.
pub open spec fn time_limit(reason: Seq<char>) -> Option<i64> {
    match unprefixed(reason, "time limit of "@) {
        Some(rest) => match unsuffixed(rest, " ms exceeded"@) {
            Some(ms) => i64_of(ms),
            None => None,
        },
        None => None,
    }
}

/// A finished job's reason, shortened to what the state does not say.
pub fn outcome(reason: &str) -> (r: Option<String>)
    ensures
        opt_text(r) == outcome_of(reason@),
{
    match strip_prefix(reason, "command exited with code ") {
        Some(code) => {
            return Some(elide(concat("exit ", code).as_str(), REASON_LIMIT));
        },
        None => {},
    }
    match strip_prefix(reason, "command terminated by signal ") {
        Some(signal) => {
            return Some(elide(concat("signal ", signal).as_str(), REASON_LIMIT));
        },
        None => {},
    }
    match strip_prefix(reason, "time limit of ") {
        Some(rest) => match strip_suffix(rest, " ms exceeded") {
            Some(ms) => match parse_i64(ms) {
                Some(limit) => {
                    return Some(concat("timed out at ", duration(limit).as_str()));
                },
                None => {},
            },
            None => {},
        },
        None => {},
    }
    if same(reason, "") || same(reason, "cancelled by request") {
        None
    } else if same(reason, "cancelled before start") {
        Some("before start".to_owned())
    } else if same(reason, "cancelled before launch") {
        Some("before launch".to_owned())
    } else {
        Some(elide(reason, REASON_LIMIT))
    }
}

/// Where a job stands in the popup.
#[derive(Clone, Copy, PartialEq, Eq, Structural, Debug)]
pub enum Standing {
    /// The scheduler is holding a slot open for it.
    Next,
    /// Ready, and waiting its turn.
    Ready,
    /// Waiting on another job first.
    After,
    Held,
}

/// What a queued job is waiting for, said the way a person would.
#[derive(Debug, Clone)]
pub struct Wait {
    pub text: String,
    pub standing: Standing,
}

/// The daemon's word on why a job waits; a job without one has its state.
pub open spec fn eligibility_of(job: Job) -> Seq<char> {
    match opt_text(job.eligibility) {
        Some(code) => if code.len() > 0 {
            code
        } else {
            state_text(job)
        },
        None => state_text(job),
    }
}

pub open spec fn state_text(job: Job) -> Seq<char> {
    match opt_text(job.state) {
        Some(state) => state,
        None => Seq::empty(),
    }
}

/// The numbers among runs of digits that are not too large to be a job's.
pub open spec fn ids_in(runs: Seq<Seq<char>>) -> Seq<i64>
    decreases runs.len(),
{
    if runs.len() == 0 {
        Seq::empty()
    } else {
        let before = ids_in(runs.drop_last());
        match i64_of(runs.last()) {
            Some(id) => before.push(id),
            None => before,
        }
    }
}

/// A job of the same list by its name, any other by its number.
pub open spec fn called(id: i64, names: Map<i64, String>) -> Seq<char> {
    if names.dom().contains(id) {
        elided(names[id]@, ROW_NAME_LIMIT as nat)
    } else {
        "#"@ + signed_decimal(id as int)
    }
}

/// What a job waits for, from the daemon's code and the jobs it mentions.
pub open spec fn wait_text(code: Seq<char>, ids: Seq<i64>, names: Map<i64, String>) -> Seq<char> {
    let other = if ids.len() > 0 {
        called(ids[0], names)
    } else {
        "another job"@
    };
    if code == "protected_drain"@ {
        "next · when a slot frees"@
    } else if code == "supersedes_lower_priority"@ {
        "next · ahead of "@ + other
    } else if code == "waiting_for_slot"@ || code == "waiting_for_higher_priority"@ {
        "queued"@
    } else if code == "backfill_window_open"@ || code == "backfill_eligible"@ {
        "may fit in before "@ + other
    } else if code == "waiting_for_retry_delay"@ {
        "retrying shortly"@
    } else if code == "paused"@ {
        "paused"@
    } else if code == "admission_blocked"@ {
        "admission blocked"@
    } else if code == "behind_backfill_cutoff"@ || code == "backfill_bypass_consumed"@ {
        "after "@ + other
    } else if code == "waiting_for_dependencies"@ {
        if ids.len() == 0 {
            "after its dependencies"@
        } else if ids.len() == 1 {
            "after "@ + other
        } else {
            "after "@ + other + " +"@ + decimal((ids.len() - 1) as nat)
        }
    } else if code == "held"@ {
        "held"@
    } else {
        replaced(code, '_', ' ')
    }
}

pub open spec fn standing_of(code: Seq<char>) -> Standing {
    if code == "protected_drain"@ || code == "supersedes_lower_priority"@ {
        Standing::Next
    } else if code == "waiting_for_slot"@ || code == "waiting_for_higher_priority"@ || code
        == "backfill_window_open"@ || code == "backfill_eligible"@ || code
        == "waiting_for_retry_delay"@ || code == "paused"@ || code == "admission_blocked"@ {
        Standing::Ready
    } else if code == "behind_backfill_cutoff"@ || code == "backfill_bypass_consumed"@ || code
        == "waiting_for_dependencies"@ {
        Standing::After
    } else if code == "held"@ {
        Standing::Held
    } else {
        Standing::Ready
    }
}

/// The code and the detail of the daemon's word.
pub open spec fn code_of(eligibility: Seq<char>) -> (Seq<char>, Seq<char>) {
    match cut_at(eligibility, ": "@) {
        Some((code, detail)) => (code, detail),
        None => (eligibility, Seq::empty()),
    }
}

/// What `job` waits for, in words.
pub open spec fn waits_for(job: Job, names: Map<i64, String>) -> Seq<char> {
    let (code, detail) = code_of(eligibility_of(job));
    wait_text(code, ids_in(digit_runs(detail)), names)
}

/// Where `job` stands.
pub open spec fn stands(job: Job) -> Standing {
    standing_of(code_of(eligibility_of(job)).0)
}

fn find_ids(detail: &str) -> (r: Vec<i64>)
    ensures
        r@ == ids_in(digit_runs(detail@)),
{
    let runs = runs_of_digits(detail);
    let ghost all = texts(runs@);
    let mut ids: Vec<i64> = Vec::new();
    let mut i: usize = 0;
    while i < runs.len()
        invariant
            i <= runs@.len(),
            all == texts(runs@),
            ids@ == ids_in(all.take(i as int)),
        decreases runs@.len() - i,
    {
        proof {
            assert(all.take(i + 1).drop_last() =~= all.take(i as int));
            assert(all.take(i + 1).last() == runs@[i as int]@);
        }
        match parse_i64(runs[i].as_str()) {
            Some(id) => {
                ids.push(id);
            },
            None => {},
        }
        i += 1;
    }
    assert(all.take(i as int) =~= all);
    ids
}

fn call(id: i64, names: &HashMap<i64, String>) -> (r: String)
    ensures
        r@ == called(id, names@),
{
    broadcast use vstd::std_specs::hash::group_hash_axioms;

    match names.get(&id) {
        Some(name) => elide(name.as_str(), ROW_NAME_LIMIT),
        None => concat("#", signed(id).as_str()),
    }
}

/// What a queued job is waiting for, from the daemon's word
/// (`waiting_for_higher_priority: job 9190 (pri 10)`). Jobs are named rather
/// than numbered: the other job is in the same list.
pub fn wait(job: &Job, names: &HashMap<i64, String>) -> (r: Wait)
    ensures
        r.text@ == waits_for(*job, names@),
        r.standing == stands(*job),
{
    let state: &str = match &job.state {
        Some(state) => state.as_str(),
        None => "",
    };
    proof {
        reveal_strlit("");
        assert(""@ =~= Seq::<char>::empty());
    }
    let eligibility: &str = match &job.eligibility {
        Some(code) => if code.as_str().is_empty() {
            state
        } else {
            code.as_str()
        },
        None => state,
    };
    let (code, detail): (&str, &str) = match split_at_text(eligibility, ": ") {
        Some((code, detail)) => (code, detail),
        None => (eligibility, ""),
    };
    let ids = find_ids(detail);
    let other = if ids.len() > 0 {
        call(ids[0], names)
    } else {
        "another job".to_owned()
    };
    let other = other.as_str();
    let (text, standing) = if same(code, "protected_drain") {
        ("next · when a slot frees".to_owned(), Standing::Next)
    } else if same(code, "supersedes_lower_priority") {
        (concat("next · ahead of ", other), Standing::Next)
    } else if same(code, "waiting_for_slot") || same(code, "waiting_for_higher_priority") {
        // Behind the job above it in the list, which says so itself: naming
        // it again on every row under it is the whole list repeating one fact.
        ("queued".to_owned(), Standing::Ready)
    } else if same(code, "backfill_window_open") || same(code, "backfill_eligible") {
        (concat("may fit in before ", other), Standing::Ready)
    } else if same(code, "waiting_for_retry_delay") {
        ("retrying shortly".to_owned(), Standing::Ready)
    } else if same(code, "paused") {
        ("paused".to_owned(), Standing::Ready)
    } else if same(code, "admission_blocked") {
        ("admission blocked".to_owned(), Standing::Ready)
    } else if same(code, "behind_backfill_cutoff") || same(code, "backfill_bypass_consumed") {
        (concat("after ", other), Standing::After)
    } else if same(code, "waiting_for_dependencies") {
        let text = if ids.len() == 0 {
            "after its dependencies".to_owned()
        } else if ids.len() == 1 {
            concat("after ", other)
        } else {
            concat4("after ", other, " +", unsigned(ids.len() as u64 - 1).as_str())
        };
        (text, Standing::After)
    } else if same(code, "held") {
        ("held".to_owned(), Standing::Held)
    } else {
        // A code that is not known yet is still better read than hidden.
        (replace(code, '_', ' '), Standing::Ready)
    };
    Wait { text, standing }
}

} // verus!
