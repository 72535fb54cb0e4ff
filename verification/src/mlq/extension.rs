//! The extension's state, and the frames it draws.
use crate::mlq::job::{Finished, Job, Status};
use crate::mlq::words::wait;
use crate::number::{i64_of, parse_i64};
use crate::text::{opt_text, same, strip_prefix, trim, trimmed, unprefixed};
use std::collections::HashMap;
use vstd::prelude::*;
use vstd::string::*;

verus! {

pub const ICON: &'static str = "\u{f1049}";

/// nf-md-close, nf-md-refresh, nf-md-play: a row's quiet verbs.
pub const ICON_CANCEL: &'static str = "\u{f0156}";

pub const ICON_RETRY: &'static str = "\u{f0450}";

pub const ICON_RELEASE: &'static str = "\u{f040a}";

pub const NAME_LIMIT: usize = 26;

pub const MIN_TICK_MS: i64 = 50;

/// How many nanoseconds a cancel stays armed for the press that confirms it.
pub const ARM_WINDOW: u64 = 4_000_000_000;

/// A confirm sooner than this after arming, in nanoseconds, is the same
/// double-click that armed it, not a second decision, and leaves the cancel
/// armed.
pub const CONFIRM_DELAY: u64 = 400_000_000;

/// Finished jobs the popup keeps, newest first, and how far back it looks.
pub const RECENT: usize = 3;

pub const RECENT_WINDOW_MS: i64 = 86_400_000;

#[derive(Debug, Clone)]
pub struct Extension {
    pub status: Option<Status>,
    pub connected: bool,
    pub error: Option<String>,
    pub popup_open: bool,
    /// When each running job started, in epoch milliseconds.
    pub started: HashMap<i64, i64>,
    /// The job whose cancel was pressed once, and when, in nanoseconds of a
    /// clock that never runs backwards. The second press within
    /// [`ARM_WINDOW`] cancels it: a training run is one misclick from gone.
    pub armed: Option<(i64, u64)>,
    /// The last frame that was written.
    pub last: String,
}

impl Default for Extension {
    fn default() -> (r: Extension)
        ensures
            r.status is None,
            !r.connected,
            r.error is None,
            !r.popup_open,
            r.started@ == Map::<i64, i64>::empty(),
            r.armed is None,
            r.last@.len() == 0,
    {
        Extension {
            status: None,
            connected: false,
            error: None,
            popup_open: false,
            started: HashMap::new(),
            armed: None,
            last: String::new(),
        }
    }
}

/// How long ago something was, on a clock that may have been read before it.
pub open spec fn since(clock: u64, at: u64) -> int {
    if clock < at {
        0
    } else {
        clock - at
    }
}

pub open spec fn armed_for(armed: Option<(i64, u64)>, job: i64, clock: u64) -> bool {
    armed matches Some((id, at)) && id == job && since(clock, at) < ARM_WINDOW
}

/// The job that an action would cancel.
pub open spec fn cancels(action: Seq<char>) -> Option<i64> {
    match unprefixed(action, "cancel:"@) {
        Some(job) => i64_of(trimmed(job)),
        None => None,
    }
}

/// What is armed after a press, and whether the press is for the daemon.
pub open spec fn pressed(
    armed: Option<(i64, u64)>,
    action: Seq<char>,
    clock: u64,
) -> (Option<(i64, u64)>, bool) {
    match cancels(action) {
        Some(job) => if !armed_for(armed, job, clock) {
            (Some((job, clock)), false)
        } else if since(clock, (armed->0).1) < CONFIRM_DELAY {
            (armed, false)
        } else {
            (None, true)
        },
        None => (None, true),
    }
}

/// A cancel that was not armed reaches the daemon on no press but a second one
/// for the same job, later than a double-click and before the arm runs out.
pub proof fn law_cancel_needs_two_presses(
    armed: Option<(i64, u64)>,
    first: Seq<char>,
    second: Seq<char>,
    job: i64,
    other: i64,
    then: u64,
    now: u64,
)
    requires
        cancels(first) == Some(other),
        cancels(second) == Some(job),
        !armed_for(armed, other, then),
        then <= now,
    ensures
        !pressed(armed, first, then).1,
        pressed(pressed(armed, first, then).0, second, now).1 <==> job == other && CONFIRM_DELAY
            <= now - then < ARM_WINDOW,
{
}

/// What a running job has run for, in milliseconds; nothing where its start is
/// not known or lies ahead.
pub open spec fn elapsed(started: Map<i64, i64>, id: i64, now: i64) -> int {
    if started.dom().contains(id) {
        let ms = now - started[id];
        if ms < 0 {
            0
        } else if ms > i64::MAX {
            i64::MAX as int
        } else {
            ms
        }
    } else {
        0
    }
}

pub open spec fn is_live(job: Job) -> bool {
    job.finished == Finished::No
}

pub open spec fn is_running(job: Job) -> bool {
    is_live(job) && opt_text(job.state) == Some("running"@)
}

/// Whether a job holds a slot: it runs, or is about to.
pub open spec fn is_busy(job: Job) -> bool {
    opt_text(job.state) == Some("running"@) || opt_text(job.state) == Some("starting"@)
}

/// When the running jobs started. A job's last change is read only once per
/// run: it moves on unrelated changes too, and changing a priority must not
/// reset the displayed clock.
pub open spec fn starts(known: Map<i64, i64>, jobs: Seq<Job>, now: i64) -> Map<i64, i64>
    decreases jobs.len(),
{
    if jobs.len() == 0 {
        Map::empty()
    } else {
        let before = starts(known, jobs.drop_last(), now);
        let job = jobs.last();
        if is_running(job) && !before.dom().contains(job.id) {
            before.insert(
                job.id,
                if known.dom().contains(job.id) {
                    known[job.id]
                } else {
                    match job.updated_at {
                        Some(at) => if at < now {
                            at
                        } else {
                            now
                        },
                        None => now,
                    }
                },
            )
        } else {
            before
        }
    }
}

/// Every job that runs has a start, and a start that was known is kept.
pub proof fn law_starts_are_kept(known: Map<i64, i64>, jobs: Seq<Job>, now: i64)
    ensures
        forall|i: int|
            0 <= i < jobs.len() && is_running(#[trigger] jobs[i]) ==> starts(
                known,
                jobs,
                now,
            ).dom().contains(jobs[i].id),
        forall|id: i64| #[trigger]
            starts(known, jobs, now).dom().contains(id) ==> {
                &&& known.dom().contains(id) ==> starts(known, jobs, now)[id] == known[id]
                &&& !known.dom().contains(id) ==> starts(known, jobs, now)[id] <= now
                &&& exists|i: int|
                    0 <= i < jobs.len() && is_running(#[trigger] jobs[i]) && jobs[i].id == id
            },
    decreases jobs.len(),
{
    if jobs.len() > 0 {
        let most = jobs.drop_last();
        law_starts_are_kept(known, most, now);
        let before = starts(known, most, now);
        let all = starts(known, jobs, now);
        assert forall|i: int|
            0 <= i < jobs.len() && is_running(#[trigger] jobs[i]) implies all.dom().contains(
            jobs[i].id,
        ) by {
            if i < most.len() {
                assert(most[i] == jobs[i]);
                assert(before.dom().contains(jobs[i].id));
            }
        }
        assert forall|id: i64| #[trigger] all.dom().contains(id) implies exists|i: int|
            0 <= i < jobs.len() && is_running(#[trigger] jobs[i]) && jobs[i].id == id by {
            if before.dom().contains(id) {
                let i = choose|i: int|
                    0 <= i < most.len() && is_running(#[trigger] most[i]) && most[i].id == id;
                assert(jobs[i] == most[i]);
            } else {
                assert(jobs[jobs.len() - 1].id == id);
            }
        }
        assert forall|id: i64| #[trigger] all.dom().contains(id) implies {
            &&& known.dom().contains(id) ==> all[id] == known[id]
            &&& !known.dom().contains(id) ==> all[id] <= now
        } by {
            if before.dom().contains(id) {
                assert(all[id] == before[id]);
            }
        }
    }
}

fn is_state(job: &Job, state: &str) -> (r: bool)
    ensures
        r == (opt_text(job.state) == Some(state@)),
{
    match &job.state {
        Some(s) => same(s.as_str(), state),
        None => false,
    }
}

fn busy(job: &Job) -> (r: bool)
    ensures
        r == is_busy(*job),
{
    is_state(job, "running") || is_state(job, "starting")
}

impl Extension {
    pub fn elapsed_ms(&self, job: &Job, now: i64) -> (r: i64)
        ensures
            r == elapsed(self.started@, job.id, now),
    {
        broadcast use vstd::std_specs::hash::group_hash_axioms;

        match self.started.get(&job.id) {
            Some(start) => {
                let ms: i128 = now as i128 - *start as i128;
                if ms < 0 {
                    0
                } else if ms > i64::MAX as i128 {
                    i64::MAX
                } else {
                    ms as i64
                }
            },
            None => 0,
        }
    }

    pub fn note_starts(&mut self, status: &Status, now: i64)
        ensures
            final(self).started@ == starts(old(self).started@, status.jobs@, now),
            final(self).status == old(self).status,
            final(self).connected == old(self).connected,
            final(self).error == old(self).error,
            final(self).popup_open == old(self).popup_open,
            final(self).armed == old(self).armed,
            final(self).last == old(self).last,
    {
        broadcast use vstd::std_specs::hash::group_hash_axioms;

        let mut fresh: HashMap<i64, i64> = HashMap::new();
        let mut i: usize = 0;
        while i < status.jobs.len()
            invariant
                i <= status.jobs@.len(),
                fresh@ == starts(self.started@, status.jobs@.take(i as int), now),
                *self == *old(self),
            decreases status.jobs@.len() - i,
        {
            let job = &status.jobs[i];
            proof {
                assert(status.jobs@.take(i + 1).drop_last() =~= status.jobs@.take(i as int));
                assert(status.jobs@.take(i + 1).last() == *job);
            }
            let live = match job.finished {
                Finished::No => true,
                _ => false,
            };
            if live && is_state(job, "running") && !fresh.contains_key(&job.id) {
                let start: i64 = match self.started.get(&job.id) {
                    Some(start) => *start,
                    None => match job.updated_at {
                        Some(at) => if at < now {
                            at
                        } else {
                            now
                        },
                        None => now,
                    },
                };
                fresh.insert(job.id, start);
            }
            i += 1;
        }
        assert(status.jobs@.take(i as int) =~= status.jobs@);
        self.started = fresh;
    }

    pub fn is_armed(&self, job: i64, clock: u64) -> (r: bool)
        ensures
            r == armed_for(self.armed, job, clock),
    {
        match self.armed {
            Some((id, at)) => id == job && (clock < at || clock - at < ARM_WINDOW),
            None => false,
        }
    }

    /// A popup button. A cancel only arms on its first press; everything else,
    /// and a cancel's second press, is for the daemon.
    pub fn press(&mut self, action: String, clock: u64) -> (r: Option<String>)
        ensures
            *final(self) == (Extension {
                armed: pressed(old(self).armed, action@, clock).0,
                ..*old(self)
            }),
            r == if pressed(old(self).armed, action@, clock).1 {
                Some(action)
            } else {
                None
            },
    {
        let cancel = match strip_prefix(action.as_str(), "cancel:") {
            Some(job) => parse_i64(trim(job)),
            None => None,
        };
        match cancel {
            Some(job) => {
                if !self.is_armed(job, clock) {
                    self.armed = Some((job, clock));
                    return None;
                }
                match self.armed {
                    Some((_, at)) => {
                        if clock < at || clock - at < CONFIRM_DELAY {
                            return None;
                        }
                    },
                    None => {},
                }
            },
            None => {},
        }
        self.armed = None;
        Some(action)
    }

    /// Forget an arm that has run out, so the button settles back and the
    /// cadence stops waking for it.
    pub fn expire(&mut self, clock: u64)
        ensures
            *final(self) == (Extension {
                armed: match old(self).armed {
                    Some((_, at)) => if since(clock, at) >= ARM_WINDOW {
                        None
                    } else {
                        old(self).armed
                    },
                    None => None,
                },
                ..*old(self)
            }),
    {
        match self.armed {
            Some((_, at)) => {
                if clock >= at && clock - at >= ARM_WINDOW {
                    self.armed = None;
                }
            },
            None => {},
        }
    }
}

/// How long an elapsed time stays as it reads: seconds change every second,
/// minutes every minute.
pub open spec fn until_change(ms: int) -> int {
    let step = if ms < 60_000 {
        1000
    } else {
        60_000int
    };
    step - ms % step
}

/// The longest that a job has run.
pub open spec fn longest_run(jobs: Seq<Job>, started: Map<i64, i64>, now: i64) -> Option<int>
    decreases jobs.len(),
{
    if jobs.len() == 0 {
        None
    } else {
        let before = longest_run(jobs.drop_last(), started, now);
        let ms = elapsed(started, jobs.last().id, now);
        if is_running(jobs.last()) {
            match before {
                Some(most) => Some(
                    if ms > most {
                        ms
                    } else {
                        most
                    },
                ),
                None => Some(ms),
            }
        } else {
            before
        }
    }
}

/// When the first of the running jobs' elapsed times changes.
pub open spec fn first_change(jobs: Seq<Job>, started: Map<i64, i64>, now: i64) -> Option<int>
    decreases jobs.len(),
{
    if jobs.len() == 0 {
        None
    } else {
        let before = first_change(jobs.drop_last(), started, now);
        let ms = until_change(elapsed(started, jobs.last().id, now));
        if is_running(jobs.last()) {
            match before {
                Some(least) => Some(
                    if ms < least {
                        ms
                    } else {
                        least
                    },
                ),
                None => Some(ms),
            }
        } else {
            before
        }
    }
}

/// When a displayed time changes, in milliseconds: all of them are on screen
/// while the popup is open, and else only the cell's.
pub open spec fn clock_due(e: Extension, now: i64) -> Option<int> {
    match e.status {
        Some(status) => {
            let due = if e.popup_open {
                first_change(status.jobs@, e.started@, now)
            } else {
                match longest_run(status.jobs@, e.started@, now) {
                    Some(ms) => Some(until_change(ms)),
                    None => None,
                }
            };
            match due {
                Some(ms) => Some(
                    if ms < MIN_TICK_MS {
                        MIN_TICK_MS as int
                    } else {
                        ms
                    },
                ),
                None => None,
            }
        },
        None => None,
    }
}

/// When an armed cancel settles back, in nanoseconds.
pub open spec fn disarm_due(e: Extension, clock: u64) -> Option<int> {
    match e.armed {
        Some((_, at)) => Some(
            if since(clock, at) >= ARM_WINDOW {
                0
            } else {
                ARM_WINDOW - since(clock, at)
            },
        ),
        None => None,
    }
}

/// When the next frame is due on its own, in nanoseconds: at the earlier of the
/// two.
pub open spec fn due(e: Extension, now: i64, clock: u64) -> Option<int> {
    match (clock_due(e, now), disarm_due(e, clock)) {
        (Some(ms), Some(ns)) => Some(
            if ms * 1_000_000 < ns {
                ms * 1_000_000
            } else {
                ns
            },
        ),
        (Some(ms), None) => Some(ms * 1_000_000),
        (None, wait) => wait,
    }
}

fn change_in(ms: i64) -> (r: i64)
    requires
        ms >= 0,
    ensures
        r == until_change(ms as int),
        0 < r <= 60_000,
{
    let step: i64 = if ms < 60_000 {
        1000
    } else {
        60_000
    };
    step - ms % step
}

/// What happens to the extension.
#[derive(Debug, Clone)]
pub enum Event {
    Status(Status),
    Disconnected,
    Popup(bool),
    Press(String),
    ActionResult(Option<String>),
}

impl Extension {
    /// When the next frame is due on its own, in nanoseconds: an elapsed time
    /// about to change its last digit, or an armed cancel about to settle back.
    pub fn cadence(&self, now: i64, clock: u64) -> (r: Option<u64>)
        ensures
            match r {
                Some(ns) => due(*self, now, clock) == Some(ns as int),
                None => due(*self, now, clock) is None,
            },
    {
        let ms: Option<i64> = match &self.status {
            Some(status) => {
                let ghost jobs = status.jobs@;
                let mut first: Option<i64> = None;
                let mut longest: Option<i64> = None;
                let mut i: usize = 0;
                while i < status.jobs.len()
                    invariant
                        i <= jobs.len(),
                        jobs == status.jobs@,
                        first_change(jobs.take(i as int), self.started@, now) == match first {
                            Some(ms) => Some(ms as int),
                            None => None::<int>,
                        },
                        longest_run(jobs.take(i as int), self.started@, now) == match longest {
                            Some(ms) => Some(ms as int),
                            None => None::<int>,
                        },
                        first matches Some(ms) ==> 0 < ms <= 60_000,
                        longest matches Some(ms) ==> ms >= 0,
                    decreases jobs.len() - i,
                {
                    proof {
                        assert(jobs.take(i + 1).drop_last() =~= jobs.take(i as int));
                        assert(jobs.take(i + 1).last() == jobs[i as int]);
                    }
                    let job = &status.jobs[i];
                    let live = match job.finished {
                        Finished::No => true,
                        _ => false,
                    };
                    if live && is_state(job, "running") {
                        let ms: i64 = self.elapsed_ms(job, now);
                        let change: i64 = change_in(ms);
                        first = match first {
                            Some(least) => if change < least {
                                Some(change)
                            } else {
                                first
                            },
                            None => Some(change),
                        };
                        longest = match longest {
                            Some(most) => if ms > most {
                                Some(ms)
                            } else {
                                longest
                            },
                            None => Some(ms),
                        };
                    }
                    i += 1;
                }
                assert(jobs.take(i as int) =~= jobs);
                let due = if self.popup_open {
                    first
                } else {
                    match longest {
                        Some(ms) => Some(change_in(ms)),
                        None => None,
                    }
                };
                match due {
                    Some(ms) => if ms < MIN_TICK_MS {
                        Some(MIN_TICK_MS)
                    } else {
                        Some(ms)
                    },
                    None => None,
                }
            },
            None => None,
        };
        let disarm: Option<u64> = match self.armed {
            Some((_, at)) => if clock < at {
                Some(ARM_WINDOW)
            } else if clock - at >= ARM_WINDOW {
                Some(0)
            } else {
                Some(ARM_WINDOW - (clock - at))
            },
            None => None,
        };
        match ms {
            Some(ms) => {
                let ns: u64 = ms as u64 * 1_000_000;
                match disarm {
                    Some(wait) => if ns < wait {
                        Some(ns)
                    } else {
                        Some(wait)
                    },
                    None => Some(ns),
                }
            },
            None => disarm,
        }
    }

    /// Take what happened in; the action that is for the daemon, if any.
    pub fn apply(&mut self, event: Event, now: i64, clock: u64) -> (r: Option<String>)
        ensures
            ({
                let before = *old(self);
                let after = *final(self);
                match event {
                    Event::Status(status) => {
                        &&& r is None
                        &&& after == (Extension {
                            status: Some(status),
                            connected: true,
                            error: None,
                            started: after.started,
                            ..before
                        })
                        &&& after.started@ == starts(before.started@, status.jobs@, now)
                    },
                    Event::Disconnected => r is None && after == (Extension {
                        connected: false,
                        ..before
                    }),
                    // An arm is a question asked in the popup; closing it is a no.
                    Event::Popup(open) => r is None && after == (Extension {
                        popup_open: open,
                        armed: if open {
                            before.armed
                        } else {
                            None
                        },
                        ..before
                    }),
                    Event::Press(action) => {
                        &&& after == (Extension {
                            armed: pressed(before.armed, action@, clock).0,
                            ..before
                        })
                        &&& r == if pressed(before.armed, action@, clock).1 {
                            Some(action)
                        } else {
                            None
                        }
                    },
                    Event::ActionResult(error) => r is None && after == (Extension {
                        error,
                        ..before
                    }),
                }
            }),
    {
        match event {
            Event::Status(status) => {
                self.note_starts(&status, now);
                self.status = Some(status);
                self.connected = true;
                self.error = None;
                None
            },
            Event::Disconnected => {
                self.connected = false;
                None
            },
            Event::Popup(open) => {
                self.popup_open = open;
                if !open {
                    self.armed = None;
                }
                None
            },
            Event::Press(action) => self.press(action, clock),
            Event::ActionResult(error) => {
                self.error = error;
                None
            },
        }
    }

    /// Whether a frame is to be written: one that reads as the last one did is
    /// not.
    pub fn emit(&mut self, frame: String) -> (r: bool)
        ensures
            r == (frame@ != old(self).last@),
            final(self).last@ == frame@,
            *final(self) == (Extension { last: final(self).last, ..*old(self) }),
    {
        if same(frame.as_str(), self.last.as_str()) {
            false
        } else {
            self.last = frame;
            true
        }
    }
}

/// An extension wakes itself only while a job runs or a cancel is armed, and
/// then within a minute.
pub proof fn law_wakes_only_for_a_reason(e: Extension, now: i64, clock: u64)
    ensures
        due(e, now, clock) matches Some(ns) ==> 0 <= ns <= 60_000_000_000,
        due(e, now, clock) is Some <==> e.armed is Some || (e.status matches Some(status)
            && exists|i: int| 0 <= i < status.jobs@.len() && is_running(#[trigger] status.jobs@[i])),
{
    match e.status {
        Some(status) => {
            lemma_runs(status.jobs@, e.started@, now);
        },
        None => {},
    }
}

proof fn lemma_runs(jobs: Seq<Job>, started: Map<i64, i64>, now: i64)
    ensures
        first_change(jobs, started, now) matches Some(ms) ==> 0 < ms <= 60_000,
        longest_run(jobs, started, now) matches Some(ms) ==> ms >= 0,
        first_change(jobs, started, now) is Some <==> exists|i: int|
            0 <= i < jobs.len() && is_running(#[trigger] jobs[i]),
        longest_run(jobs, started, now) is Some <==> exists|i: int|
            0 <= i < jobs.len() && is_running(#[trigger] jobs[i]),
    decreases jobs.len(),
{
    if jobs.len() > 0 {
        let most = jobs.drop_last();
        lemma_runs(most, started, now);
        if is_running(jobs.last()) {
            assert(is_running(jobs[jobs.len() - 1]));
        } else {
            assert forall|i: int| 0 <= i < jobs.len() && is_running(#[trigger] jobs[i]) implies (
            exists|k: int| 0 <= k < most.len() && is_running(#[trigger] most[k])) by {
                assert(most[i] == jobs[i]);
            }
            assert forall|i: int| 0 <= i < most.len() && is_running(#[trigger] most[i]) implies (
            exists|k: int| 0 <= k < jobs.len() && is_running(#[trigger] jobs[k])) by {
                assert(jobs[i] == most[i]);
            }
        }
    }
}

} // verus!
