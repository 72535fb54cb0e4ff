//! What the bar draws for the queue: a cell, a header, and a popup of jobs.
use crate::extension::{Action, ActionView, Cell, CellView, Line, LineView, Role, Row, RowView};
use crate::float::{four_fifths, reaches_four_fifths};
use crate::mlq::extension::{
    armed_for, cancels, elapsed, is_busy, is_live, Extension, ICON, ICON_CANCEL, ICON_RELEASE, ICON_RETRY,
    NAME_LIMIT, RECENT, RECENT_WINDOW_MS,
};
use crate::mlq::job::{Finished, Job, Status};
use crate::mlq::words::{
    duration, duration_text, outcome, outcome_of, stands, wait, waits_for, Standing, ROW_NAME_LIMIT,
};
use crate::mlq::wire::{asked, lemma_names_its_job, Operation};
use crate::moment::{clock as clock_of, clock_text, local_at};
use crate::number::{decimal, signed, signed_decimal, unsigned};
use crate::order::{in_line, law_sorting_sorts, lemma_in_line_within, sort, sorted, Ranked};
use crate::text::{concat, concat3, concat4, elide, elided, join, joined, opt_text, same, texts};
use std::collections::HashMap;
use vstd::prelude::*;
use vstd::string::*;

verus! {

/// A button on a job's row: a glyph, or a label that asks.
#[derive(Debug, Clone)]
pub struct Button {
    pub id: String,
    pub glyph: &'static str,
    pub label: &'static str,
    pub danger: bool,
    pub enabled: bool,
}

/// How far a job is into its time limit.
#[derive(Clone, Copy, PartialEq, Eq, Structural, Debug)]
pub struct Meter {
    pub elapsed_ms: i64,
    pub limit_ms: i64,
    pub color: Role,
}

/// One job in the popup.
#[derive(Debug, Clone)]
pub struct JobRow {
    pub title: String,
    pub detail: String,
    pub meter: Option<Meter>,
    pub action: Option<Button>,
}

/// One entry of the popup.
#[derive(Debug, Clone)]
pub enum Entry {
    Error(String),
    Section(&'static str),
    Job(JobRow),
}

/// Everything the bar draws.
#[derive(Debug, Clone)]
pub struct Drawn {
    pub cell: Option<Cell>,
    pub header: Option<Row>,
    pub popup: Vec<Entry>,
}

pub struct ButtonView {
    pub id: Seq<char>,
    pub glyph: Seq<char>,
    pub label: Seq<char>,
    pub danger: bool,
    pub enabled: bool,
}

pub struct JobRowView {
    pub title: Seq<char>,
    pub detail: Seq<char>,
    pub meter: Option<Meter>,
    pub action: Option<ButtonView>,
}

pub enum EntryView {
    Error(Seq<char>),
    Section(Seq<char>),
    Job(JobRowView),
}

impl View for Button {
    type V = ButtonView;

    open spec fn view(&self) -> ButtonView {
        ButtonView {
            id: self.id@,
            glyph: self.glyph@,
            label: self.label@,
            danger: self.danger,
            enabled: self.enabled,
        }
    }
}

impl View for JobRow {
    type V = JobRowView;

    open spec fn view(&self) -> JobRowView {
        JobRowView {
            title: self.title@,
            detail: self.detail@,
            meter: self.meter,
            action: match self.action {
                Some(button) => Some(button@),
                None => None,
            },
        }
    }
}

impl View for Entry {
    type V = EntryView;

    open spec fn view(&self) -> EntryView {
        match self {
            Entry::Error(error) => EntryView::Error(error@),
            Entry::Section(title) => EntryView::Section(title@),
            Entry::Job(row) => EntryView::Job(row@),
        }
    }
}

pub open spec fn entries(list: Seq<Entry>) -> Seq<EntryView> {
    list.map_values(|entry: Entry| entry@)
}

/// The button that cancels a job: spoken for once it was pressed, and asking
/// while it is armed.
pub open spec fn cancel_button(armed: Option<(i64, u64)>, job: Job, clock: u64) -> ButtonView {
    let id = "cancel:"@ + signed_decimal(job.id as int);
    if job.cancel_requested {
        ButtonView { id, glyph: ICON_CANCEL@, label: ""@, danger: false, enabled: false }
    } else if armed_for(armed, job.id, clock) {
        ButtonView { id, glyph: ""@, label: "cancel?"@, danger: true, enabled: true }
    } else {
        ButtonView { id, glyph: ICON_CANCEL@, label: ""@, danger: false, enabled: true }
    }
}

pub open spec fn quiet_button(verb: Seq<char>, job: Job, glyph: Seq<char>) -> ButtonView {
    ButtonView {
        id: verb + signed_decimal(job.id as int),
        glyph,
        label: ""@,
        danger: false,
        enabled: true,
    }
}

/// What the detail of a live job ends in: its priority where it has one,
/// whether it is being cancelled, and its number.
pub open spec fn particulars(job: Job) -> Seq<char> {
    (if job.priority != 0 {
        " · priority "@ + signed_decimal(job.priority as int)
    } else {
        Seq::empty()
    }) + (if job.cancel_requested {
        " · cancelling"@
    } else {
        Seq::empty()
    }) + (" · #"@ + signed_decimal(job.id as int))
}

pub open spec fn title_of(job: Job) -> Seq<char> {
    elided(job.name@, ROW_NAME_LIMIT as nat)
}

/// The time limit of a job that has one.
pub open spec fn limit_of(job: Job) -> Option<i64> {
    match job.time_limit_ms {
        Some(limit) => if limit > 0 {
            Some(limit)
        } else {
            None
        },
        None => None,
    }
}

/// A run's meter warns from four fifths of its time limit on.
pub open spec fn meter_of(ms: int, limit: i64) -> Meter {
    Meter {
        elapsed_ms: ms as i64,
        limit_ms: limit,
        color: if reaches_four_fifths(ms as nat, limit as nat) {
            Role::Peach
        } else {
            Role::Green
        },
    }
}

/// A running job's row.
pub open spec fn running_view(
    started: Map<i64, i64>,
    armed: Option<(i64, u64)>,
    job: Job,
    now: i64,
    clock: u64,
) -> JobRowView {
    let ms = elapsed(started, job.id, now);
    let lead = if opt_text(job.state) == Some("starting"@) {
        "starting"@
    } else {
        match limit_of(job) {
            Some(limit) => duration_text(ms) + " of "@ + duration_text(limit as int),
            None => duration_text(ms),
        }
    };
    JobRowView {
        title: title_of(job),
        detail: lead + particulars(job),
        meter: match limit_of(job) {
            Some(limit) => Some(meter_of(ms, limit)),
            None => None,
        },
        action: Some(cancel_button(armed, job, clock)),
    }
}

/// A waiting job's row.
pub open spec fn waiting_view(
    armed: Option<(i64, u64)>,
    job: Job,
    names: Map<i64, String>,
    clock: u64,
) -> JobRowView {
    JobRowView {
        title: title_of(job),
        detail: waits_for(job, names) + particulars(job),
        meter: None,
        action: Some(
            if stands(job) == Standing::Held {
                quiet_button("release:"@, job, ICON_RELEASE@)
            } else {
                cancel_button(armed, job, clock)
            },
        ),
    }
}

/// The row of a job that only a person can help.
pub open spec fn attention_view(armed: Option<(i64, u64)>, job: Job, clock: u64) -> JobRowView {
    JobRowView {
        title: title_of(job),
        detail: "run mlq recover · #"@ + signed_decimal(job.id as int),
        meter: None,
        action: Some(cancel_button(armed, job, clock)),
    }
}

/// A finished job's row, given the time of day it ended.
pub open spec fn recent_view(job: Job, ended: Seq<char>) -> JobRowView {
    let state = match opt_text(job.state) {
        Some(state) => state,
        None => "?"@,
    };
    let word = if state == "succeeded"@ {
        "done"@
    } else {
        state
    };
    let reason = match opt_text(job.reason) {
        Some(reason) => outcome_of(reason),
        None => None,
    };
    let parts = seq![word] + (match reason {
        Some(reason) => seq![reason],
        None => Seq::empty(),
    }) + seq![ended, "#"@ + signed_decimal(job.id as int)];
    JobRowView {
        title: title_of(job),
        detail: joined(parts, " · "@),
        meter: None,
        action: if state == "failed"@ || state == "lost"@ {
            Some(quiet_button("retry:"@, job, ICON_RETRY@))
        } else {
            None
        },
    }
}

fn add_particulars(detail: &mut String, job: &Job)
    ensures
        final(detail)@ == old(detail)@ + particulars(*job),
{
    let ghost start = detail@;
    if job.priority != 0 {
        detail.append(concat(" · priority ", signed(job.priority).as_str()).as_str());
    }
    let ghost a = if job.priority != 0 {
        " · priority "@ + signed_decimal(job.priority as int)
    } else {
        Seq::empty()
    };
    assert(detail@ =~= start + a);
    if job.cancel_requested {
        detail.append(" · cancelling");
    }
    let ghost b = if job.cancel_requested {
        " · cancelling"@
    } else {
        Seq::empty()
    };
    assert(detail@ =~= start + a + b);
    detail.append(concat(" · #", signed(job.id).as_str()).as_str());
    assert(detail@ =~= start + particulars(*job));
}

fn quiet(verb: &str, job: &Job, glyph: &'static str) -> (r: Button)
    ensures
        r@ == quiet_button(verb@, *job, glyph@),
{
    Button {
        id: concat(verb, signed(job.id).as_str()),
        glyph,
        label: "",
        danger: false,
        enabled: true,
    }
}

impl Extension {
    pub fn cancel(&self, job: &Job, clock: u64) -> (r: Button)
        ensures
            r@ == cancel_button(self.armed, *job, clock),
    {
        let id = concat("cancel:", signed(job.id).as_str());
        if job.cancel_requested {
            Button { id, glyph: ICON_CANCEL, label: "", danger: false, enabled: false }
        } else if self.is_armed(job.id, clock) {
            Button { id, glyph: "", label: "cancel?", danger: true, enabled: true }
        } else {
            Button { id, glyph: ICON_CANCEL, label: "", danger: false, enabled: true }
        }
    }

    pub fn running_row(&self, job: &Job, now: i64, clock: u64) -> (r: JobRow)
        ensures
            r@ == running_view(self.started@, self.armed, *job, now, clock),
    {
        let ms: i64 = self.elapsed_ms(job, now);
        let limit: Option<i64> = match job.time_limit_ms {
            Some(limit) => if limit > 0 {
                Some(limit)
            } else {
                None
            },
            None => None,
        };
        let starting = match &job.state {
            Some(state) => same(state.as_str(), "starting"),
            None => false,
        };
        let mut detail = if starting {
            "starting".to_owned()
        } else {
            match limit {
                Some(limit) => concat3(duration(ms).as_str(), " of ", duration(limit).as_str()),
                None => duration(ms),
            }
        };
        add_particulars(&mut detail, job);
        let meter = match limit {
            Some(limit) => Some(
                Meter {
                    elapsed_ms: ms,
                    limit_ms: limit,
                    color: if four_fifths(ms, limit) {
                        Role::Peach
                    } else {
                        Role::Green
                    },
                },
            ),
            None => None,
        };
        JobRow {
            title: elide(job.name.as_str(), ROW_NAME_LIMIT),
            detail,
            meter,
            action: Some(self.cancel(job, clock)),
        }
    }

    pub fn waiting_row(&self, job: &Job, names: &HashMap<i64, String>, clock: u64) -> (r: JobRow)
        ensures
            r@ == waiting_view(self.armed, *job, names@, clock),
    {
        let wait = wait(job, names);
        let action = match wait.standing {
            Standing::Held => quiet("release:", job, ICON_RELEASE),
            _ => self.cancel(job, clock),
        };
        let mut detail = wait.text;
        add_particulars(&mut detail, job);
        JobRow {
            title: elide(job.name.as_str(), ROW_NAME_LIMIT),
            detail,
            meter: None,
            action: Some(action),
        }
    }

    pub fn attention_row(&self, job: &Job, clock: u64) -> (r: JobRow)
        ensures
            r@ == attention_view(self.armed, *job, clock),
    {
        JobRow {
            title: elide(job.name.as_str(), ROW_NAME_LIMIT),
            detail: concat("run mlq recover · #", signed(job.id).as_str()),
            meter: None,
            action: Some(self.cancel(job, clock)),
        }
    }

    /// A finished job's row, given the time of day it ended.
    pub fn recent_row(job: &Job, ended: &str) -> (r: JobRow)
        ensures
            r@ == recent_view(*job, ended@),
    {
        let state: &str = match &job.state {
            Some(state) => state.as_str(),
            None => "?",
        };
        let mut parts: Vec<String> = Vec::new();
        if same(state, "succeeded") {
            parts.push("done".to_owned());
        } else {
            parts.push(state.to_owned());
        }
        let reason = match &job.reason {
            Some(reason) => outcome(reason.as_str()),
            None => None,
        };
        let ghost reason_text = opt_text(reason);
        match reason {
            Some(reason) => {
                parts.push(reason);
            },
            None => {},
        }
        parts.push(ended.to_owned());
        parts.push(concat("#", signed(job.id).as_str()));
        proof {
            let word = if state@ == "succeeded"@ {
                "done"@
            } else {
                state@
            };
            assert(texts(parts@) =~= seq![word] + (match reason_text {
                Some(reason) => seq![reason],
                None => Seq::empty(),
            }) + seq![ended@, "#"@ + signed_decimal(job.id as int)]);
        }
        let action = if same(state, "failed") || same(state, "lost") {
            Some(quiet("retry:", job, ICON_RETRY))
        } else {
            None
        };
        JobRow {
            title: elide(job.name.as_str(), ROW_NAME_LIMIT),
            detail: join(&parts, " · "),
            meter: None,
            action,
        }
    }
}

/// The live jobs that hold a slot.
pub open spec fn busy_count(jobs: Seq<Job>) -> nat
    decreases jobs.len(),
{
    if jobs.len() == 0 {
        0
    } else {
        busy_count(jobs.drop_last()) + if is_live(jobs.last()) && is_busy(jobs.last()) {
            1nat
        } else {
            0
        }
    }
}

/// The live jobs that do not.
pub open spec fn pending_count(jobs: Seq<Job>) -> nat
    decreases jobs.len(),
{
    if jobs.len() == 0 {
        0
    } else {
        pending_count(jobs.drop_last()) + if is_live(jobs.last()) && !is_busy(jobs.last()) {
            1nat
        } else {
            0
        }
    }
}

/// The job that the cell names: the longest-running, the first of several.
pub open spec fn headline(jobs: Seq<Job>, started: Map<i64, i64>, now: i64) -> Option<int>
    decreases jobs.len(),
{
    if jobs.len() == 0 {
        None
    } else {
        let before = headline(jobs.drop_last(), started, now);
        let job = jobs.last();
        if is_live(job) && is_busy(job) && match before {
            Some(i) => elapsed(started, job.id, now) > elapsed(started, jobs[i].id, now),
            None => true,
        } {
            Some(jobs.len() - 1)
        } else {
            before
        }
    }
}

/// The bar cell.
pub open spec fn cell_view(
    status: Status,
    started: Map<i64, i64>,
    connected: bool,
    now: i64,
) -> Option<CellView> {
    let jobs = status.jobs@;
    match headline(jobs, started, now) {
        Some(i) => Some(
            CellView {
                glyph: ICON@,
                text: elided(jobs[i].name@, NAME_LIMIT as nat) + (if busy_count(jobs) > 1 {
                    " +"@ + decimal((busy_count(jobs) - 1) as nat)
                } else {
                    Seq::empty()
                }) + (" · "@ + duration_text(elapsed(started, jobs[i].id, now))),
                color: if connected {
                    Role::Green
                } else {
                    Role::Muted
                },
            },
        ),
        None => if pending_count(jobs) > 0 {
            Some(
                CellView {
                    glyph: ICON@,
                    text: decimal(pending_count(jobs)) + " "@ + if status.paused {
                        "paused"@
                    } else {
                        "queued"@
                    },
                    color: if status.paused {
                        Role::Peach
                    } else {
                        Role::Yellow
                    },
                },
            )
        } else {
            None
        },
    }
}

/// How many of the queue's jobs are in each group.
pub open spec fn tally(stuck: nat, running: nat, waiting: nat) -> Seq<Seq<char>> {
    (if stuck > 0 {
        seq![decimal(stuck) + " stuck"@]
    } else {
        Seq::empty()
    }) + (if running > 0 {
        seq![decimal(running) + " running"@]
    } else {
        Seq::empty()
    }) + (if waiting > 0 {
        seq![decimal(waiting) + " waiting"@]
    } else {
        Seq::empty()
    })
}

/// What the queue is doing, and in which colour.
pub open spec fn state_line(status: Status, connected: bool) -> (Seq<char>, Role) {
    let leases = decimal(status.active_leases as nat);
    if !connected {
        ("reconnecting to mlqd"@, Role::Peach)
    } else if status.paused {
        ("paused · nothing new starts"@, Role::Peach)
    } else if status.admission_blocked {
        ("admission blocked"@, Role::Peach)
    } else {
        (
            match status.effective_limit {
                Some(limit) => leases + " of "@ + decimal(limit as nat) + " slots busy"@,
                None => if status.active_leases == 0 {
                    "all slots free"@
                } else {
                    leases + " slots busy"@
                },
            },
            Role::Muted,
        )
    }
}

/// The popup's header: what the queue is doing, and the verb for all of it.
pub open spec fn header_view(
    status: Status,
    connected: bool,
    stuck: nat,
    running: nat,
    waiting: nat,
) -> RowView {
    let title = tally(stuck, running, waiting);
    let (state, color) = state_line(status, connected);
    RowView {
        lines: seq![
            LineView {
                text: if title.len() == 0 {
                    "queue empty"@
                } else {
                    joined(title, " · "@)
                },
                color: Role::Fg,
                small: false,
            },
            LineView { text: state, color, small: true },
        ],
        action: Some(
            ActionView {
                id: if status.paused {
                    "unpause"@
                } else {
                    "pause"@
                },
                label: if status.paused {
                    "resume"@
                } else {
                    "pause"@
                },
                danger: false,
                enabled: true,
            },
        ),
    }
}

/// The cell names a job exactly while one holds a slot, and no such job has run
/// longer than the one it names.
pub proof fn law_cell_names_the_longest(jobs: Seq<Job>, started: Map<i64, i64>, now: i64)
    ensures
        headline(jobs, started, now) is None <==> busy_count(jobs) == 0,
        headline(jobs, started, now) matches Some(i) ==> {
            &&& 0 <= i < jobs.len()
            &&& is_live(jobs[i]) && is_busy(jobs[i])
            &&& forall|k: int|
                0 <= k < jobs.len() && is_live(#[trigger] jobs[k]) && is_busy(jobs[k]) ==> elapsed(
                    started,
                    jobs[k].id,
                    now,
                ) <= elapsed(started, jobs[i].id, now)
        },
        busy_count(jobs) == 0 ==> forall|k: int|
            0 <= k < jobs.len() ==> !(is_live(#[trigger] jobs[k]) && is_busy(jobs[k])),
    decreases jobs.len(),
{
    if jobs.len() > 0 {
        let most = jobs.drop_last();
        law_cell_names_the_longest(most, started, now);
        assert forall|k: int|
            0 <= k < jobs.len() && busy_count(jobs) == 0 implies !(is_live(#[trigger] jobs[k])
            && is_busy(jobs[k])) by {
            if k < most.len() {
                assert(most[k] == jobs[k]);
            }
        }
        match headline(jobs, started, now) {
            Some(i) => {
                assert forall|k: int|
                    0 <= k < jobs.len() && is_live(#[trigger] jobs[k]) && is_busy(
                        jobs[k],
                    ) implies elapsed(started, jobs[k].id, now) <= elapsed(
                    started,
                    jobs[i].id,
                    now,
                ) by {
                    if k < most.len() {
                        assert(most[k] == jobs[k]);
                    }
                }
                if i < most.len() {
                    assert(most[i] == jobs[i]);
                }
            },
            None => {},
        }
    }
}

impl Extension {
    pub fn cell(&self, status: &Status, now: i64) -> (r: Option<Cell>)
        ensures
            match r {
                Some(cell) => cell_view(*status, self.started@, self.connected, now) == Some(cell@),
                None => cell_view(*status, self.started@, self.connected, now) is None,
            },
    {
        let ghost jobs = status.jobs@;
        let mut active: u64 = 0;
        let mut pending: u64 = 0;
        let mut first: Option<usize> = None;
        let mut i: usize = 0;
        while i < status.jobs.len()
            invariant
                i <= jobs.len(),
                jobs == status.jobs@,
                active == busy_count(jobs.take(i as int)),
                pending == pending_count(jobs.take(i as int)),
                active + pending <= i,
                headline(jobs.take(i as int), self.started@, now) == match first {
                    Some(k) => Some(k as int),
                    None => None::<int>,
                },
                first matches Some(k) ==> k < i,
            decreases jobs.len() - i,
        {
            let job = &status.jobs[i];
            proof {
                assert(jobs.take(i + 1).drop_last() =~= jobs.take(i as int));
                assert(jobs.take(i + 1).last() == *job);
            }
            let live = match job.finished {
                Finished::No => true,
                _ => false,
            };
            if live {
                let holds_slot = match &job.state {
                    Some(state) => same(state.as_str(), "running") || same(
                        state.as_str(),
                        "starting",
                    ),
                    None => false,
                };
                if holds_slot {
                    active += 1;
                    // The first job of a tie is kept.
                    let longer = match first {
                        Some(k) => self.elapsed_ms(job, now) > self.elapsed_ms(
                            &status.jobs[k],
                            now,
                        ),
                        None => true,
                    };
                    if longer {
                        first = Some(i);
                    }
                } else {
                    pending += 1;
                }
            }
            i += 1;
        }
        assert(jobs.take(i as int) =~= jobs);
        match first {
            Some(k) => {
                let job = &status.jobs[k];
                let mut text = elide(job.name.as_str(), NAME_LIMIT);
                let ghost start = text@;
                if active > 1 {
                    text.append(concat(" +", unsigned(active - 1).as_str()).as_str());
                }
                let ghost more = if active > 1 {
                    " +"@ + decimal((active - 1) as nat)
                } else {
                    Seq::empty()
                };
                assert(text@ =~= start + more);
                text.append(
                    concat(" · ", duration(self.elapsed_ms(job, now)).as_str()).as_str(),
                );
                Some(
                    Cell {
                        glyph: ICON.to_owned(),
                        text,
                        color: if self.connected {
                            Role::Green
                        } else {
                            Role::Muted
                        },
                    },
                )
            },
            None => if pending > 0 {
                let word: &str = if status.paused {
                    "paused"
                } else {
                    "queued"
                };
                Some(
                    Cell {
                        glyph: ICON.to_owned(),
                        text: concat3(unsigned(pending).as_str(), " ", word),
                        color: if status.paused {
                            Role::Peach
                        } else {
                            Role::Yellow
                        },
                    },
                )
            } else {
                None
            },
        }
    }

    /// What the queue is doing, and the verb for all of it.
    pub fn header(&self, status: &Status, stuck: usize, running: usize, waiting: usize) -> (r: Row)
        ensures
            r@ == header_view(
                *status,
                self.connected,
                stuck as nat,
                running as nat,
                waiting as nat,
            ),
    {
        let mut title: Vec<String> = Vec::new();
        if stuck > 0 {
            title.push(concat(unsigned(stuck as u64).as_str(), " stuck"));
        }
        if running > 0 {
            title.push(concat(unsigned(running as u64).as_str(), " running"));
        }
        if waiting > 0 {
            title.push(concat(unsigned(waiting as u64).as_str(), " waiting"));
        }
        assert(texts(title@) =~= tally(stuck as nat, running as nat, waiting as nat));
        let text = if title.len() == 0 {
            "queue empty".to_owned()
        } else {
            join(&title, " · ")
        };
        let leases = unsigned(status.active_leases);
        let (state, color) = if !self.connected {
            ("reconnecting to mlqd".to_owned(), Role::Peach)
        } else if status.paused {
            ("paused · nothing new starts".to_owned(), Role::Peach)
        } else if status.admission_blocked {
            ("admission blocked".to_owned(), Role::Peach)
        } else {
            let slots = match status.effective_limit {
                Some(limit) => concat4(
                    leases.as_str(),
                    " of ",
                    unsigned(limit).as_str(),
                    " slots busy",
                ),
                None => if status.active_leases == 0 {
                    "all slots free".to_owned()
                } else {
                    concat(leases.as_str(), " slots busy")
                },
            };
            (slots, Role::Muted)
        };
        let (id, label): (&str, &str) = if status.paused {
            ("unpause", "resume")
        } else {
            ("pause", "pause")
        };
        let mut lines: Vec<Line> = Vec::new();
        lines.push(Line { text, color: Role::Fg, small: false });
        lines.push(Line { text: state, color, small: true });
        let row = Row {
            lines,
            action: Some(
                Action {
                    id: id.to_owned(),
                    label: label.to_owned(),
                    danger: false,
                    enabled: true,
                },
            ),
        };
        assert(row@.lines =~= header_view(
            *status,
            self.connected,
            stuck as nat,
            running as nat,
            waiting as nat,
        ).lines);
        row
    }
}

/// The groups that a popup sorts its jobs into.
#[derive(Clone, Copy, PartialEq, Eq, Structural, Debug)]
pub enum Group {
    Attention,
    Active,
    Waiting,
    /// Finished, at these epoch milliseconds.
    Recent(i64),
    /// Finished too long ago to be listed.
    Gone,
}

pub open spec fn group_of(job: Job, now: i64) -> Group {
    match job.finished {
        Finished::At(at) => if now - at <= RECENT_WINDOW_MS {
            Group::Recent(at)
        } else {
            Group::Gone
        },
        _ => if is_busy(job) {
            Group::Active
        } else if opt_text(job.state) == Some("needs_attention"@) {
            Group::Attention
        } else {
            Group::Waiting
        },
    }
}

fn group(job: &Job, now: i64) -> (r: Group)
    ensures
        r == group_of(*job, now),
{
    match job.finished {
        Finished::At(at) => {
            if now as i128 - at as i128 <= RECENT_WINDOW_MS as i128 {
                return Group::Recent(at);
            }
            return Group::Gone;
        },
        _ => {},
    }
    match &job.state {
        Some(state) => {
            let state = state.as_str();
            if same(state, "running") || same(state, "starting") {
                Group::Active
            } else if same(state, "needs_attention") {
                Group::Attention
            } else {
                Group::Waiting
            }
        },
        None => Group::Waiting,
    }
}

/// A running job's place: longest-running first, the job the cell is already
/// naming.
#[derive(Clone, Copy, PartialEq, Eq, Structural, Debug)]
pub struct Longest {
    pub elapsed_ms: i64,
    pub job: usize,
}

impl Ranked for Longest {
    open spec fn precedes(&self, other: &Self) -> bool {
        self.elapsed_ms > other.elapsed_ms
    }

    fn before(&self, other: &Self) -> (r: bool) {
        self.elapsed_ms > other.elapsed_ms
    }
}

/// A waiting job's place: the order the scheduler will take them in, as far as
/// the snapshot says. The job it is draining for, then by priority and
/// readiness, then what waits on others, then what is held.
#[derive(Clone, Copy, PartialEq, Eq, Structural, Debug)]
pub struct Turn {
    pub standing: Standing,
    pub priority: i64,
    pub ready_sequence: i64,
    pub id: i64,
    pub job: usize,
}

pub open spec fn standing_rank(standing: Standing) -> int {
    match standing {
        Standing::Next => 0,
        Standing::Ready => 1,
        Standing::After => 2,
        Standing::Held => 3,
    }
}

fn rank(standing: Standing) -> (r: u8)
    ensures
        r == standing_rank(standing),
{
    match standing {
        Standing::Next => 0,
        Standing::Ready => 1,
        Standing::After => 2,
        Standing::Held => 3,
    }
}

impl Ranked for Turn {
    open spec fn precedes(&self, other: &Self) -> bool {
        let (a, b) = (standing_rank(self.standing), standing_rank(other.standing));
        ||| a < b
        ||| a == b && self.priority > other.priority
        ||| a == b && self.priority == other.priority && self.ready_sequence
            < other.ready_sequence
        ||| a == b && self.priority == other.priority && self.ready_sequence
            == other.ready_sequence && self.id < other.id
    }

    fn before(&self, other: &Self) -> (r: bool) {
        let a: u8 = rank(self.standing);
        let b: u8 = rank(other.standing);
        if a != b {
            a < b
        } else if self.priority != other.priority {
            self.priority > other.priority
        } else if self.ready_sequence != other.ready_sequence {
            self.ready_sequence < other.ready_sequence
        } else {
            self.id < other.id
        }
    }
}

/// A finished job's place: newest first.
#[derive(Clone, Copy, PartialEq, Eq, Structural, Debug)]
pub struct Ended {
    pub at: i64,
    pub job: usize,
}

impl Ranked for Ended {
    open spec fn precedes(&self, other: &Self) -> bool {
        self.at > other.at
    }

    fn before(&self, other: &Self) -> (r: bool) {
        self.at > other.at
    }
}

/// The jobs that need attention, as the snapshot lists them.
pub open spec fn attention(jobs: Seq<Job>, now: i64) -> Seq<usize>
    decreases jobs.len(),
{
    if jobs.len() == 0 {
        Seq::empty()
    } else {
        let before = attention(jobs.drop_last(), now);
        if group_of(jobs.last(), now) == Group::Attention {
            before.push((jobs.len() - 1) as usize)
        } else {
            before
        }
    }
}

/// The jobs that hold a slot, as the snapshot lists them.
pub open spec fn active(jobs: Seq<Job>, started: Map<i64, i64>, now: i64) -> Seq<Longest>
    decreases jobs.len(),
{
    if jobs.len() == 0 {
        Seq::empty()
    } else {
        let before = active(jobs.drop_last(), started, now);
        if group_of(jobs.last(), now) == Group::Active {
            before.push(
                Longest {
                    elapsed_ms: elapsed(started, jobs.last().id, now) as i64,
                    job: (jobs.len() - 1) as usize,
                },
            )
        } else {
            before
        }
    }
}

pub open spec fn turn_of(job: Job, at: usize) -> Turn {
    Turn {
        standing: stands(job),
        priority: job.priority,
        ready_sequence: job.ready_sequence,
        id: job.id,
        job: at,
    }
}

/// The jobs that wait, as the snapshot lists them.
pub open spec fn waiting(jobs: Seq<Job>, now: i64) -> Seq<Turn>
    decreases jobs.len(),
{
    if jobs.len() == 0 {
        Seq::empty()
    } else {
        let before = waiting(jobs.drop_last(), now);
        if group_of(jobs.last(), now) == Group::Waiting {
            before.push(turn_of(jobs.last(), (jobs.len() - 1) as usize))
        } else {
            before
        }
    }
}

/// The jobs that finished lately, as the snapshot lists them.
pub open spec fn finished(jobs: Seq<Job>, now: i64) -> Seq<Ended>
    decreases jobs.len(),
{
    if jobs.len() == 0 {
        Seq::empty()
    } else {
        let before = finished(jobs.drop_last(), now);
        match group_of(jobs.last(), now) {
            Group::Recent(at) => before.push(Ended { at, job: (jobs.len() - 1) as usize }),
            _ => before,
        }
    }
}

/// The finished jobs that the popup lists.
pub open spec fn recent(jobs: Seq<Job>, now: i64) -> Seq<Ended> {
    let all = in_line(finished(jobs, now));
    if all.len() > RECENT {
        all.take(RECENT as int)
    } else {
        all
    }
}

/// The names of the jobs by number; the last of two jobs of one number counts.
pub open spec fn names_in(jobs: Seq<Job>) -> Map<i64, String>
    decreases jobs.len(),
{
    if jobs.len() == 0 {
        Map::empty()
    } else {
        names_in(jobs.drop_last()).insert(jobs.last().id, jobs.last().name)
    }
}

/// A group of the popup: its title, then its rows; nothing where it is empty.
pub open spec fn section(title: Seq<char>, rows: Seq<JobRowView>) -> Seq<EntryView> {
    if rows.len() == 0 {
        Seq::empty()
    } else {
        seq![EntryView::Section(title)] + rows.map_values(|row: JobRowView| EntryView::Job(row))
    }
}

pub open spec fn attention_rows(e: Extension, jobs: Seq<Job>, now: i64, clock: u64) -> Seq<
    JobRowView,
> {
    attention(jobs, now).map_values(|i: usize| attention_view(e.armed, jobs[i as int], clock))
}

pub open spec fn active_rows(e: Extension, jobs: Seq<Job>, now: i64, clock: u64) -> Seq<
    JobRowView,
> {
    in_line(active(jobs, e.started@, now)).map_values(
        |l: Longest| running_view(e.started@, e.armed, jobs[l.job as int], now, clock),
    )
}

pub open spec fn waiting_rows(e: Extension, jobs: Seq<Job>, now: i64, clock: u64) -> Seq<
    JobRowView,
> {
    in_line(waiting(jobs, now)).map_values(
        |t: Turn| waiting_view(e.armed, jobs[t.job as int], names_in(jobs), clock),
    )
}

pub open spec fn recent_rows(jobs: Seq<Job>, now: i64, ended: Seq<Seq<char>>) -> Seq<JobRowView> {
    Seq::new(
        recent(jobs, now).len(),
        |i: int| recent_view(jobs[recent(jobs, now)[i].job as int], ended[i]),
    )
}

/// The popup, given the times of day at which the recent jobs ended.
pub open spec fn popup_view(
    e: Extension,
    jobs: Seq<Job>,
    now: i64,
    clock: u64,
    ended: Seq<Seq<char>>,
) -> Seq<EntryView> {
    (match e.error {
        Some(error) => seq![EntryView::Error(error@)],
        None => Seq::empty(),
    }) + section("needs attention"@, attention_rows(e, jobs, now, clock)) + section(
        "running"@,
        active_rows(e, jobs, now, clock),
    ) + section("up next"@, waiting_rows(e, jobs, now, clock)) + section(
        "recent"@,
        recent_rows(jobs, now, ended),
    )
}

/// Whether `drawn` is what the bar should draw, given the times of day at which
/// the recent jobs ended. A machine without the daemon should look like a
/// machine with no queue.
pub open spec fn is_drawn(
    drawn: Drawn,
    e: Extension,
    now: i64,
    clock: u64,
    ended: Seq<Seq<char>>,
) -> bool {
    match e.status {
        None => drawn.cell is None && drawn.header is None && drawn.popup@.len() == 0,
        Some(status) => {
            let jobs = status.jobs@;
            &&& match drawn.cell {
                Some(cell) => cell_view(status, e.started@, e.connected, now) == Some(cell@),
                None => cell_view(status, e.started@, e.connected, now) is None,
            }
            &&& drawn.header matches Some(header) && header@ == header_view(
                status,
                e.connected,
                attention(jobs, now).len(),
                active(jobs, e.started@, now).len(),
                waiting(jobs, now).len(),
            )
            &&& entries(drawn.popup@) == popup_view(e, jobs, now, clock, ended)
        },
    }
}

proof fn lemma_groups(jobs: Seq<Job>, started: Map<i64, i64>, now: i64)
    requires
        jobs.len() <= usize::MAX,
    ensures
        forall|i: int|
            0 <= i < attention(jobs, now).len() ==> (#[trigger] attention(jobs, now)[i])
                < jobs.len(),
        forall|i: int|
            0 <= i < active(jobs, started, now).len() ==> (#[trigger] active(
                jobs,
                started,
                now,
            )[i]).job < jobs.len(),
        forall|i: int|
            0 <= i < waiting(jobs, now).len() ==> (#[trigger] waiting(jobs, now)[i]).job
                < jobs.len(),
        forall|i: int|
            0 <= i < finished(jobs, now).len() ==> (#[trigger] finished(jobs, now)[i]).job
                < jobs.len(),
    decreases jobs.len(),
{
    if jobs.len() > 0 {
        let most = jobs.drop_last();
        lemma_groups(most, started, now);
        assert forall|i: int| 0 <= i < attention(jobs, now).len() implies (#[trigger] attention(
            jobs,
            now,
        )[i]) < jobs.len() by {
            if i < attention(most, now).len() {
                assert(attention(jobs, now)[i] == attention(most, now)[i]);
            }
        }
        assert forall|i: int| 0 <= i < active(jobs, started, now).len() implies (
        #[trigger] active(jobs, started, now)[i]).job < jobs.len() by {
            if i < active(most, started, now).len() {
                assert(active(jobs, started, now)[i] == active(most, started, now)[i]);
            }
        }
        assert forall|i: int| 0 <= i < waiting(jobs, now).len() implies (#[trigger] waiting(
            jobs,
            now,
        )[i]).job < jobs.len() by {
            if i < waiting(most, now).len() {
                assert(waiting(jobs, now)[i] == waiting(most, now)[i]);
            }
        }
        assert forall|i: int| 0 <= i < finished(jobs, now).len() implies (#[trigger] finished(
            jobs,
            now,
        )[i]).job < jobs.len() by {
            if i < finished(most, now).len() {
                assert(finished(jobs, now)[i] == finished(most, now)[i]);
            }
        }
    }
}

proof fn lemma_line_within(jobs: Seq<Job>, started: Map<i64, i64>, now: i64)
    requires
        jobs.len() <= usize::MAX,
    ensures
        forall|i: int|
            0 <= i < in_line(active(jobs, started, now)).len() ==> (#[trigger] in_line(
                active(jobs, started, now),
            )[i]).job < jobs.len(),
        forall|i: int|
            0 <= i < in_line(waiting(jobs, now)).len() ==> (#[trigger] in_line(
                waiting(jobs, now),
            )[i]).job < jobs.len(),
        forall|i: int|
            0 <= i < in_line(finished(jobs, now)).len() ==> (#[trigger] in_line(
                finished(jobs, now),
            )[i]).job < jobs.len(),
{
    lemma_groups(jobs, started, now);
    assert forall|i: int| 0 <= i < in_line(active(jobs, started, now)).len() implies (
    #[trigger] in_line(active(jobs, started, now))[i]).job < jobs.len() by {
        lemma_in_line_within(active(jobs, started, now), i);
    }
    assert forall|i: int| 0 <= i < in_line(waiting(jobs, now)).len() implies (#[trigger] in_line(
        waiting(jobs, now),
    )[i]).job < jobs.len() by {
        lemma_in_line_within(waiting(jobs, now), i);
    }
    assert forall|i: int| 0 <= i < in_line(finished(jobs, now)).len() implies (#[trigger] in_line(
        finished(jobs, now),
    )[i]).job < jobs.len() by {
        lemma_in_line_within(finished(jobs, now), i);
    }
}

impl Extension {
    /// The finished jobs that the popup lists, newest first.
    pub fn recent_jobs(&self, now: i64) -> (r: Vec<Ended>)
        ensures
            r@ == recent_in(*self, now),
    {
        match &self.status {
            Some(status) => {
                let ghost jobs = status.jobs@;
                let mut all: Vec<Ended> = Vec::new();
                let mut i: usize = 0;
                while i < status.jobs.len()
                    invariant
                        i <= jobs.len(),
                        jobs == status.jobs@,
                        all@ == finished(jobs.take(i as int), now),
                    decreases jobs.len() - i,
                {
                    proof {
                        assert(jobs.take(i + 1).drop_last() =~= jobs.take(i as int));
                        assert(jobs.take(i + 1).last() == jobs[i as int]);
                    }
                    match group(&status.jobs[i], now) {
                        Group::Recent(at) => {
                            all.push(Ended { at, job: i });
                        },
                        _ => {},
                    }
                    i += 1;
                }
                assert(jobs.take(i as int) =~= jobs);
                let mut line = sort(all);
                if line.len() > RECENT {
                    line.truncate(RECENT);
                }
                line
            },
            None => Vec::new(),
        }
    }

    /// Everything the bar draws, given the times of day at which the recent
    /// jobs ended.
    pub fn frame_with(&self, now: i64, clock: u64, ended: &Vec<String>) -> (r: Drawn)
        requires
            ended@.len() == recent_in(*self, now).len(),
        ensures
            is_drawn(r, *self, now, clock, texts(ended@)),
    {
        broadcast use vstd::std_specs::hash::group_hash_axioms;

        let recent_line = self.recent_jobs(now);
        match &self.status {
            None => Drawn { cell: None, header: None, popup: Vec::new() },
            Some(status) => {
                let ghost jobs = status.jobs@;
                let mut names: HashMap<i64, String> = HashMap::new();
                let mut stuck: Vec<usize> = Vec::new();
                let mut running: Vec<Longest> = Vec::new();
                let mut queued: Vec<Turn> = Vec::new();
                let mut i: usize = 0;
                while i < status.jobs.len()
                    invariant
                        i <= jobs.len(),
                        jobs == status.jobs@,
                        names@ == names_in(jobs.take(i as int)),
                    decreases jobs.len() - i,
                {
                    proof {
                        assert(jobs.take(i + 1).drop_last() =~= jobs.take(i as int));
                        assert(jobs.take(i + 1).last() == jobs[i as int]);
                    }
                    let job = &status.jobs[i];
                    names.insert(job.id, job.name.clone());
                    i += 1;
                }
                assert(jobs.take(i as int) =~= jobs);
                i = 0;
                while i < status.jobs.len()
                    invariant
                        i <= jobs.len(),
                        jobs == status.jobs@,
                        names@ == names_in(jobs),
                        stuck@ == attention(jobs.take(i as int), now),
                        running@ == active(jobs.take(i as int), self.started@, now),
                        queued@ == waiting(jobs.take(i as int), now),
                    decreases jobs.len() - i,
                {
                    proof {
                        assert(jobs.take(i + 1).drop_last() =~= jobs.take(i as int));
                        assert(jobs.take(i + 1).last() == jobs[i as int]);
                    }
                    let job = &status.jobs[i];
                    match group(job, now) {
                        Group::Attention => {
                            stuck.push(i);
                        },
                        Group::Active => {
                            running.push(Longest { elapsed_ms: self.elapsed_ms(job, now), job: i });
                        },
                        Group::Waiting => {
                            queued.push(
                                Turn {
                                    standing: wait(job, &names).standing,
                                    priority: job.priority,
                                    ready_sequence: job.ready_sequence,
                                    id: job.id,
                                    job: i,
                                },
                            );
                        },
                        _ => {},
                    }
                    i += 1;
                }
                assert(jobs.take(i as int) =~= jobs);
                proof {
                    lemma_groups(jobs, self.started@, now);
                    lemma_line_within(jobs, self.started@, now);
                }
                let running = sort(running);
                let queued = sort(queued);
                let mut popup: Vec<Entry> = Vec::new();
                match &self.error {
                    Some(error) => {
                        popup.push(Entry::Error(error.as_str().to_owned()));
                    },
                    None => {},
                }
                let ghost part = match &self.error {
                    Some(error) => seq![EntryView::Error(error@)],
                    None => Seq::empty(),
                };
                assert(entries(popup@) =~= part);
                self.add_attention(&mut popup, status, &stuck, now, clock);
                self.add_active(&mut popup, status, &running, now, clock);
                self.add_waiting(&mut popup, status, &queued, &names, now, clock);
                add_recent(&mut popup, status, &recent_line, ended, now);
                Drawn {
                    cell: self.cell(status, now),
                    header: Some(self.header(status, stuck.len(), running.len(), queued.len())),
                    popup,
                }
            },
        }
    }

    fn add_attention(
        &self,
        popup: &mut Vec<Entry>,
        status: &Status,
        stuck: &Vec<usize>,
        now: i64,
        clock: u64,
    )
        requires
            stuck@ == attention(status.jobs@, now),
            forall|i: int| 0 <= i < stuck@.len() ==> (#[trigger] stuck@[i]) < status.jobs@.len(),
        ensures
            entries(final(popup)@) == entries(old(popup)@) + section(
                "needs attention"@,
                attention_rows(*self, status.jobs@, now, clock),
            ),
    {
        let ghost rows = attention_rows(*self, status.jobs@, now, clock);
        let ghost whole = section("needs attention"@, rows);
        let ghost had = entries(popup@);
        if stuck.len() > 0 {
            popup.push(Entry::Section("needs attention"));
            assert(entries(popup@) =~= had + whole.take(1));
        } else {
            assert(entries(popup@) =~= had + whole);
        }
        let mut i: usize = 0;
        while i < stuck.len()
            invariant
                i <= stuck@.len(),
                stuck@ == attention(status.jobs@, now),
                forall|k: int|
                    0 <= k < stuck@.len() ==> (#[trigger] stuck@[k]) < status.jobs@.len(),
                rows == attention_rows(*self, status.jobs@, now, clock),
                rows.len() == stuck@.len(),
                whole == section("needs attention"@, rows),
                stuck@.len() > 0 ==> whole.len() == rows.len() + 1,
                stuck@.len() > 0 ==> entries(popup@) == had + whole.take(i + 1),
                stuck@.len() == 0 ==> entries(popup@) == had + whole,
            decreases stuck@.len() - i,
        {
            let row = self.attention_row(&status.jobs[stuck[i]], clock);
            let ghost before = popup@;
            popup.push(Entry::Job(row));
            proof {
                assert(row@ == rows[i as int]);
                assert(whole[i + 1] == EntryView::Job(rows[i as int]));
                assert(entries(popup@) =~= entries(before).push(EntryView::Job(row@)));
                assert(whole.take(i + 2) =~= whole.take(i + 1).push(whole[i + 1]));
                assert(entries(popup@) =~= had + whole.take(i + 2));
            }
            i += 1;
        }
        assert(whole.take(whole.len() as int) =~= whole);
    }

    fn add_active(
        &self,
        popup: &mut Vec<Entry>,
        status: &Status,
        running: &Vec<Longest>,
        now: i64,
        clock: u64,
    )
        requires
            running@ == in_line(active(status.jobs@, self.started@, now)),
            forall|i: int|
                0 <= i < running@.len() ==> (#[trigger] running@[i]).job < status.jobs@.len(),
        ensures
            entries(final(popup)@) == entries(old(popup)@) + section(
                "running"@,
                active_rows(*self, status.jobs@, now, clock),
            ),
    {
        let ghost rows = active_rows(*self, status.jobs@, now, clock);
        let ghost whole = section("running"@, rows);
        let ghost had = entries(popup@);
        if running.len() > 0 {
            popup.push(Entry::Section("running"));
            assert(entries(popup@) =~= had + whole.take(1));
        } else {
            assert(entries(popup@) =~= had + whole);
        }
        let mut i: usize = 0;
        while i < running.len()
            invariant
                i <= running@.len(),
                running@ == in_line(active(status.jobs@, self.started@, now)),
                forall|k: int|
                    0 <= k < running@.len() ==> (#[trigger] running@[k]).job < status.jobs@.len(),
                rows == active_rows(*self, status.jobs@, now, clock),
                rows.len() == running@.len(),
                whole == section("running"@, rows),
                running@.len() > 0 ==> whole.len() == rows.len() + 1,
                running@.len() > 0 ==> entries(popup@) == had + whole.take(i + 1),
                running@.len() == 0 ==> entries(popup@) == had + whole,
            decreases running@.len() - i,
        {
            let row = self.running_row(&status.jobs[running[i].job], now, clock);
            let ghost before = popup@;
            popup.push(Entry::Job(row));
            proof {
                assert(row@ == rows[i as int]);
                assert(whole[i + 1] == EntryView::Job(rows[i as int]));
                assert(entries(popup@) =~= entries(before).push(EntryView::Job(row@)));
                assert(whole.take(i + 2) =~= whole.take(i + 1).push(whole[i + 1]));
                assert(entries(popup@) =~= had + whole.take(i + 2));
            }
            i += 1;
        }
        assert(whole.take(whole.len() as int) =~= whole);
    }

    fn add_waiting(
        &self,
        popup: &mut Vec<Entry>,
        status: &Status,
        queued: &Vec<Turn>,
        names: &HashMap<i64, String>,
        now: i64,
        clock: u64,
    )
        requires
            names@ == names_in(status.jobs@),
            queued@ == in_line(waiting(status.jobs@, now)),
            forall|i: int|
                0 <= i < queued@.len() ==> (#[trigger] queued@[i]).job < status.jobs@.len(),
        ensures
            entries(final(popup)@) == entries(old(popup)@) + section(
                "up next"@,
                waiting_rows(*self, status.jobs@, now, clock),
            ),
    {
        let ghost rows = waiting_rows(*self, status.jobs@, now, clock);
        let ghost whole = section("up next"@, rows);
        let ghost had = entries(popup@);
        if queued.len() > 0 {
            popup.push(Entry::Section("up next"));
            assert(entries(popup@) =~= had + whole.take(1));
        } else {
            assert(entries(popup@) =~= had + whole);
        }
        let mut i: usize = 0;
        while i < queued.len()
            invariant
                i <= queued@.len(),
                names@ == names_in(status.jobs@),
                queued@ == in_line(waiting(status.jobs@, now)),
                forall|k: int|
                    0 <= k < queued@.len() ==> (#[trigger] queued@[k]).job < status.jobs@.len(),
                rows == waiting_rows(*self, status.jobs@, now, clock),
                rows.len() == queued@.len(),
                whole == section("up next"@, rows),
                queued@.len() > 0 ==> whole.len() == rows.len() + 1,
                queued@.len() > 0 ==> entries(popup@) == had + whole.take(i + 1),
                queued@.len() == 0 ==> entries(popup@) == had + whole,
            decreases queued@.len() - i,
        {
            let row = self.waiting_row(&status.jobs[queued[i].job], names, clock);
            let ghost before = popup@;
            popup.push(Entry::Job(row));
            proof {
                assert(row@ == rows[i as int]);
                assert(whole[i + 1] == EntryView::Job(rows[i as int]));
                assert(entries(popup@) =~= entries(before).push(EntryView::Job(row@)));
                assert(whole.take(i + 2) =~= whole.take(i + 1).push(whole[i + 1]));
                assert(entries(popup@) =~= had + whole.take(i + 2));
            }
            i += 1;
        }
        assert(whole.take(whole.len() as int) =~= whole);
    }
}

fn add_recent(
    popup: &mut Vec<Entry>,
    status: &Status,
    line: &Vec<Ended>,
    ended: &Vec<String>,
    now: i64,
)
    requires
        line@ == recent(status.jobs@, now),
        ended@.len() == line@.len(),
        forall|i: int| 0 <= i < line@.len() ==> (#[trigger] line@[i]).job < status.jobs@.len(),
    ensures
        entries(final(popup)@) == entries(old(popup)@) + section(
            "recent"@,
            recent_rows(status.jobs@, now, texts(ended@)),
        ),
{
    let ghost rows = recent_rows(status.jobs@, now, texts(ended@));
    let ghost whole = section("recent"@, rows);
    let ghost had = entries(popup@);
    if line.len() > 0 {
        popup.push(Entry::Section("recent"));
        assert(entries(popup@) =~= had + whole.take(1));
    } else {
        assert(entries(popup@) =~= had + whole);
    }
    let mut i: usize = 0;
    while i < line.len()
        invariant
            i <= line@.len(),
            line@ == recent(status.jobs@, now),
            ended@.len() == line@.len(),
            forall|k: int| 0 <= k < line@.len() ==> (#[trigger] line@[k]).job < status.jobs@.len(),
            rows == recent_rows(status.jobs@, now, texts(ended@)),
            rows.len() == line@.len(),
            whole == section("recent"@, rows),
            line@.len() > 0 ==> whole.len() == rows.len() + 1,
            line@.len() > 0 ==> entries(popup@) == had + whole.take(i + 1),
            line@.len() == 0 ==> entries(popup@) == had + whole,
        decreases line@.len() - i,
    {
        let row = Extension::recent_row(&status.jobs[line[i].job], ended[i].as_str());
        let ghost before = popup@;
        popup.push(Entry::Job(row));
        proof {
            assert(texts(ended@)[i as int] == ended@[i as int]@);
            assert(row@ == rows[i as int]);
            assert(whole[i + 1] == EntryView::Job(rows[i as int]));
            assert(entries(popup@) =~= entries(before).push(EntryView::Job(row@)));
            assert(whole.take(i + 2) =~= whole.take(i + 1).push(whole[i + 1]));
            assert(entries(popup@) =~= had + whole.take(i + 2));
        }
        i += 1;
    }
    assert(whole.take(whole.len() as int) =~= whole);
}

/// When jobs ended, where local time was those seconds ahead of universal time
/// then, and is `offset` ahead now.
pub open spec fn ends(line: Seq<Ended>, offsets: Seq<i32>, now: i64, offset: i32) -> Seq<Seq<char>> {
    Seq::new(
        line.len(),
        |i: int|
            clock_text(local_at(line[i].at as int, offsets[i]), local_at(now as int, offset)),
    )
}

/// The finished jobs that the popup lists, newest first.
pub open spec fn recent_in(e: Extension, now: i64) -> Seq<Ended> {
    match e.status {
        Some(status) => recent(status.jobs@, now),
        None => Seq::empty(),
    }
}

impl Extension {
    /// Everything the bar draws. Local time is `offset` seconds ahead of
    /// universal time now, and was as many seconds as `offsets` says when each
    /// of the recent jobs ended.
    pub fn frame(&self, now: i64, clock: u64, offset: i32, offsets: &Vec<i32>) -> (r: Drawn)
        requires
            offsets@.len() == recent_in(*self, now).len(),
        ensures
            is_drawn(r, *self, now, clock, ends(recent_in(*self, now), offsets@, now, offset)),
    {
        let line = self.recent_jobs(now);
        let mut ended: Vec<String> = Vec::new();
        let mut i: usize = 0;
        while i < line.len()
            invariant
                i <= line@.len(),
                offsets@.len() == line@.len(),
                ended@.len() == i,
                forall|j: int|
                    0 <= j < i ==> (#[trigger] ended@[j])@ == ends(
                        line@,
                        offsets@,
                        now,
                        offset,
                    )[j],
            decreases line@.len() - i,
        {
            ended.push(clock_of(line[i].at, offsets[i], now, offset));
            i += 1;
        }
        assert(texts(ended@) =~= ends(line@, offsets@, now, offset));
        self.frame_with(now, clock, &ended)
    }
}

/// A job's button asks for that job: pressed, its cancel is a cancel of it and
/// of no other, its retry a retry and its release a release.
pub proof fn law_buttons_reach_their_jobs(
    armed: Option<(i64, u64)>,
    job: Job,
    clock: u64,
    glyph: Seq<char>,
)
    ensures
        asked(cancel_button(armed, job, clock).id) == Some(Operation::Cancel(job.id)),
        cancels(cancel_button(armed, job, clock).id) == Some(job.id),
        asked(quiet_button("retry:"@, job, glyph).id) == Some(Operation::Retry(job.id)),
        cancels(quiet_button("retry:"@, job, glyph).id) is None,
        asked(quiet_button("release:"@, job, glyph).id) == Some(Operation::Release(job.id)),
        cancels(quiet_button("release:"@, job, glyph).id) is None,
{
    let number = signed_decimal(job.id as int);
    reveal_strlit("cancel");
    reveal_strlit("retry");
    reveal_strlit("release");
    reveal_strlit("cancel:");
    reveal_strlit("retry:");
    reveal_strlit("release:");
    assert("cancel:"@ =~= "cancel"@ + seq![':']);
    assert("retry:"@ =~= "retry"@ + seq![':']);
    assert("release:"@ =~= "release"@ + seq![':']);
    lemma_names_its_job("cancel"@, job.id);
    lemma_names_its_job("retry"@, job.id);
    lemma_names_its_job("release"@, job.id);
    let cancel = "cancel:"@ + number;
    assert(cancel =~= "cancel"@ + seq![':'] + number);
    assert(cancel.skip("cancel:"@.len() as int) =~= number);
    assert("cancel:"@.is_prefix_of(cancel));
    assert("retry:"@ + number =~= "retry"@ + seq![':'] + number);
    assert("release:"@ + number =~= "release"@ + seq![':'] + number);
    assert("retry"@[0] == 'r' && "release"@[0] == 'r' && "cancel"@[0] == 'c');
    assert("retry"@[2] == 't' && "release"@[2] == 'l');
    let (retry, release) = ("retry:"@ + number, "release:"@ + number);
    assert(retry[0] == 'r' && release[0] == 'r' && "cancel:"@[0] == 'c');
    assert(!"cancel:"@.is_prefix_of(retry)) by {
        assert(retry.subrange(0, 7)[0] == retry[0]);
    }
    assert(!"cancel:"@.is_prefix_of(release)) by {
        assert(release.subrange(0, 7)[0] == release[0]);
    }
}

/// The popup's groups are in line: the longest-running job first, the waiting
/// jobs in the order the scheduler takes them, the newest finished job first.
pub proof fn law_popup_is_in_order(jobs: Seq<Job>, started: Map<i64, i64>, now: i64)
    ensures
        sorted(in_line(active(jobs, started, now))),
        sorted(in_line(waiting(jobs, now))),
        sorted(in_line(finished(jobs, now))),
{
    law_sorting_sorts(active(jobs, started, now));
    law_sorting_sorts(waiting(jobs, now));
    law_sorting_sorts(finished(jobs, now));
}

/// No job is listed twice, and none is left out but those that finished long
/// ago: each is in the one group that its state puts it in.
pub proof fn law_every_job_has_one_place(jobs: Seq<Job>, started: Map<i64, i64>, now: i64)
    ensures
        attention(jobs, now).len() + active(jobs, started, now).len() + waiting(jobs, now).len()
            + finished(jobs, now).len() + gone_count(jobs, now) == jobs.len(),
    decreases jobs.len(),
{
    if jobs.len() > 0 {
        law_every_job_has_one_place(jobs.drop_last(), started, now);
    }
}

/// The jobs that finished too long ago to be listed.
pub open spec fn gone_count(jobs: Seq<Job>, now: i64) -> nat
    decreases jobs.len(),
{
    if jobs.len() == 0 {
        0
    } else {
        gone_count(jobs.drop_last(), now) + if group_of(jobs.last(), now) == Group::Gone {
            1nat
        } else {
            0
        }
    }
}

} // verus!
