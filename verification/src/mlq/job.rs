//! The daemon's snapshots.
use crate::json::{
    at, bool_of, document, exact_of, member, millis_of, natural_of, parse, text_of, Json, Tree,
};
use crate::text::{concat3, opt_text, same};
use vstd::prelude::*;
use vstd::string::*;

verus! {

/// Whether a job is over, and when it ended.
#[derive(Clone, Copy, PartialEq, Eq, Structural, Debug)]
pub enum Finished {
    No,
    /// At these epoch milliseconds.
    At(i64),
    /// At a time that cannot be read.
    Sometime,
}

/// One job of a snapshot.
#[derive(Debug, Clone)]
pub struct Job {
    pub id: i64,
    pub name: String,
    pub priority: i64,
    pub state: Option<String>,
    pub eligibility: Option<String>,
    pub finished: Finished,
    pub updated_at: Option<i64>,
    pub time_limit_ms: Option<i64>,
    pub cancel_requested: bool,
    pub reason: Option<String>,
    pub ready_sequence: i64,
}

/// One snapshot of the queue.
#[derive(Debug, Clone)]
pub struct Status {
    pub jobs: Vec<Job>,
    pub paused: bool,
    pub active_leases: u64,
    pub effective_limit: Option<u64>,
    pub admission_blocked: bool,
}

pub open spec fn finished_of(tree: Tree) -> Finished {
    if tree == Tree::Null {
        Finished::No
    } else {
        match millis_of(tree) {
            Some(ms) => Finished::At(ms),
            None => Finished::Sometime,
        }
    }
}

pub open spec fn flag_of(tree: Tree) -> bool {
    bool_of(tree) == Some(true)
}

/// Whether `job` is what `tree` says: a job without an id is `-1`, one without
/// a name `?`, and one without a place in line is last.
pub open spec fn is_job(job: Job, tree: Tree) -> bool {
    &&& job.id == match exact_of(at(tree, "id"@)) {
        Some(id) => id as int,
        None => -1,
    }
    &&& job.name@ == match text_of(at(tree, "name"@)) {
        Some(name) => name,
        None => "?"@,
    }
    &&& job.priority == match exact_of(at(tree, "priority"@)) {
        Some(priority) => priority,
        None => 0,
    }
    &&& opt_text(job.state) == text_of(at(tree, "state"@))
    &&& opt_text(job.eligibility) == text_of(at(tree, "eligibility"@))
    &&& job.finished == finished_of(at(tree, "finishedAt"@))
    &&& job.updated_at == millis_of(at(tree, "updatedAt"@))
    &&& job.time_limit_ms == millis_of(at(tree, "timeLimitMs"@))
    &&& job.cancel_requested == flag_of(at(tree, "cancelRequested"@))
    &&& opt_text(job.reason) == text_of(at(tree, "stateReason"@))
    &&& job.ready_sequence == match exact_of(at(tree, "readySequence"@)) {
        Some(n) => n,
        None => i64::MAX,
    }
}

/// The job listings of a snapshot.
pub open spec fn job_trees(tree: Tree) -> Seq<Tree> {
    match at(tree, "jobs"@) {
        Tree::List(items) => items,
        _ => Seq::empty(),
    }
}

/// Whether `status` is what `tree` says.
pub open spec fn is_status(status: Status, tree: Tree) -> bool {
    &&& status.jobs@.len() == job_trees(tree).len()
    &&& forall|i: int|
        0 <= i < status.jobs@.len() ==> is_job(#[trigger] status.jobs@[i], job_trees(tree)[i])
    &&& status.paused == flag_of(at(tree, "paused"@))
    &&& status.active_leases == match natural_of(at(tree, "activeLeases"@)) {
        Some(n) => n,
        None => 0,
    }
    &&& status.effective_limit == natural_of(at(tree, "effectiveLimit"@))
    &&& status.admission_blocked == flag_of(at(tree, "admissionBlocked"@))
}

fn text_at(json: &Json, name: &str) -> (r: Option<String>)
    ensures
        opt_text(r) == text_of(at(json@, name@)),
{
    match json.get(name) {
        Some(value) => match value.as_text() {
            Some(s) => Some(s.to_owned()),
            None => None,
        },
        None => None,
    }
}

fn flag_at(json: &Json, name: &str) -> (r: bool)
    ensures
        r == flag_of(at(json@, name@)),
{
    match json.get(name) {
        Some(value) => match value.as_bool() {
            Some(b) => b,
            None => false,
        },
        None => false,
    }
}

fn exact_at(json: &Json, name: &str) -> (r: Option<i64>)
    ensures
        r == exact_of(at(json@, name@)),
{
    match json.get(name) {
        Some(value) => value.as_i64(),
        None => None,
    }
}

fn natural_at(json: &Json, name: &str) -> (r: Option<u64>)
    ensures
        r == natural_of(at(json@, name@)),
{
    match json.get(name) {
        Some(value) => value.as_u64(),
        None => None,
    }
}

fn millis_at(json: &Json, name: &str) -> (r: Option<i64>)
    ensures
        r == millis_of(at(json@, name@)),
{
    match json.get(name) {
        Some(value) => value.as_millis(),
        None => None,
    }
}

impl Job {
    pub fn read(json: &Json) -> (job: Job)
        ensures
            is_job(job, json@),
    {
        let finished = match json.get("finishedAt") {
            Some(value) => if value.is_null() {
                Finished::No
            } else {
                match value.as_millis() {
                    Some(ms) => Finished::At(ms),
                    None => Finished::Sometime,
                }
            },
            None => Finished::No,
        };
        Job {
            id: match exact_at(json, "id") {
                Some(id) => id,
                None => -1,
            },
            name: match text_at(json, "name") {
                Some(name) => name,
                None => "?".to_owned(),
            },
            priority: match exact_at(json, "priority") {
                Some(priority) => priority,
                None => 0,
            },
            state: text_at(json, "state"),
            eligibility: text_at(json, "eligibility"),
            finished,
            updated_at: millis_at(json, "updatedAt"),
            time_limit_ms: millis_at(json, "timeLimitMs"),
            cancel_requested: flag_at(json, "cancelRequested"),
            reason: text_at(json, "stateReason"),
            ready_sequence: match exact_at(json, "readySequence") {
                Some(n) => n,
                None => i64::MAX,
            },
        }
    }
}

impl Status {
    pub fn read(json: &Json) -> (status: Status)
        ensures
            is_status(status, json@),
    {
        let mut jobs: Vec<Job> = Vec::new();
        match json.get("jobs") {
            Some(Json::List(items)) => {
                let ghost trees = job_trees(json@);
                let mut i: usize = 0;
                while i < items.len()
                    invariant
                        i <= items@.len(),
                        jobs@.len() == i,
                        trees.len() == items@.len(),
                        forall|j: int| 0 <= j < items@.len() ==> trees[j] == (#[trigger] items@[j])@,
                        forall|j: int| 0 <= j < i ==> is_job(#[trigger] jobs@[j], trees[j]),
                    decreases items@.len() - i,
                {
                    let job = Job::read(&items[i]);
                    jobs.push(job);
                    i += 1;
                }
            },
            _ => {},
        }
        Status {
            jobs,
            paused: flag_at(json, "paused"),
            active_leases: match natural_at(json, "activeLeases") {
                Some(n) => n,
                None => 0,
            },
            effective_limit: natural_at(json, "effectiveLimit"),
            admission_blocked: flag_at(json, "admissionBlocked"),
        }
    }
}

/// What the daemon answered.
#[derive(Debug, Clone)]
pub enum Reply {
    /// A snapshot of the queue.
    Status(Status),
    /// Something else, which is no error.
    Other,
    /// It refused, with this reason.
    Refused(String),
    /// Bytes that hold no document.
    Malformed,
}

/// The reason a refusing answer gives: its code, then its message.
pub open spec fn refusal(error: Tree) -> Seq<char> {
    let code = match text_of(at(error, "code"@)) {
        Some(code) => code,
        None => "None"@,
    };
    let message = match text_of(at(error, "message"@)) {
        Some(message) => message,
        None => "None"@,
    };
    code + ": "@ + message
}

/// Whether `reply` is what the document says.
pub open spec fn is_reply(reply: Reply, document: Option<Tree>) -> bool {
    match document {
        None => reply is Malformed,
        Some(tree) => {
            let error = at(tree, "error"@);
            let answer = at(tree, "reply"@);
            if error != Tree::Null {
                reply matches Reply::Refused(reason) && reason@ == refusal(error)
            } else if text_of(at(answer, "type"@)) == Some("status"@) {
                reply matches Reply::Status(status) && is_status(status, answer)
            } else {
                reply is Other
            }
        },
    }
}

/// Read one answer of the daemon.
pub fn read_reply(body: &[u8]) -> (reply: Reply)
    ensures
        is_reply(reply, document(body@)),
{
    match parse(body) {
        Some(json) => reply_in(&json),
        None => Reply::Malformed,
    }
}

/// What a document from the daemon answers.
pub fn reply_in(json: &Json) -> (reply: Reply)
    ensures
        is_reply(reply, Some(json@)),
{
    match json.get("error") {
        Some(error) => if !error.is_null() {
            let code = match text_at(error, "code") {
                Some(code) => code,
                None => "None".to_owned(),
            };
            let message = match text_at(error, "message") {
                Some(message) => message,
                None => "None".to_owned(),
            };
            return Reply::Refused(concat3(code.as_str(), ": ", message.as_str()));
        },
        None => {},
    }
    match json.get("reply") {
        Some(answer) => match text_at(answer, "type") {
            Some(kind) => if same(kind.as_str(), "status") {
                Reply::Status(Status::read(answer))
            } else {
                Reply::Other
            },
            None => Reply::Other,
        },
        None => {
            assert(member(Tree::Null, "type"@) is None);
            Reply::Other
        },
    }
}

} // verus!
