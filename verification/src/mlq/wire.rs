//! What goes over the daemon's socket and the bar's pipes.
use crate::json::{
    at, bool_of, document, integer, integer_tree, members_of, object, parse, put, text, text_of, Json,
    Tree,
};
use crate::number::{
    decimal, i64_of, law_decimals_read_back, law_signed_decimals_read_back, parse_i64, signed,
    signed_decimal, unsigned, unsigned128,
};
use crate::paths::{join_path, seen_from};
use crate::text::{
    concat, concat3, concat4, cut, is_digit, is_white, same, split_once, trim, trimmed,
};
use vstd::prelude::*;
use vstd::string::*;
use vstd::utf8::encode_utf8;

verus! {

/// The daemon's protocol version.
pub const PROTOCOL_VERSION: u32 = 8;

/// A longer frame is a stream out of step, not a frame.
pub const MAX_FRAME_BYTES: u32 = 1 << 20;

/// The number that four bytes spell, most significant first.
pub open spec fn big_endian(b: Seq<u8>) -> int {
    b[0] * 0x100_0000 + b[1] * 0x1_0000 + b[2] * 0x100 + b[3]
}

/// The prefix of a body of that many bytes; none where four bytes cannot count
/// them.
pub fn frame_prefix(length: usize) -> (r: Option<[u8; 4]>)
    ensures
        match r {
            Some(prefix) => length <= u32::MAX && big_endian(prefix@) == length,
            None => length > u32::MAX,
        },
{
    if length > 0xffff_ffff {
        return None;
    }
    let n: u32 = length as u32;
    let a: u8 = (n / 0x100_0000) as u8;
    let b: u8 = (n / 0x1_0000 % 0x100) as u8;
    let c: u8 = (n / 0x100 % 0x100) as u8;
    let d: u8 = (n % 0x100) as u8;
    Some([a, b, c, d])
}

/// The length that a prefix announces: `Err` where it cannot be a frame's.
pub open spec fn announced(prefix: Seq<u8>) -> Result<u32, u32> {
    let n = big_endian(prefix) as u32;
    if n > MAX_FRAME_BYTES {
        Err(n)
    } else {
        Ok(n)
    }
}

/// How long the body is that a prefix announces; the announced length where it
/// cannot be a frame's.
pub fn frame_length(prefix: [u8; 4]) -> (r: Result<u32, u32>)
    ensures
        r == announced(prefix@),
        match r {
            Ok(n) => n == big_endian(prefix@) && n <= MAX_FRAME_BYTES,
            Err(n) => n == big_endian(prefix@) && n > MAX_FRAME_BYTES,
        },
{
    let n: u32 = prefix[0] as u32 * 0x100_0000 + prefix[1] as u32 * 0x1_0000 + prefix[2] as u32
        * 0x100 + prefix[3] as u32;
    if n > MAX_FRAME_BYTES {
        Err(n)
    } else {
        Ok(n)
    }
}

/// A length that was written is the length that is read, and is refused exactly
/// where no frame is that long.
pub proof fn law_a_written_length_is_read_back(prefix: Seq<u8>, length: usize)
    requires
        prefix.len() == 4,
        length <= u32::MAX,
        big_endian(prefix) == length,
    ensures
        length <= MAX_FRAME_BYTES ==> announced(prefix) == Ok::<u32, u32>(length as u32),
        length > MAX_FRAME_BYTES ==> announced(prefix) == Err::<u32, u32>(length as u32),
{
}

/// Two prefixes that announce the same length are the same.
pub proof fn law_prefixes_are_unique(a: Seq<u8>, b: Seq<u8>)
    requires
        a.len() == 4,
        b.len() == 4,
        big_endian(a) == big_endian(b),
    ensures
        a == b,
{
    assert(big_endian(a) % 0x100 == a[3]);
    assert(big_endian(b) % 0x100 == b[3]);
    assert(big_endian(a) / 0x100 == a[0] * 0x1_0000 + a[1] * 0x100 + a[2]);
    assert(big_endian(b) / 0x100 == b[0] * 0x1_0000 + b[1] * 0x100 + b[2]);
    assert(a[2] == b[2]);
    assert(a[0] * 0x100 + a[1] == b[0] * 0x100 + b[1]);
    assert(a[1] == b[1]);
    assert(a =~= b);
}

/// What one read of a socket brought.
#[derive(Clone, Copy, PartialEq, Eq, Structural, Debug)]
pub enum Got {
    /// So many bytes; none at the end of the stream.
    Bytes(usize),
    Interrupted,
    Failed,
}

/// How a read of a fixed number of bytes stands.
#[derive(Clone, Copy, PartialEq, Eq, Structural, Debug)]
pub enum Progress {
    /// So many bytes are there; read on.
    Reading(usize),
    /// All of them are there.
    Done,
    /// The stream ended before the first of them.
    Closed,
    /// The stream ended among them.
    Truncated,
    Failed,
}

/// The next step of a read of `wanted` bytes of which `read` are there.
pub fn read_step(read: usize, wanted: usize, got: Got) -> (r: Progress)
    requires
        read < wanted,
        got matches Got::Bytes(count) ==> count <= wanted - read,
    ensures
        r == match got {
            Got::Bytes(count) => if count > 0 {
                if read + count == wanted {
                    Progress::Done
                } else {
                    Progress::Reading((read + count) as usize)
                }
            } else if read == 0 {
                Progress::Closed
            } else {
                Progress::Truncated
            },
            Got::Interrupted => Progress::Reading(read),
            Got::Failed => Progress::Failed,
        },
{
    match got {
        Got::Bytes(count) => {
            if count == 0 {
                if read == 0 {
                    Progress::Closed
                } else {
                    Progress::Truncated
                }
            } else if read + count == wanted {
                Progress::Done
            } else {
                Progress::Reading(read + count)
            }
        },
        Got::Interrupted => Progress::Reading(read),
        Got::Failed => Progress::Failed,
    }
}

/// A value of the environment, unless it is empty.
pub open spec fn set(value: Option<&str>) -> Option<Seq<char>> {
    match value {
        Some(s) => if s@.len() > 0 {
            Some(s@)
        } else {
            None
        },
        None => None,
    }
}

/// Where the daemon's socket is, from the runtime directory, the state
/// directory and home that the environment names.
pub fn socket_path(runtime: Option<&str>, state: Option<&str>, home: Option<&str>) -> (r: String)
    ensures
        r@ == match set(runtime) {
            Some(runtime) => seen_from(runtime, "mlqueue/mlqd.sock"@),
            None => seen_from(
                match set(state) {
                    Some(state) => state,
                    None => seen_from(
                        match set(home) {
                            Some(home) => home,
                            None => "~"@,
                        },
                        ".local/state"@,
                    ),
                },
                "mlqueue/runtime/mlqd.sock"@,
            ),
        },
{
    match runtime {
        Some(runtime) => if !runtime.is_empty() {
            return join_path(runtime, "mlqueue/mlqd.sock");
        },
        None => {},
    }
    match state {
        Some(state) => if !state.is_empty() {
            return join_path(state, "mlqueue/runtime/mlqd.sock");
        },
        None => {},
    }
    let home: &str = match home {
        Some(home) => if home.is_empty() {
            "~"
        } else {
            home
        },
        None => "~",
    };
    join_path(join_path(home, ".local/state").as_str(), "mlqueue/runtime/mlqd.sock")
}

/// A request's id: the process, the time in nanoseconds, and a count.
pub fn request_id(process: u32, nanos: u128, count: u64) -> (r: String)
    ensures
        r@ == "cosmicbar-mlq-"@ + decimal(process as nat) + "-"@ + decimal(nanos as nat) + "-"@
            + decimal(count as nat),
{
    let process = unsigned(process as u64);
    let nanos = unsigned128(nanos);
    let start = concat4("cosmicbar-mlq-", process.as_str(), "-", nanos.as_str());
    concat3(start.as_str(), "-", unsigned(count).as_str())
}

/// What a popup button asks of the daemon.
#[derive(Clone, Copy, PartialEq, Eq, Structural, Debug)]
pub enum Operation {
    Pause,
    Unpause,
    Cancel(i64),
    Retry(i64),
    Release(i64),
}

/// An operation on one job, as the daemon takes it.
pub open spec fn job_members(verb: Seq<char>, job: i64) -> Seq<(Seq<char>, Tree)> {
    seq![("type"@, Tree::Text(verb)), ("job"@, integer_tree(job))]
}

/// An operation as the daemon takes it. A cancel lets the job end by itself.
pub open spec fn operation_tree(op: Operation) -> Tree {
    Tree::Object(
        match op {
            Operation::Pause => seq![("type"@, Tree::Text("pause"@))],
            Operation::Unpause => seq![("type"@, Tree::Text("unpause"@))],
            Operation::Cancel(job) => job_members("cancel"@, job).push(
                ("force"@, Tree::Bool(false)),
            ),
            Operation::Retry(job) => job_members("retry"@, job),
            Operation::Release(job) => job_members("release"@, job),
        },
    )
}

fn on_queue(verb: &str) -> (r: Vec<(String, Json)>)
    ensures
        members_of(r@) == seq![("type"@, Tree::Text(verb@))],
{
    let mut members: Vec<(String, Json)> = Vec::new();
    assert(members_of(members@) =~= Seq::empty());
    put(&mut members, "type", text(verb));
    members
}

fn on_job(verb: &str, job: i64) -> (r: Vec<(String, Json)>)
    ensures
        members_of(r@) == job_members(verb@, job),
{
    let mut members = on_queue(verb);
    put(&mut members, "job", integer(job));
    assert(members_of(members@) =~= job_members(verb@, job));
    members
}

impl Operation {
    pub fn json(&self) -> (r: Json)
        ensures
            r@ == operation_tree(*self),
    {
        let members = match *self {
            Operation::Pause => on_queue("pause"),
            Operation::Unpause => on_queue("unpause"),
            Operation::Cancel(job) => {
                let mut members = on_job("cancel", job);
                put(&mut members, "force", Json::Bool(false));
                members
            },
            Operation::Retry(job) => on_job("retry", job),
            Operation::Release(job) => on_job("release", job),
        };
        object(members)
    }
}

/// What is asked of the daemon, with the key by which it tells a request that
/// it was sent twice.
pub open spec fn request_tree(id: Seq<char>, key: Option<Seq<char>>, op: Tree) -> Tree {
    let start = seq![
        ("protocol_version"@, integer_tree(PROTOCOL_VERSION as i64)),
        ("request_id"@, Tree::Text(id)),
    ];
    Tree::Object(
        match key {
            Some(key) => start.push(("idempotency_key"@, Tree::Text(key))),
            None => start,
        }.push(("op"@, op)),
    )
}

fn request_in(id: &str, key: Option<&str>, op: Json) -> (r: Json)
    ensures
        r@ == request_tree(
            id@,
            match key {
                Some(key) => Some(key@),
                None => None,
            },
            op@,
        ),
{
    let mut members: Vec<(String, Json)> = Vec::new();
    assert(members_of(members@) =~= Seq::empty());
    put(&mut members, "protocol_version", integer(PROTOCOL_VERSION as i64));
    put(&mut members, "request_id", text(id));
    assert(members_of(members@) =~= seq![
        ("protocol_version"@, integer_tree(PROTOCOL_VERSION as i64)),
        ("request_id"@, Tree::Text(id@)),
    ]);
    match key {
        Some(key) => put(&mut members, "idempotency_key", text(key)),
        None => {},
    }
    put(&mut members, "op", op);
    object(members)
}

/// The request for an operation.
pub fn request(op: Operation, id: &str, key: &str) -> (r: Json)
    ensures
        r@ == request_tree(id@, Some(key@), operation_tree(op)),
{
    request_in(id, Some(key), op.json())
}

/// The request for a snapshot of the queue at every change.
pub fn subscription(id: &str) -> (r: Json)
    ensures
        r@ == request_tree(
            id@,
            None,
            Tree::Object(seq![("type"@, Tree::Text("subscribe"@))]),
        ),
{
    request_in(id, None, object(on_queue("subscribe")))
}

/// What the standard library says of a text that is no `i64`.
pub uninterp spec fn parse_error(s: Seq<char>) -> Seq<char>;

/// The text of the error of `str::parse::<i64>`, a function of the parsed text
/// alone; what it says of a text that does parse is not described.
#[verifier::external_body]
fn parse_error_text(s: &str) -> (r: String)
    ensures
        r@ == parse_error(s@),
{
    match s.parse::<i64>() {
        Ok(_) => String::new(),
        Err(error) => error.to_string(),
    }
}

/// The verb of an action, and the text of the job it names.
pub open spec fn verb_of(action: Seq<char>) -> (Seq<char>, Option<Seq<char>>) {
    match cut(action, ':') {
        Some((verb, job)) => (verb, Some(trimmed(job))),
        None => (action, None),
    }
}

/// The operation that a verb stands for, on that job or on the whole queue.
pub open spec fn operation_of(verb: Seq<char>, job: Option<i64>) -> Option<Operation> {
    match job {
        None => if verb == "pause"@ {
            Some(Operation::Pause)
        } else if verb == "unpause"@ {
            Some(Operation::Unpause)
        } else {
            None
        },
        Some(job) => if verb == "cancel"@ {
            Some(Operation::Cancel(job))
        } else if verb == "retry"@ {
            Some(Operation::Retry(job))
        } else if verb == "release"@ {
            Some(Operation::Release(job))
        } else {
            None
        },
    }
}

/// The operation that an action asks for, where it asks for one.
pub open spec fn asked(action: Seq<char>) -> Option<Operation> {
    let (verb, number) = verb_of(action);
    match number {
        Some(s) => match i64_of(s) {
            Some(job) => operation_of(verb, Some(job)),
            None => None,
        },
        None => operation_of(verb, None),
    }
}

pub open spec fn unknown_action(action: Seq<char>) -> Seq<char> {
    "unknown action `"@ + action + "`"@
}

/// The daemon operation a popup button stands for, and its idempotency key:
/// `pause`, `unpause`, or a verb on one job, `cancel:12`.
pub fn operation(action: &str, request: &str) -> (r: Result<(Operation, String), String>)
    ensures
        match asked(action@) {
            Some(op) => r matches Ok((done, _)) && done == op,
            None => r is Err,
        },
        ({
            let (verb, number) = verb_of(action@);
            let job = match number {
                Some(s) => i64_of(s),
                None => None,
            };
            if number is Some && job is None {
                r matches Err(error) && error@ == parse_error(number->0)
            } else {
                match operation_of(verb, job) {
                    Some(op) => r matches Ok((done, key)) && done == op && key@
                        == "cosmicbar-mlq-"@ + verb + "-"@ + match job {
                        Some(job) => signed_decimal(job as int) + "-"@,
                        None => Seq::empty(),
                    } + request@,
                    None => r matches Err(error) && error@ == unknown_action(action@),
                }
            }
        }),
{
    let unknown = concat3("unknown action `", action, "`");
    match split_once(action, ':') {
        Some((verb, job)) => {
            let number = trim(job);
            match parse_i64(number) {
                Some(job) => {
                    let op = if same(verb, "cancel") {
                        Operation::Cancel(job)
                    } else if same(verb, "retry") {
                        Operation::Retry(job)
                    } else if same(verb, "release") {
                        Operation::Release(job)
                    } else {
                        return Err(unknown);
                    };
                    let start = concat3("cosmicbar-mlq-", verb, "-");
                    let job_part = concat(signed(job).as_str(), "-");
                    Ok((op, concat3(start.as_str(), job_part.as_str(), request)))
                },
                None => Err(parse_error_text(number)),
            }
        },
        None => {
            let op = if same(action, "pause") {
                Operation::Pause
            } else if same(action, "unpause") {
                Operation::Unpause
            } else {
                return Err(unknown);
            };
            let start = concat3("cosmicbar-mlq-", action, "-");
            let key = concat(start.as_str(), request);
            assert(start@ + Seq::<char>::empty() =~= start@);
            Ok((op, key))
        },
    }
}

/// An action that names a job by its number is read as one on that job.
pub proof fn lemma_names_its_job(verb: Seq<char>, job: i64)
    requires
        !verb.contains(':'),
    ensures
        verb_of(verb + seq![':'] + signed_decimal(job as int)) == (
            verb,
            Some(signed_decimal(job as int)),
        ),
        trimmed(signed_decimal(job as int)) == signed_decimal(job as int),
        i64_of(signed_decimal(job as int)) == Some(job),
{
    let number = signed_decimal(job as int);
    let action = verb + seq![':'] + number;
    law_signed_decimals_read_back(job as int);
    if job < 0 {
        law_decimals_read_back((-(job as int)) as nat);
    } else {
        law_decimals_read_back(job as nat);
    }
    assert(number.last() == '-' || is_digit(number.last()));
    assert(!is_white(number[0]));
    assert(!is_white(number.last()));
    assert(action[verb.len() as int] == ':');
    action.index_of_first_ensures(':');
    assert forall|j: int| 0 <= j < verb.len() implies action[j] != ':' by {
        assert(action[j] == verb[j]);
        assert(verb.contains(verb[j]));
    }
    assert(action.index_of_first(':') == Some(verb.len() as int));
    assert(action.take(verb.len() as int) =~= verb);
    assert(action.skip(verb.len() as int + 1) =~= number);
}

/// What the bar told the extension in one line.
#[derive(Debug, Clone)]
pub struct Told {
    pub popup: Option<bool>,
    pub action: Option<String>,
}

/// A line from the bar: nothing in a blank line, or what its document says.
#[derive(Debug, Clone)]
pub enum Line {
    Blank,
    Malformed,
    Told(Told),
}

pub open spec fn is_told(told: Told, tree: Tree) -> bool {
    &&& told.popup == bool_of(at(tree, "popup"@))
    &&& match told.action {
        Some(action) => text_of(at(tree, "action"@)) == Some(action@),
        None => text_of(at(tree, "action"@)) is None,
    }
}

pub fn told_in(json: &Json) -> (told: Told)
    ensures
        is_told(told, json@),
{
    let popup = match json.get("popup") {
        Some(value) => value.as_bool(),
        None => None,
    };
    let action = match json.get("action") {
        Some(value) => match value.as_text() {
            Some(action) => Some(action.to_owned()),
            None => None,
        },
        None => None,
    };
    Told { popup, action }
}

/// Read one line from the bar.
pub fn read_line(line: &str) -> (r: Line)
    ensures
        if trimmed(line@).len() == 0 {
            r is Blank
        } else {
            match document(encode_utf8(line@)) {
                Some(tree) => r matches Line::Told(told) && is_told(told, tree),
                None => r is Malformed,
            }
        },
{
    if trim(line).is_empty() {
        return Line::Blank;
    }
    match parse(line.as_bytes()) {
        Some(json) => Line::Told(told_in(&json)),
        None => Line::Malformed,
    }
}

} // verus!
