//! What holds of the queue extension: what it asks, what it reads and what it
//! draws.
use crate::extension::{Cell, Line, Role, Row};
use crate::json::{at, bool_of, exact_of, member_in, natural_of, text_of, Tree};
use crate::mlq::draw::{
    action_tree, button_tree, cell_tree, entry_tree, frame_tree, header_tree, line_tree, meter_tree,
    role_text, row_tree,
};
use crate::mlq::extension::{
    cancels, clock_due, disarm_due, due, elapsed, is_busy, is_live, is_running, pressed,
    until_change, Extension,
};
use crate::mlq::frame::{
    attention_view, busy_count, cell_view, entries, group_of, header_view, headline, is_drawn,
    law_cell_names_the_longest, names_in, pending_count, recent_view, running_view, tally, turn_of,
    waiting_view, Button, Drawn, Entry, Group, JobRow,
};
use crate::mlq::job::{is_job, is_reply, is_status, refusal, Finished, Job, Reply, Status};
use crate::mlq::wire::{
    announced, asked, big_endian, is_told, operation_tree, request_tree, Operation, Told,
};
use crate::mlq::words::{
    duration_text, outcome_of, standing_of, stands, wait_text, waits_for, Standing,
};
use crate::number::{decimal, signed_decimal, two_digits};
use crate::order::Ranked;
use crate::text::{elided, joined, opt_text};
use vstd::prelude::*;
use vstd::string::*;

verus! {

proof fn lemma_member(members: Seq<(Seq<char>, Tree)>, i: int)
    requires
        0 <= i < members.len(),
        forall|j: int| 0 <= j < i ==> (#[trigger] members[j]).0 != members[i].0,
    ensures
        member_in(members, members[i].0) == Some(members[i].1),
    decreases members.len(),
{
    if i > 0 {
        let rest = members.skip(1);
        assert(members[0].0 != members[i].0);
        assert(rest[i - 1] == members[i]);
        assert forall|j: int| 0 <= j < i - 1 implies (#[trigger] rest[j]).0 != rest[i - 1].0 by {
            assert(rest[j] == members[j + 1]);
        }
        lemma_member(rest, i - 1);
    }
}

proof fn lemma_no_member(members: Seq<(Seq<char>, Tree)>, name: Seq<char>)
    requires
        forall|j: int| 0 <= j < members.len() ==> (#[trigger] members[j]).0 != name,
    ensures
        member_in(members, name) is None,
    decreases members.len(),
{
    if members.len() > 0 {
        let rest = members.skip(1);
        assert(members[0].0 != name);
        assert forall|j: int| 0 <= j < rest.len() implies (#[trigger] rest[j]).0 != name by {
            assert(rest[j] == members[j + 1]);
        }
        lemma_no_member(rest, name);
    }
}

proof fn lemma_keys()
    ensures
        "type"@ != "job"@ && "type"@ != "force"@ && "job"@ != "force"@,
        "protocol_version"@ != "request_id"@ && "protocol_version"@ != "idempotency_key"@
            && "protocol_version"@ != "op"@ && "request_id"@ != "idempotency_key"@ && "request_id"@
            != "op"@ && "idempotency_key"@ != "op"@,
        "glyph"@ != "text"@ && "glyph"@ != "color"@ && "text"@ != "color"@ && "text"@ != "small"@
            && "color"@ != "small"@,
        "id"@ != "label"@ && "id"@ != "glyph"@ && "glyph"@ != "label"@ && "id"@ != "danger"@ && "id"@
            != "enabled"@ && "label"@ != "danger"@ && "label"@ != "enabled"@ && "danger"@
            != "enabled"@ && "glyph"@ != "danger"@ && "glyph"@ != "enabled"@,
        "value"@ != "color"@,
        "lines"@ != "action"@ && "lines"@ != "progress"@ && "progress"@ != "action"@,
        "cell"@ != "header"@ && "cell"@ != "popup"@ && "header"@ != "popup"@,
{
    reveal_strlit("type");
    reveal_strlit("job");
    reveal_strlit("force");
    reveal_strlit("protocol_version");
    reveal_strlit("request_id");
    reveal_strlit("idempotency_key");
    reveal_strlit("op");
    reveal_strlit("glyph");
    reveal_strlit("text");
    reveal_strlit("color");
    reveal_strlit("small");
    reveal_strlit("id");
    reveal_strlit("label");
    reveal_strlit("danger");
    reveal_strlit("enabled");
    reveal_strlit("value");
    reveal_strlit("lines");
    reveal_strlit("action");
    reveal_strlit("progress");
    reveal_strlit("cell");
    reveal_strlit("header");
    reveal_strlit("popup");
    assert("glyph"@[0] == 'g' && "color"@[0] == 'c' && "small"@[0] == 's' && "label"@[0] == 'l'
        && "value"@[0] == 'v' && "lines"@[0] == 'l' && "popup"@[0] == 'p');
    assert("type"@.len() == 4 && "job"@.len() == 3 && "force"@.len() == 5);
    assert("protocol_version"@.len() == 16 && "request_id"@.len() == 10
        && "idempotency_key"@.len() == 15 && "op"@.len() == 2);
    assert("text"@.len() == 4 && "id"@.len() == 2 && "progress"@.len() == 8 && "cell"@.len() == 4);
    assert("danger"@.len() == 6 && "enabled"@.len() == 7 && "header"@.len() == 6 && "action"@.len()
        == 6);
}

proof fn lemma_verbs()
    ensures
        "pause"@ != "unpause"@ && "pause"@ != "cancel"@ && "pause"@ != "retry"@ && "pause"@
            != "release"@ && "unpause"@ != "cancel"@ && "unpause"@ != "retry"@ && "unpause"@
            != "release"@ && "cancel"@ != "retry"@ && "cancel"@ != "release"@ && "retry"@
            != "release"@,
{
    reveal_strlit("pause");
    reveal_strlit("unpause");
    reveal_strlit("cancel");
    reveal_strlit("retry");
    reveal_strlit("release");
    assert("pause"@[0] == 'p' && "unpause"@[0] == 'u' && "cancel"@[0] == 'c' && "retry"@[0] == 'r'
        && "release"@[0] == 'r' && "retry"@.len() == 5 && "release"@.len() == 7);
}

/// What the daemon is asked is what was meant: each operation by its own verb, on
/// its own job, and a cancel without force.
pub proof fn law_requests_say_what_is_meant(op: Operation)
    ensures
        at(operation_tree(op), "type"@) == Tree::Text("pause"@) <==> op == Operation::Pause,
        at(operation_tree(op), "type"@) == Tree::Text("unpause"@) <==> op == Operation::Unpause,
        at(operation_tree(op), "type"@) == Tree::Text("cancel"@) <==> op is Cancel,
        at(operation_tree(op), "type"@) == Tree::Text("retry"@) <==> op is Retry,
        at(operation_tree(op), "type"@) == Tree::Text("release"@) <==> op is Release,
        op matches Operation::Cancel(job) ==> exact_of(at(operation_tree(op), "job"@)) == Some(job)
            && at(operation_tree(op), "force"@) == Tree::Bool(false),
        op matches Operation::Retry(job) ==> exact_of(at(operation_tree(op), "job"@)) == Some(job),
        op matches Operation::Release(job) ==> exact_of(at(operation_tree(op), "job"@)) == Some(
            job,
        ),
{
    lemma_keys();
    lemma_verbs();
    let members = operation_tree(op)->Object_0;
    lemma_member(members, 0);
    if members.len() > 1 {
        lemma_member(members, 1);
    }
    if members.len() > 2 {
        lemma_member(members, 2);
    }
}

/// A request is in the protocol's version, under its own id and key, and carries
/// what is asked.
pub proof fn law_requests_carry_what_is_asked(id: Seq<char>, key: Seq<char>, op: Tree)
    ensures
        ({
            let tree = request_tree(id, Some(key), op);
            &&& exact_of(at(tree, "protocol_version"@)) == Some(8i64)
            &&& at(tree, "request_id"@) == Tree::Text(id)
            &&& at(tree, "idempotency_key"@) == Tree::Text(key)
            &&& at(tree, "op"@) == op
        }),
        ({
            let tree = request_tree(id, None, op);
            &&& exact_of(at(tree, "protocol_version"@)) == Some(8i64)
            &&& at(tree, "request_id"@) == Tree::Text(id)
            &&& at(tree, "idempotency_key"@) == Tree::Null
            &&& at(tree, "op"@) == op
        }),
{
    lemma_keys();
    let keyed = request_tree(id, Some(key), op)->Object_0;
    lemma_member(keyed, 0);
    lemma_member(keyed, 1);
    lemma_member(keyed, 2);
    lemma_member(keyed, 3);
    let plain = request_tree(id, None, op)->Object_0;
    lemma_member(plain, 0);
    lemma_member(plain, 1);
    lemma_member(plain, 2);
    lemma_no_member(plain, "idempotency_key"@);
}

/// A length is written most significant byte first, and one over the cap is
/// refused.
pub proof fn law_lengths_are_big_endian(a: u8, b: u8, c: u8, d: u8)
    ensures
        big_endian(seq![a, b, c, d]) == ((a * 256 + b) * 256 + c) * 256 + d,
        big_endian(seq![a, b, c, d]) <= 0x10_0000 ==> announced(seq![a, b, c, d]) == Ok::<u32, u32>(
            big_endian(seq![a, b, c, d]) as u32,
        ),
        big_endian(seq![a, b, c, d]) > 0x10_0000 ==> announced(seq![a, b, c, d]) is Err,
{
    let s = seq![a, b, c, d];
    assert(0 <= big_endian(s) <= 0xffff_ffff);
    assert(1u32 << 20 == 0x10_0000u32) by (bit_vector);
}

/// The bar is heard for what it says: whether the popup is open and which action
/// was pressed.
pub proof fn law_the_bar_is_heard_for_what_it_says(told: Told, tree: Tree)
    requires
        is_told(told, tree),
    ensures
        told.popup == bool_of(at(tree, "popup"@)),
        told.action is Some <==> at(tree, "action"@) is Text,
        told.action matches Some(action) ==> at(tree, "action"@) == Tree::Text(action@),
{
}

/// A job has what the daemon says of it, each under its own name.
pub proof fn law_jobs_have_what_is_said_of_them(job: Job, tree: Tree)
    requires
        is_job(job, tree),
    ensures
        exact_of(at(tree, "id"@)) matches Some(id) ==> job.id == id,
        text_of(at(tree, "name"@)) matches Some(name) ==> job.name@ == name,
        exact_of(at(tree, "priority"@)) matches Some(priority) ==> job.priority == priority,
        at(tree, "priority"@) == Tree::Null ==> job.priority == 0,
        text_of(at(tree, "state"@)) == opt_text(job.state),
        text_of(at(tree, "eligibility"@)) == opt_text(job.eligibility),
        at(tree, "finishedAt"@) == Tree::Null <==> job.finished == Finished::No,
        exact_of(at(tree, "finishedAt"@)) matches Some(ms) ==> job.finished == Finished::At(ms),
        exact_of(at(tree, "updatedAt"@)) is Some ==> job.updated_at == exact_of(
            at(tree, "updatedAt"@),
        ),
        exact_of(at(tree, "timeLimitMs"@)) is Some ==> job.time_limit_ms == exact_of(
            at(tree, "timeLimitMs"@),
        ),
        at(tree, "timeLimitMs"@) == Tree::Null ==> job.time_limit_ms is None,
        job.cancel_requested <==> at(tree, "cancelRequested"@) == Tree::Bool(true),
        text_of(at(tree, "stateReason"@)) == opt_text(job.reason),
        exact_of(at(tree, "readySequence"@)) matches Some(n) ==> job.ready_sequence == n,
        at(tree, "readySequence"@) == Tree::Null ==> job.ready_sequence == i64::MAX,
{
}

/// The queue has what the daemon says of it, and its jobs in their order.
pub proof fn law_the_queue_has_what_is_said_of_it(status: Status, tree: Tree)
    requires
        is_status(status, tree),
    ensures
        status.paused <==> at(tree, "paused"@) == Tree::Bool(true),
        status.admission_blocked <==> at(tree, "admissionBlocked"@) == Tree::Bool(true),
        natural_of(at(tree, "activeLeases"@)) matches Some(n) ==> status.active_leases == n,
        status.effective_limit == natural_of(at(tree, "effectiveLimit"@)),
        at(tree, "jobs"@) matches Tree::List(items) ==> {
            &&& status.jobs@.len() == items.len()
            &&& forall|i: int|
                0 <= i < items.len() ==> (exact_of(at(#[trigger] items[i], "id"@)) matches Some(id)
                    ==> status.jobs@[i].id == id)
        },
        !(at(tree, "jobs"@) is List) ==> status.jobs@.len() == 0,
{
    match at(tree, "jobs"@) {
        Tree::List(items) => {
            assert forall|i: int| 0 <= i < items.len() implies (exact_of(
                at(#[trigger] items[i], "id"@),
            ) matches Some(id) ==> status.jobs@[i].id == id) by {
                assert(is_job(status.jobs@[i], items[i]));
            }
        },
        _ => {},
    }
}

/// A refusal is told before anything else, with its code and its message.
pub proof fn law_refusals_come_first(reply: Reply, tree: Tree)
    requires
        is_reply(reply, Some(tree)),
    ensures
        at(tree, "error"@) != Tree::Null <==> reply is Refused,
        reply matches Reply::Refused(reason) ==> (text_of(at(at(tree, "error"@), "code"@)) is Some
            && text_of(at(at(tree, "error"@), "message"@)) is Some ==> reason@ == text_of(
            at(at(tree, "error"@), "code"@),
        )->0 + ": "@ + text_of(at(at(tree, "error"@), "message"@))->0),
        reply is Status ==> at(at(tree, "reply"@), "type"@) == Tree::Text("status"@),
        at(tree, "error"@) == Tree::Null && at(at(tree, "reply"@), "type"@) == Tree::Text(
            "status"@,
        ) ==> reply is Status,
        !(reply is Malformed),
{
}

/// A job that was pressed to be cancelled is armed, and cancelled by a second press
/// between two fifths of a second and four seconds later; any other press goes
/// through at once.
pub proof fn law_cancels_take_two_presses(armed: Option<(i64, u64)>, action: Seq<char>, clock: u64)
    ensures
        cancels(action) is None ==> pressed(armed, action, clock) == (None::<(i64, u64)>, true),
        cancels(action) matches Some(job) ==> {
            &&& armed is None ==> pressed(armed, action, clock) == (Some((job, clock)), false)
            &&& armed matches Some((id, then)) ==> {
                &&& id != job ==> pressed(armed, action, clock) == (Some((job, clock)), false)
                &&& id == job && clock >= then + 4_000_000_000 ==> pressed(armed, action, clock)
                    == (Some((job, clock)), false)
                &&& id == job && then <= clock < then + 400_000_000 ==> pressed(armed, action, clock)
                    == (armed, false)
                &&& id == job && then + 400_000_000 <= clock < then + 4_000_000_000 ==> pressed(
                    armed,
                    action,
                    clock,
                ) == (None::<(i64, u64)>, true)
            }
        },
{
}

/// How long a job runs reads the same until it is due to change, and differently
/// then.
pub proof fn law_durations_hold_until_they_are_due(ms: int, later: int)
    requires
        ms >= 0,
        ms <= later < ms + until_change(ms),
    ensures
        duration_text(later) == duration_text(ms),
        0 < until_change(ms) <= 60_000,
        (ms + until_change(ms)) % 1000 == 0,
{
    if ms < 60_000 {
        assert(later / 1000 == ms / 1000);
    } else {
        assert(later / 60_000 == ms / 60_000);
        assert(later / 1000 / 60 == later / 60_000);
        assert(ms / 1000 / 60 == ms / 60_000);
    }
}

/// Durations read in seconds, minutes, or hours and minutes.
pub proof fn law_durations_read_in_their_unit(hours: int, minutes: int, seconds: int, ms: int)
    requires
        hours >= 0,
        0 <= minutes < 60,
        0 <= seconds < 60,
        0 <= ms < 1000,
    ensures
        ({
            let all = ((hours * 60 + minutes) * 60 + seconds) * 1000 + ms;
            &&& hours == 0 && minutes == 0 ==> duration_text(all) == decimal(seconds as nat) + "s"@
            &&& hours == 0 && minutes > 0 ==> duration_text(all) == decimal(minutes as nat) + "m"@
            &&& hours > 0 && minutes == 0 ==> duration_text(all) == decimal(hours as nat) + "h"@
            &&& hours > 0 && minutes > 0 ==> duration_text(all) == decimal(hours as nat) + "h"@
                + two_digits(minutes as nat) + "m"@
        }),
{
    let all = ((hours * 60 + minutes) * 60 + seconds) * 1000 + ms;
    assert(all / 1000 == (hours * 60 + minutes) * 60 + seconds);
    assert(((hours * 60 + minutes) * 60 + seconds) / 60 == hours * 60 + minutes);
    assert((hours * 60 + minutes) / 60 == hours);
    assert((hours * 60 + minutes) % 60 == minutes);
}

proof fn lemma_codes()
    ensures
        "protected_drain"@.len() == 15,
        "supersedes_lower_priority"@.len() == 25,
        "waiting_for_slot"@.len() == 16,
        "waiting_for_higher_priority"@.len() == 27,
        "backfill_window_open"@.len() == 20,
        "backfill_eligible"@.len() == 17 && "backfill_eligible"@[0] == 'b',
        "waiting_for_retry_delay"@.len() == 23,
        "paused"@.len() == 6,
        "admission_blocked"@.len() == 17 && "admission_blocked"@[0] == 'a',
        "behind_backfill_cutoff"@.len() == 22,
        "backfill_bypass_consumed"@.len() == 24 && "backfill_bypass_consumed"@[0] == 'b',
        "waiting_for_dependencies"@.len() == 24 && "waiting_for_dependencies"@[0] == 'w',
        "held"@.len() == 4,
{
    reveal_strlit("protected_drain");
    reveal_strlit("supersedes_lower_priority");
    reveal_strlit("waiting_for_slot");
    reveal_strlit("waiting_for_higher_priority");
    reveal_strlit("backfill_window_open");
    reveal_strlit("backfill_eligible");
    reveal_strlit("waiting_for_retry_delay");
    reveal_strlit("paused");
    reveal_strlit("admission_blocked");
    reveal_strlit("behind_backfill_cutoff");
    reveal_strlit("backfill_bypass_consumed");
    reveal_strlit("waiting_for_dependencies");
    reveal_strlit("held");
}

/// How a job stands, and what is said of that, follow from the scheduler's code.
pub proof fn law_jobs_stand_as_the_scheduler_says(
    code: Seq<char>,
    ids: Seq<i64>,
    names: Map<i64, String>,
)
    ensures
        standing_of(code) == Standing::Next <==> code == "protected_drain"@ || code
            == "supersedes_lower_priority"@,
        standing_of(code) == Standing::After <==> code == "behind_backfill_cutoff"@ || code
            == "backfill_bypass_consumed"@ || code == "waiting_for_dependencies"@,
        standing_of(code) == Standing::Held <==> code == "held"@,
        code == "protected_drain"@ ==> wait_text(code, ids, names) == "next · when a slot frees"@,
        code == "waiting_for_slot"@ || code == "waiting_for_higher_priority"@ ==> wait_text(
            code,
            ids,
            names,
        ) == "queued"@,
        code == "waiting_for_retry_delay"@ ==> wait_text(code, ids, names) == "retrying shortly"@,
        code == "paused"@ ==> wait_text(code, ids, names) == "paused"@,
        code == "admission_blocked"@ ==> wait_text(code, ids, names) == "admission blocked"@,
        code == "held"@ ==> wait_text(code, ids, names) == "held"@,
        ids.len() == 0 && code == "supersedes_lower_priority"@ ==> wait_text(code, ids, names)
            == "next · ahead of "@ + "another job"@,
        ids.len() == 0 && code == "waiting_for_dependencies"@ ==> wait_text(code, ids, names)
            == "after its dependencies"@,
        ids.len() > 0 && !names.dom().contains(ids[0]) && code == "behind_backfill_cutoff"@
            ==> wait_text(code, ids, names) == "after "@ + ("#"@ + signed_decimal(ids[0] as int)),
        ids.len() > 0 && names.dom().contains(ids[0]) && names[ids[0]]@.len() <= 44 ==> {
            let other = names[ids[0]]@;
            &&& code == "supersedes_lower_priority"@ ==> wait_text(code, ids, names)
                == "next · ahead of "@ + other
            &&& code == "backfill_window_open"@ || code == "backfill_eligible"@ ==> wait_text(
                code,
                ids,
                names,
            ) == "may fit in before "@ + other
            &&& code == "behind_backfill_cutoff"@ || code == "backfill_bypass_consumed"@
                ==> wait_text(code, ids, names) == "after "@ + other
            &&& code == "waiting_for_dependencies"@ && ids.len() == 1 ==> wait_text(
                code,
                ids,
                names,
            ) == "after "@ + other
            &&& code == "waiting_for_dependencies"@ && ids.len() > 1 ==> wait_text(code, ids, names)
                == "after "@ + other + " +"@ + decimal((ids.len() - 1) as nat)
        },
{
    lemma_codes();
}

/// How a job ended, in words: by its exit code, its signal or its reason.
pub proof fn law_outcomes_are_told_by_their_reason(rest: Seq<char>)
    requires
        rest.len() <= 20,
    ensures
        outcome_of("command exited with code "@ + rest) == Some("exit "@ + rest),
        outcome_of("command terminated by signal "@ + rest) == Some("signal "@ + rest),
        outcome_of("cancelled by request"@) is None,
        outcome_of("cancelled before start"@) == Some("before start"@),
        outcome_of("cancelled before launch"@) == Some("before launch"@),
{
    let code = "command exited with code "@;
    let signal = "command terminated by signal "@;
    reveal_strlit("command exited with code ");
    reveal_strlit("command terminated by signal ");
    reveal_strlit("cancelled by request");
    reveal_strlit("cancelled before start");
    reveal_strlit("cancelled before launch");
    reveal_strlit("time limit of ");
    reveal_strlit("exit ");
    reveal_strlit("signal ");
    reveal_strlit("");
    assert(code.len() == 25 && signal.len() == 29 && "exit "@.len() == 5 && "signal "@.len() == 7);
    assert(code[8] == 'e' && signal[8] == 't');
    assert((code + rest).take(25) =~= code && (code + rest).skip(25) =~= rest);
    assert((signal + rest).take(29) =~= signal && (signal + rest).skip(29) =~= rest);
    assert(code.is_prefix_of(code + rest));
    assert(signal.is_prefix_of(signal + rest));
    assert((signal + rest)[8] == 't');
    assert(!code.is_prefix_of(signal + rest)) by {
        if code.is_prefix_of(signal + rest) {
            assert((signal + rest).subrange(0, 25) =~= code);
            assert(code[8] == (signal + rest)[8]);
        }
    }
    let (a, b, c) = (
        "cancelled by request"@,
        "cancelled before start"@,
        "cancelled before launch"@,
    );
    assert(a.len() == 20 && b.len() == 22 && c.len() == 23);
    assert(a[1] == 'a' && b[1] == 'a' && c[1] == 'a' && code[1] == 'o' && signal[1] == 'o');
    assert(!code.is_prefix_of(a) && !code.is_prefix_of(b) && !code.is_prefix_of(c));
    assert(!signal.is_prefix_of(a) && !signal.is_prefix_of(b) && !signal.is_prefix_of(c));
    let limit = "time limit of "@;
    assert(limit[0] == 't' && a[0] == 'c' && b[0] == 'c' && c[0] == 'c');
    assert(!limit.is_prefix_of(a) && !limit.is_prefix_of(b) && !limit.is_prefix_of(c)) by {
        if limit.is_prefix_of(a) {
            assert(a.subrange(0, limit.len() as int)[0] == limit[0]);
        }
        if limit.is_prefix_of(b) {
            assert(b.subrange(0, limit.len() as int)[0] == limit[0]);
        }
        if limit.is_prefix_of(c) {
            assert(c.subrange(0, limit.len() as int)[0] == limit[0]);
        }
    }
}

/// A job is shown by what it is at: stuck, running, waiting, or ended within the
/// last day.
pub proof fn law_jobs_are_shown_where_they_stand(job: Job, now: i64)
    ensures
        job.finished matches Finished::At(at) ==> {
            &&& now - at <= 86_400_000 ==> group_of(job, now) == Group::Recent(at)
            &&& now - at > 86_400_000 ==> group_of(job, now) == Group::Gone
        },
        !(job.finished is At) ==> {
            let state = opt_text(job.state);
            &&& group_of(job, now) == Group::Active <==> state == Some("running"@) || state == Some(
                "starting"@,
            )
            &&& group_of(job, now) == Group::Attention <==> state == Some("needs_attention"@)
            &&& state is None ==> group_of(job, now) == Group::Waiting
            &&& !(group_of(job, now) is Recent) && group_of(job, now) != Group::Gone
        },
{
    reveal_strlit("running");
    reveal_strlit("starting");
    reveal_strlit("needs_attention");
    assert("running"@.len() == 7 && "starting"@.len() == 8 && "needs_attention"@.len() == 15);
}

/// Waiting jobs take their turn: what goes next, then what is ready, then what
/// waits for another, then what is held; within these by priority, then by who
/// came first.
pub proof fn law_jobs_take_their_turn(a: Job, b: Job, i: usize, j: usize)
    ensures
        ({
            let (x, y) = (turn_of(a, i), turn_of(b, j));
            &&& stands(a) == Standing::Next && stands(b) != Standing::Next ==> x.precedes(&y)
            &&& stands(a) != Standing::Held && stands(b) == Standing::Held ==> x.precedes(&y)
            &&& stands(a) == Standing::Ready && stands(b) == Standing::After ==> x.precedes(&y)
            &&& stands(a) == stands(b) && a.priority > b.priority ==> x.precedes(&y)
            &&& stands(a) == stands(b) && a.priority == b.priority && a.ready_sequence
                < b.ready_sequence ==> x.precedes(&y)
            &&& stands(a) == stands(b) && a.priority == b.priority && a.ready_sequence
                == b.ready_sequence && a.id < b.id ==> x.precedes(&y)
            &&& !(x.precedes(&y) && y.precedes(&x))
        }),
{
}

/// The row of a running job: its name, how long it runs and of how long it may,
/// and a button that cancels it and no other.
pub proof fn law_running_rows_tell_of_their_job(
    e: Extension,
    job: Job,
    now: i64,
    clock: u64,
    row: JobRow,
)
    requires
        row@ == running_view(e.started@, e.armed, job, now, clock),
    ensures
        job.name@.len() <= 44 ==> row.title@ == job.name@,
        row.action is Some,
        asked(row.action->0.id@) == Some(Operation::Cancel(job.id)),
        row.action->0.enabled <==> !job.cancel_requested,
        row.action->0.danger ==> (e.armed matches Some((id, _)) && id == job.id),
        job.time_limit_ms matches Some(limit) ==> (limit > 0 ==> (row.meter matches Some(meter)
            && meter.limit_ms == limit && meter.elapsed_ms == elapsed(e.started@, job.id, now))),
        job.time_limit_ms is None ==> row.meter is None,
        opt_text(job.state) == Some("starting"@) ==> "starting"@.is_prefix_of(row.detail@),
        opt_text(job.state) == Some("running"@) ==> duration_text(
            elapsed(e.started@, job.id, now),
        ).is_prefix_of(row.detail@),
{
    crate::mlq::frame::law_buttons_reach_their_jobs(e.armed, job, clock, Seq::empty());
    reveal_strlit("running");
    reveal_strlit("starting");
    assert("running"@.len() == 7 && "starting"@.len() == 8);
    if opt_text(job.state) == Some("starting"@) {
        assert(row.detail@.take(8) =~= "starting"@);
        assert(row.detail@.subrange(0, 8) =~= "starting"@);
    }
    if opt_text(job.state) == Some("running"@) {
        let lead = duration_text(elapsed(e.started@, job.id, now));
        assert(row.detail@.take(lead.len() as int) =~= lead);
        assert(row.detail@.subrange(0, lead.len() as int) =~= lead);
    }
}

/// The row of a waiting job: its name, what it waits for, and a button that
/// releases it where it is held and cancels it otherwise.
pub proof fn law_waiting_rows_tell_of_their_job(
    e: Extension,
    job: Job,
    names: Map<i64, String>,
    clock: u64,
    row: JobRow,
)
    requires
        row@ == waiting_view(e.armed, job, names, clock),
    ensures
        job.name@.len() <= 44 ==> row.title@ == job.name@,
        row.meter is None,
        row.action is Some,
        stands(job) == Standing::Held ==> asked(row.action->0.id@) == Some(
            Operation::Release(job.id),
        ) && row.action->0.enabled && !row.action->0.danger,
        stands(job) != Standing::Held ==> asked(row.action->0.id@) == Some(
            Operation::Cancel(job.id),
        ),
        waits_for(job, names).is_prefix_of(row.detail@),
{
    crate::mlq::frame::law_buttons_reach_their_jobs(
        e.armed,
        job,
        clock,
        crate::mlq::extension::ICON_RELEASE@,
    );
    let lead = waits_for(job, names);
    assert(row.detail@.take(lead.len() as int) =~= lead);
    assert(row.detail@.subrange(0, lead.len() as int) =~= lead);
}

/// The row of a job that is stuck says what to run, and cancels that job; the row
/// of an ended one offers to run it again only where it failed or was lost.
pub proof fn law_other_rows_tell_of_their_job(
    e: Extension,
    job: Job,
    clock: u64,
    stuck: JobRow,
    ended: Seq<char>,
    done: JobRow,
)
    requires
        stuck@ == attention_view(e.armed, job, clock),
        done@ == recent_view(job, ended),
    ensures
        job.name@.len() <= 44 ==> stuck.title@ == job.name@ && done.title@ == job.name@,
        stuck.detail@ == "run mlq recover · #"@ + signed_decimal(job.id as int),
        stuck.action is Some && asked(stuck.action->0.id@) == Some(Operation::Cancel(job.id)),
        done.action is Some <==> opt_text(job.state) == Some("failed"@) || opt_text(job.state)
            == Some("lost"@),
        done.action is Some ==> asked(done.action->0.id@) == Some(Operation::Retry(job.id))
            && done.action->0.enabled && !done.action->0.danger,
        stuck.meter is None && done.meter is None,
        opt_text(job.state) == Some("succeeded"@) ==> "done"@.is_prefix_of(done.detail@),
        opt_text(job.state) == Some("failed"@) ==> "failed"@.is_prefix_of(done.detail@),
{
    crate::mlq::frame::law_buttons_reach_their_jobs(
        e.armed,
        job,
        clock,
        crate::mlq::extension::ICON_RETRY@,
    );
    reveal_strlit("failed");
    reveal_strlit("lost");
    reveal_strlit("succeeded");
    reveal_strlit("done");
    reveal_strlit("?");
    assert("failed"@.len() == 6 && "lost"@.len() == 4 && "succeeded"@.len() == 9 && "?"@.len() == 1);
    let word = if opt_text(job.state) == Some("succeeded"@) {
        "done"@
    } else if opt_text(job.state) is Some {
        opt_text(job.state)->0
    } else {
        "?"@
    };
    let reason = match opt_text(job.reason) {
        Some(reason) => outcome_of(reason),
        None => None,
    };
    let parts = seq![word] + (match reason {
        Some(reason) => seq![reason],
        None => Seq::empty(),
    }) + seq![ended, "#"@ + signed_decimal(job.id as int)];
    lemma_first_is_prefix(parts);
    assert(parts[0] == word);
    assert(done.detail@ == joined(parts, " · "@));
}

proof fn lemma_first_is_prefix(parts: Seq<Seq<char>>)
    requires
        parts.len() > 0,
    ensures
        parts[0].is_prefix_of(joined(parts, " · "@)),
    decreases parts.len(),
{
    let all = joined(parts, " · "@);
    if parts.len() > 1 {
        lemma_first_is_prefix(parts.drop_last());
        let before = joined(parts.drop_last(), " · "@);
        assert(all.take(before.len() as int) =~= before);
        assert(all.subrange(0, parts[0].len() as int) =~= before.subrange(
            0,
            parts[0].len() as int,
        ));
    }
}

/// The cell names the job that runs longest and counts the others; with none
/// running it counts what waits, and without any job there is no cell.
pub proof fn law_the_cell_tells_what_runs(
    status: Status,
    started: Map<i64, i64>,
    connected: bool,
    now: i64,
    cell: Option<Cell>,
)
    requires
        match cell {
            Some(cell) => cell_view(status, started, connected, now) == Some(cell@),
            None => cell_view(status, started, connected, now) is None,
        },
    ensures
        cell is None <==> forall|k: int|
            0 <= k < status.jobs@.len() ==> !is_live(#[trigger] status.jobs@[k]),
        cell matches Some(c) ==> {
            &&& c.glyph@ == "\u{f1049}"@
            &&& busy_count(status.jobs@) > 0 ==> (c.color == Role::Green <==> connected)
            &&& busy_count(status.jobs@) == 0 && status.paused ==> c.color == Role::Peach && c.text@
                == decimal(pending_count(status.jobs@)) + " "@ + "paused"@
            &&& busy_count(status.jobs@) == 0 && !status.paused ==> c.color == Role::Yellow
                && c.text@ == decimal(pending_count(status.jobs@)) + " "@ + "queued"@
            &&& busy_count(status.jobs@) == 1 ==> exists|i: int|
                0 <= i < status.jobs@.len() && is_busy(#[trigger] status.jobs@[i]) && c.text@
                    == elided(status.jobs@[i].name@, 26) + (" · "@ + duration_text(
                    elapsed(started, status.jobs@[i].id, now),
                ))
        },
{
    let jobs = status.jobs@;
    law_cell_names_the_longest(jobs, started, now);
    lemma_pending(jobs);
    assert forall|k: int| 0 <= k < jobs.len() && is_live(#[trigger] jobs[k]) implies busy_count(jobs)
        > 0 || pending_count(jobs) > 0 by {
        if busy_count(jobs) == 0 {
            assert(!(is_live(jobs[k]) && is_busy(jobs[k])));
        }
    }
    if cell is Some && busy_count(jobs) == 1 {
        let i = headline(jobs, started, now)->0;
        let name = elided(jobs[i].name@, 26);
        assert(cell->0.text@ =~= name + (" · "@ + duration_text(elapsed(started, jobs[i].id, now))));
        assert(is_busy(jobs[i]));
    }
    if busy_count(jobs) > 0 {
        let i = headline(jobs, started, now)->0;
        assert(is_live(jobs[i]));
    }
}

proof fn lemma_pending(jobs: Seq<Job>)
    ensures
        pending_count(jobs) > 0 <==> exists|k: int|
            0 <= k < jobs.len() && is_live(#[trigger] jobs[k]) && !is_busy(jobs[k]),
    decreases jobs.len(),
{
    if jobs.len() > 0 {
        let before = jobs.drop_last();
        lemma_pending(before);
        assert(jobs[jobs.len() - 1] == jobs.last());
        if pending_count(before) > 0 {
            let k = choose|k: int|
                0 <= k < before.len() && is_live(#[trigger] before[k]) && !is_busy(before[k]);
            assert(jobs[k] == before[k]);
        }
        if exists|k: int| 0 <= k < jobs.len() && is_live(#[trigger] jobs[k]) && !is_busy(jobs[k]) {
            let k = choose|k: int|
                0 <= k < jobs.len() && is_live(#[trigger] jobs[k]) && !is_busy(jobs[k]);
            if k < before.len() {
                assert(before[k] == jobs[k]);
            }
        }
    }
}

/// The header counts what there is, says how the queue is, and its button does the
/// other thing.
pub proof fn law_the_header_tells_how_the_queue_is(
    status: Status,
    connected: bool,
    stuck: nat,
    running: nat,
    waiting: nat,
    header: Row,
)
    requires
        header@ == header_view(status, connected, stuck, running, waiting),
    ensures
        header.lines@.len() == 2,
        stuck == 0 && running == 0 && waiting == 0 ==> header.lines@[0].text@ == "queue empty"@,
        stuck == 0 && running > 0 && waiting == 0 ==> header.lines@[0].text@ == decimal(running)
            + " running"@,
        stuck == 0 && running == 0 && waiting > 0 ==> header.lines@[0].text@ == decimal(waiting)
            + " waiting"@,
        stuck > 0 && running == 0 && waiting == 0 ==> header.lines@[0].text@ == decimal(stuck)
            + " stuck"@,
        !connected ==> header.lines@[1].text@ == "reconnecting to mlqd"@,
        connected && status.paused ==> header.lines@[1].text@ == "paused · nothing new starts"@,
        connected && !status.paused && status.admission_blocked ==> header.lines@[1].text@
            == "admission blocked"@,
        connected && !status.paused && !status.admission_blocked ==> (
        status.effective_limit matches Some(limit) ==> header.lines@[1].text@ == decimal(
            status.active_leases as nat,
        ) + " of "@ + decimal(limit as nat) + " slots busy"@),
        header.action matches Some(action) && action.enabled && !action.danger && (
        if status.paused {
            action.id@ == "unpause"@ && action.label@ == "resume"@
        } else {
            action.id@ == "pause"@ && action.label@ == "pause"@
        }),
{
    assert(header@.lines.len() == header.lines@.len());
    assert(header@.lines[0] == header.lines@[0]@);
    assert(header@.lines[1] == header.lines@[1]@);
    let title = tally(stuck, running, waiting);
    if title.len() == 1 {
        assert(joined(title, " · "@) == title[0]);
    }
}

/// To press the header's button asks the queue for the other thing.
pub proof fn law_the_header_turns_the_queue_over()
    ensures
        asked("pause"@) == Some(Operation::Pause),
        asked("unpause"@) == Some(Operation::Unpause),
{
    lemma_verbs();
    reveal_strlit("pause");
    reveal_strlit("unpause");
    assert(!"pause"@.contains(':'));
    assert(!"unpause"@.contains(':'));
    "pause"@.index_of_first_ensures(':');
    "unpause"@.index_of_first_ensures(':');
}

/// The colours are written by their own names.
pub proof fn law_colours_are_written_by_their_names(role: Role)
    ensures
        role == Role::Fg ==> role_text(role) == "fg"@,
        role == Role::Muted ==> role_text(role) == "muted"@,
        role == Role::Faint ==> role_text(role) == "faint"@,
        role == Role::Accent ==> role_text(role) == "accent"@,
        role == Role::Green ==> role_text(role) == "green"@,
        role == Role::Yellow ==> role_text(role) == "yellow"@,
        role == Role::Peach ==> role_text(role) == "peach"@,
        role == Role::Red ==> role_text(role) == "red"@,
{
}

/// A cell is written with its glyph as glyph and its text as text.
pub proof fn law_cells_are_written_as_they_are(cell: Cell)
    ensures
        at(cell_tree(cell@), "glyph"@) == Tree::Text(cell.glyph@),
        at(cell_tree(cell@), "text"@) == Tree::Text(cell.text@),
        at(cell_tree(cell@), "color"@) == Tree::Text(role_text(cell.color)),
{
    lemma_keys();
    let members = cell_tree(cell@)->Object_0;
    lemma_member(members, 0);
    lemma_member(members, 1);
    lemma_member(members, 2);
}

/// A button is written with its id, its glyph and its label, and says where it is
/// dangerous and where it cannot be pressed.
pub proof fn law_buttons_are_written_as_they_are(button: Button)
    ensures
        ({
            let tree = button_tree(button@);
            &&& at(tree, "id"@) == Tree::Text(button.id@)
            &&& button.glyph@.len() > 0 ==> at(tree, "glyph"@) == Tree::Text(button.glyph@)
            &&& button.label@.len() > 0 ==> at(tree, "label"@) == Tree::Text(button.label@)
            &&& button.danger <==> at(tree, "danger"@) == Tree::Bool(true)
            &&& !button.enabled <==> at(tree, "enabled"@) == Tree::Bool(false)
        }),
{
    lemma_keys();
    let members = button_tree(button@)->Object_0;
    lemma_member(members, 0);
    let (g, l, d) = (
        if button.glyph@.len() > 0 {
            1int
        } else {
            0
        },
        if button.label@.len() > 0 {
            1int
        } else {
            0
        },
        if button.danger {
            1int
        } else {
            0
        },
    );
    if g == 1 {
        lemma_member(members, 1);
    }
    if l == 1 {
        lemma_member(members, 1 + g);
    }
    if button.danger {
        lemma_member(members, 1 + g + l);
    } else {
        lemma_no_member(members, "danger"@);
    }
    if !button.enabled {
        lemma_member(members, 1 + g + l + d);
    } else {
        lemma_no_member(members, "enabled"@);
    }
}

/// A row is written with its title over its detail, its meter and its button.
pub proof fn law_rows_are_written_as_they_are(row: JobRow)
    ensures
        ({
            let tree = row_tree(row@);
            &&& at(tree, "lines"@) matches Tree::List(lines) && lines.len() == 2 && at(
                lines[0],
                "text"@,
            ) == Tree::Text(row.title@) && at(lines[1], "text"@) == Tree::Text(row.detail@) && at(
                lines[1],
                "small"@,
            ) == Tree::Bool(true)
            &&& row.meter matches Some(meter) ==> at(at(tree, "progress"@), "value"@)
                == Tree::Share(meter.elapsed_ms, meter.limit_ms)
            &&& row.meter is None ==> at(tree, "progress"@) == Tree::Null
            &&& row.action matches Some(button) ==> at(at(tree, "action"@), "id"@) == Tree::Text(
                button.id@,
            )
            &&& row.action is None ==> at(tree, "action"@) == Tree::Null
        }),
{
    lemma_keys();
    let members = row_tree(row@)->Object_0;
    lemma_member(members, 0);
    let lines = (members[0].1)->List_0;
    lemma_member((lines[0])->Object_0, 0);
    let second = (lines[1])->Object_0;
    lemma_member(second, 0);
    lemma_member(second, 2);
    match row.meter {
        Some(meter) => {
            lemma_member(members, 1);
            lemma_member(meter_tree(meter)->Object_0, 0);
        },
        None => {
            lemma_no_member(members, "progress"@);
        },
    }
    match row.action {
        Some(button) => {
            lemma_member(
                members,
                if row.meter is Some {
                    2
                } else {
                    1int
                },
            );
            law_buttons_are_written_as_they_are(button);
        },
        None => {
            lemma_no_member(members, "action"@);
        },
    }
}

/// A frame is written with its cell, its header and its popup, an entry for each
/// line of it.
pub proof fn law_frames_are_written_as_they_are(drawn: Drawn)
    ensures
        ({
            let tree = frame_tree(drawn);
            &&& drawn.cell is None ==> at(tree, "cell"@) == Tree::Null
            &&& drawn.cell matches Some(cell) ==> at(tree, "cell"@) == cell_tree(cell@)
            &&& drawn.header is None ==> at(tree, "header"@) == Tree::Null
            &&& drawn.header matches Some(header) ==> at(tree, "header"@) == header_tree(header@)
            &&& at(tree, "popup"@) matches Tree::List(list) && list.len() == drawn.popup@.len()
                && forall|i: int|
                0 <= i < list.len() ==> #[trigger] list[i] == entry_tree(drawn.popup@[i]@)
        }),
{
    lemma_keys();
    let members = frame_tree(drawn)->Object_0;
    lemma_member(members, 0);
    if drawn.header is Some {
        lemma_member(members, 1);
        lemma_member(members, 2);
    } else {
        lemma_no_member(members, "header"@);
        lemma_member(members, 1);
    }
    assert(entries(drawn.popup@).len() == drawn.popup@.len());
    let list = at(frame_tree(drawn), "popup"@)->List_0;
    assert forall|i: int| 0 <= i < list.len() implies #[trigger] list[i] == entry_tree(
        drawn.popup@[i]@,
    ) by {
        assert(entries(drawn.popup@)[i] == drawn.popup@[i]@);
    }
}

/// A job's name is the one that was last said of its id.
pub proof fn law_names_are_those_of_their_id(jobs: Seq<Job>, i: int)
    requires
        0 <= i < jobs.len(),
        forall|k: int| i < k < jobs.len() ==> (#[trigger] jobs[k]).id != jobs[i].id,
    ensures
        names_in(jobs).dom().contains(jobs[i].id),
        names_in(jobs)[jobs[i].id] == jobs[i].name,
    decreases jobs.len(),
{
    if i < jobs.len() - 1 {
        let before = jobs.drop_last();
        assert(jobs[jobs.len() - 1].id != jobs[i].id);
        assert(before[i] == jobs[i]);
        assert forall|k: int| i < k < before.len() implies (#[trigger] before[k]).id
            != before[i].id by {
            assert(before[k] == jobs[k]);
        }
        law_names_are_those_of_their_id(before, i);
    }
}

/// A setting that is empty counts as none.
pub proof fn law_empty_settings_count_as_none(value: &str)
    ensures
        crate::mlq::wire::set(None) is None,
        value@.len() == 0 ==> crate::mlq::wire::set(Some(value)) is None,
        value@.len() > 0 ==> crate::mlq::wire::set(Some(value)) == Some(value@),
{
}

/// What is due first is waited for: the next change of what is shown, or the end of
/// an arm.
pub proof fn law_what_is_due_first_is_waited_for(e: Extension, now: i64, clock: u64)
    ensures
        due(e, now, clock) matches Some(ns) ==> {
            &&& clock_due(e, now) matches Some(ms) ==> ns <= ms * 1_000_000
            &&& disarm_due(e, clock) matches Some(left) ==> ns <= left
            &&& (clock_due(e, now) is Some && ns == clock_due(e, now)->0 * 1_000_000) || (
            disarm_due(e, clock) is Some && ns == disarm_due(e, clock)->0)
        },
        e.armed matches Some((_, at)) ==> (at <= clock < at + 4_000_000_000 ==> disarm_due(e, clock)
            == Some(at + 4_000_000_000 - clock)),
        e.armed is None ==> disarm_due(e, clock) is None,
        clock_due(e, now) matches Some(ms) ==> ms >= 50,
{
}

/// An entry is written for what it is.
pub proof fn law_entries_are_written_as_they_are(entry: Entry)
    ensures
        entry matches Entry::Section(title) ==> at(entry_tree(entry@), "section"@) == Tree::Text(
            title@,
        ),
        entry matches Entry::Job(row) ==> at(entry_tree(entry@), "row"@) == row_tree(row@),
        entry matches Entry::Error(error) ==> at(at(entry_tree(entry@), "text"@), "text"@)
            == Tree::Text(error@) && at(at(entry_tree(entry@), "text"@), "color"@) == Tree::Text(
            "red"@,
        ),
{
    lemma_keys();
    let members = entry_tree(entry@)->Object_0;
    lemma_member(members, 0);
    match entry {
        Entry::Error(error) => {
            let inner = (members[0].1)->Object_0;
            lemma_member(inner, 0);
            lemma_member(inner, 1);
        },
        _ => {},
    }
}

/// A header is written with its lines in their order and its button.
pub proof fn law_headers_are_written_as_they_are(header: Row)
    ensures
        at(header_tree(header@), "lines"@) matches Tree::List(lines) && lines.len()
            == header.lines@.len() && forall|i: int|
            0 <= i < lines.len() ==> #[trigger] lines[i] == line_tree(header.lines@[i]@),
        header.action matches Some(action) ==> at(at(header_tree(header@), "action"@), "id"@)
            == Tree::Text(action.id@) && at(at(header_tree(header@), "action"@), "label"@)
            == Tree::Text(action.label@),
        header.action is None ==> at(header_tree(header@), "action"@) == Tree::Null,
{
    lemma_keys();
    let members = header_tree(header@)->Object_0;
    lemma_member(members, 0);
    assert(header@.lines.len() == header.lines@.len());
    let lines = (members[0].1)->List_0;
    assert forall|i: int| 0 <= i < lines.len() implies #[trigger] lines[i] == line_tree(
        header.lines@[i]@,
    ) by {
        assert(header@.lines[i] == header.lines@[i]@);
    }
    match header.action {
        Some(action) => {
            lemma_member(members, 1);
            let inner = action_tree(action@)->Object_0;
            lemma_member(inner, 0);
            lemma_member(inner, 1);
        },
        None => {
            lemma_no_member(members, "action"@);
        },
    }
}

/// A line is written with its text, and its colour where it is not the usual one.
pub proof fn law_lines_are_written_as_they_are(line: Line)
    ensures
        at(line_tree(line@), "text"@) == Tree::Text(line.text@),
        line.small <==> at(line_tree(line@), "small"@) == Tree::Bool(true),
        line.color != Role::Fg || line.small ==> at(line_tree(line@), "color"@) == Tree::Text(
            role_text(line.color),
        ),
        line.color == Role::Fg && !line.small ==> at(line_tree(line@), "color"@) == Tree::Null,
{
    lemma_keys();
    let members = line_tree(line@)->Object_0;
    lemma_member(members, 0);
    if line.small || line.color != Role::Fg {
        lemma_member(members, 1);
    } else {
        lemma_no_member(members, "color"@);
    }
    if line.small {
        lemma_member(members, 2);
    } else {
        lemma_no_member(members, "small"@);
    }
}

/// A job runs where it says so and has not ended, and is busy from its start on.
pub proof fn law_jobs_run_where_they_say_so(job: Job)
    ensures
        is_live(job) <==> job.finished == Finished::No,
        is_running(job) <==> job.finished == Finished::No && opt_text(job.state) == Some(
            "running"@,
        ),
        is_busy(job) <==> opt_text(job.state) == Some("running"@) || opt_text(job.state) == Some(
            "starting"@,
        ),
{
}

/// How long a job runs is the time since it started, and none where that is not
/// known.
pub proof fn law_jobs_run_since_they_started(started: Map<i64, i64>, id: i64, now: i64)
    ensures
        !started.dom().contains(id) ==> elapsed(started, id, now) == 0,
        started.dom().contains(id) && 0 <= now - started[id] <= i64::MAX ==> elapsed(
            started,
            id,
            now,
        ) == now - started[id],
        started.dom().contains(id) && now < started[id] ==> elapsed(started, id, now) == 0,
{
}

/// Nothing is drawn before the daemon said anything.
pub proof fn law_nothing_is_drawn_of_nothing(
    drawn: Drawn,
    e: Extension,
    now: i64,
    clock: u64,
    ended: Seq<Seq<char>>,
)
    requires
        is_drawn(drawn, e, now, clock, ended),
    ensures
        e.status is None ==> drawn.cell is None && drawn.header is None && drawn.popup@.len() == 0,
        e.status is Some ==> drawn.header is Some,
        e.status is Some && e.error is Some ==> drawn.popup@.len() > 0 && (
        drawn.popup@[0] matches Entry::Error(error) && error@ == e.error->0@),
{
    if e.status is Some && e.error is Some {
        let all = entries(drawn.popup@);
        assert(all.len() == drawn.popup@.len());
        assert(all[0] == crate::mlq::frame::EntryView::Error(e.error->0@));
        assert(all[0] == drawn.popup@[0]@);
    }
}

} // verus!
