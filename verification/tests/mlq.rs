use std::collections::HashMap;

use cosmicbar::extension::Role;
use cosmicbar::float::four_fifths;
use cosmicbar::json::{integer, Json};
use cosmicbar::mlq::extension::{Event, Extension, ARM_WINDOW, CONFIRM_DELAY, RECENT_WINDOW_MS};
use cosmicbar::mlq::frame::{Drawn, Entry};
use cosmicbar::mlq::job::{read_reply, Finished, Job, Reply, Status};
use cosmicbar::mlq::wire::{
    frame_length, frame_prefix, operation, read_line, read_step, request, request_id, socket_path,
    subscription, Got, Line, Operation, Progress, MAX_FRAME_BYTES,
};
use cosmicbar::mlq::words::{duration, outcome, wait, Standing, Wait};
use serde_json::Value;

const NOW: i64 = 1_700_000_000_000;
const CLOCK: u64 = 1_000_000_000_000;

fn status(body: &str) -> Status {
    let reply = format!("{{\"reply\":{body}}}");
    match read_reply(reply.as_bytes()) {
        Reply::Status(status) => status,
        _ => panic!("no status: {body}"),
    }
}

fn job(body: &str) -> Job {
    let mut status = status(&format!("{{\"type\":\"status\",\"jobs\":[{body}]}}"));
    status.jobs.pop().unwrap()
}

fn parsed(text: &str) -> Value {
    serde_json::from_str(text).unwrap()
}

fn value(json: Json) -> Value {
    match json {
        Json::Null => Value::Null,
        Json::Bool(truth) => truth.into(),
        Json::Number { exact: Some(number), .. } => number.into(),
        Json::Number { natural: Some(number), .. } => number.into(),
        Json::Number { whole, .. } => whole.into(),
        Json::Share(part, of) => (part as f64 / of as f64).min(1.0).into(),
        Json::Text(text) => text.into(),
        Json::List(items) => items.into_iter().map(value).collect(),
        Json::Object(members) => {
            members.into_iter().map(|(name, json)| (name, value(json))).collect()
        }
    }
}

fn waiting_for(eligibility: &str) -> Wait {
    let names = HashMap::from([(9190, "gate".to_string()), (9191, "ppo".to_string())]);
    wait(
        &job(&format!(
            "{{\"state\":\"queued\",\"eligibility\":\"{eligibility}\"}}"
        )),
        &names,
    )
}

/// Everything the bar draws, where local time is universal time.
fn drawn(extension: &Extension, now: i64) -> Drawn {
    extension.frame(now, CLOCK, 0, &vec![0; extension.recent_jobs(now).len()])
}

#[test]
fn eligibility_reads_as_words_naming_the_other_job() {
    let cases = [
        (
            "protected_drain",
            "next · when a slot frees",
            Standing::Next,
        ),
        (
            "supersedes_lower_priority: job 9191 (pri 0)",
            "next · ahead of ppo",
            Standing::Next,
        ),
        (
            "waiting_for_higher_priority: job 9190 (pri 10)",
            "queued",
            Standing::Ready,
        ),
        (
            "backfill_window_open: job 9190",
            "may fit in before gate",
            Standing::Ready,
        ),
        (
            "behind_backfill_cutoff: job 9190",
            "after gate",
            Standing::After,
        ),
        (
            "waiting_for_dependencies: jobs [9190]",
            "after gate",
            Standing::After,
        ),
        (
            "waiting_for_dependencies: jobs [9191, 9190, 7]",
            "after ppo +2",
            Standing::After,
        ),
        (
            "waiting_for_dependencies: jobs [7]",
            "after #7",
            Standing::After,
        ),
        ("held", "held", Standing::Held),
        ("some_future_code", "some future code", Standing::Ready),
    ];
    for (eligibility, text, standing) in cases {
        let wait = waiting_for(eligibility);
        assert_eq!(
            (wait.text.as_str(), wait.standing),
            (text, standing),
            "{eligibility}"
        );
    }
}

#[test]
fn a_missing_eligibility_falls_back_to_the_state() {
    let wait = wait(&job("{\"state\":\"held\"}"), &HashMap::new());
    assert_eq!(wait.standing, Standing::Held);
}

#[test]
fn actions_become_daemon_operations() {
    let (op, key) = operation("cancel:12", "id").unwrap();
    assert_eq!(value(op.json()), parsed("{\"type\":\"cancel\",\"job\":12,\"force\":false}"));
    assert_eq!(op, Operation::Cancel(12));
    assert!(key.starts_with("cosmicbar-mlq-cancel-12-"), "{key}");
    assert_eq!(key, "cosmicbar-mlq-cancel-12-id");
    assert_eq!(
        value(operation("retry:3", "id").unwrap().0.json()),
        parsed("{\"type\":\"retry\",\"job\":3}")
    );
    assert_eq!(
        value(operation("release:4", "id").unwrap().0.json()),
        parsed("{\"type\":\"release\",\"job\":4}")
    );
    assert_eq!(
        value(operation("unpause", "id").unwrap().0.json()),
        parsed("{\"type\":\"unpause\"}")
    );
    for bad in ["pause:1", "cancel", "cancel:x", "drop:1"] {
        assert!(operation(bad, "id").is_err(), "{bad}");
    }
}

#[test]
fn a_cancel_needs_a_second_press() {
    let mut extension = Extension::default();
    assert_eq!(extension.press("cancel:5".into(), CLOCK), None);
    assert!(extension.is_armed(5, CLOCK));
    assert_eq!(extension.cancel(&job("{\"id\":5}"), CLOCK).label, "cancel?");
    // Pressing another job's cancel moves the arm rather than firing.
    assert_eq!(extension.press("cancel:6".into(), CLOCK), None);
    assert!(!extension.is_armed(5, CLOCK));
    extension.armed = CLOCK.checked_sub(CONFIRM_DELAY).map(|at| (6, at));
    assert_eq!(
        extension.press("cancel:6".into(), CLOCK).as_deref(),
        Some("cancel:6")
    );
    assert!(extension.armed.is_none());
}

#[test]
fn a_double_click_only_arms() {
    let mut extension = Extension::default();
    assert_eq!(extension.press("cancel:5".into(), CLOCK), None);
    assert_eq!(extension.press("cancel:5".into(), CLOCK), None);
    assert!(extension.is_armed(5, CLOCK));
}

#[test]
fn any_other_press_disarms_and_goes_through() {
    let mut extension = Extension::default();
    extension.press("cancel:5".into(), CLOCK);
    assert_eq!(
        extension.press("pause".into(), CLOCK).as_deref(),
        Some("pause")
    );
    assert_eq!(extension.press("cancel:5".into(), CLOCK), None);
}

#[test]
fn an_arm_runs_out() {
    let mut extension = Extension {
        armed: CLOCK.checked_sub(ARM_WINDOW).map(|at| (5, at)),
        ..Extension::default()
    };
    assert!(!extension.is_armed(5, CLOCK));
    assert_eq!(
        extension.press("cancel:5".into(), CLOCK),
        None,
        "a stale arm re-arms"
    );
    extension.armed = extension
        .armed
        .map(|(job, _)| (job, CLOCK.checked_sub(ARM_WINDOW).unwrap()));
    extension.expire(CLOCK);
    assert!(extension.armed.is_none());
}

#[test]
fn reasons_keep_what_the_state_does_not_say() {
    assert_eq!(
        outcome("command exited with code 137").as_deref(),
        Some("exit 137")
    );
    assert_eq!(outcome("cancelled by request"), None);
    assert_eq!(
        outcome("cancelled before start").as_deref(),
        Some("before start")
    );
    assert_eq!(outcome(""), None);
    assert_eq!(
        outcome("cancelled before launch").as_deref(),
        Some("before launch")
    );
    assert_eq!(
        outcome("command terminated by signal 9").as_deref(),
        Some("signal 9")
    );
    assert_eq!(
        outcome("time limit of 3600000 ms exceeded").as_deref(),
        Some("timed out at 1h")
    );
    assert_eq!(
        outcome("command exited with code 2 (result file missing)").as_deref(),
        Some("exit 2 (result file missing)")
    );
}

#[test]
fn durations_drop_empty_minutes() {
    assert_eq!(duration(42_000), "42s");
    assert_eq!(duration(25 * 60_000), "25m");
    assert_eq!(duration(60 * 60_000), "1h");
    assert_eq!(duration(65 * 60_000), "1h05m");
}

#[test]
fn the_popup_groups_jobs_in_scheduling_order() {
    let now = NOW;
    let status = status(&format!(
        "{{\"type\":\"status\",\"activeLeases\":1,\"effectiveLimit\":2,\"jobs\":[\
         {{\"id\":1,\"name\":\"done\",\"state\":\"succeeded\",\"finishedAt\":{}}},\
         {{\"id\":2,\"name\":\"ancient\",\"state\":\"failed\",\"finishedAt\":{}}},\
         {{\"id\":3,\"name\":\"held\",\"state\":\"held\",\"eligibility\":\"held\"}},\
         {{\"id\":4,\"name\":\"low\",\"state\":\"queued\",\"eligibility\":\"waiting_for_slot\",\"readySequence\":1}},\
         {{\"id\":5,\"name\":\"high\",\"state\":\"queued\",\"priority\":5,\"eligibility\":\"waiting_for_slot\",\"readySequence\":2}},\
         {{\"id\":6,\"name\":\"train\",\"state\":\"running\",\"updatedAt\":{}}},\
         {{\"id\":7,\"name\":\"stuck\",\"state\":\"needs_attention\"}}]}}",
        now - 1000,
        now - RECENT_WINDOW_MS - 1,
        now - 60_000,
    ));
    let mut extension = Extension {
        connected: true,
        ..Extension::default()
    };
    extension.note_starts(&status, now);
    extension.status = Some(status);
    let frame = drawn(&extension, now);
    let order: Vec<&str> = frame
        .popup
        .iter()
        .map(|entry| match entry {
            Entry::Section(title) => *title,
            Entry::Job(row) => row.title.as_str(),
            Entry::Error(error) => error.as_str(),
        })
        .collect();
    assert_eq!(
        order,
        [
            "needs attention",
            "stuck",
            "running",
            "train",
            "up next",
            "high",
            "low",
            "held",
            "recent",
            "done",
        ]
    );
    let header = frame.header.unwrap();
    assert_eq!(header.lines[0].text, "1 stuck · 1 running · 3 waiting");
    assert_eq!(header.lines[1].text, "1 of 2 slots busy");
}

#[test]
fn a_time_limit_draws_a_meter() {
    let now = NOW;
    let job = job("{\"id\":1,\"name\":\"train\",\"state\":\"running\",\"timeLimitMs\":100000}");
    let mut extension = Extension::default();
    extension.started.insert(1, now - 90_000);
    let row = extension.running_row(&job, now, CLOCK);
    assert_eq!(row.detail, "1m of 1m · #1");
    let meter = row.meter.unwrap();
    assert_eq!(meter.color, Role::Peach);
    assert!((meter.elapsed_ms as f64 / meter.limit_ms as f64 - 0.9).abs() < 1e-9);
}

#[test]
fn a_meter_stays_green_below_four_fifths() {
    let job = job("{\"id\":1,\"state\":\"running\",\"timeLimitMs\":100000}");
    let mut extension = Extension::default();
    extension.started.insert(1, NOW - 79_999);
    let meter = extension.running_row(&job, NOW, CLOCK).meter.unwrap();
    assert_eq!(meter.color, Role::Green);
    extension.started.insert(1, NOW - 80_000);
    let meter = extension.running_row(&job, NOW, CLOCK).meter.unwrap();
    assert_eq!(meter.color, Role::Peach);
}

#[test]
fn a_job_reads_its_members() {
    let job = job(
        "{\"id\":9,\"name\":\"n\",\"priority\":-2,\"state\":\"queued\",\"finishedAt\":1.5,\
         \"updatedAt\":7.9,\"cancelRequested\":true,\"stateReason\":\"r\"}",
    );
    assert_eq!(job.id, 9);
    assert_eq!(job.priority, -2);
    assert_eq!(job.finished, Finished::At(1));
    assert_eq!(job.updated_at, Some(7));
    assert!(job.cancel_requested);
    assert_eq!(job.reason.as_deref(), Some("r"));
    assert_eq!(job.ready_sequence, i64::MAX);
}

#[test]
fn replies_are_told_apart() {
    match read_reply(b"{\"error\":{\"code\":\"busy\",\"message\":\"later\"}}") {
        Reply::Refused(reason) => assert_eq!(reason, "busy: later"),
        _ => panic!("not refused"),
    }
    match read_reply(b"{\"error\":{}}") {
        Reply::Refused(reason) => assert_eq!(reason, "None: None"),
        _ => panic!("not refused"),
    }
    assert!(matches!(read_reply(b"{\"error\":null}"), Reply::Other));
    assert!(matches!(read_reply(b"{"), Reply::Malformed));
}

#[test]
fn lines_from_the_bar_are_told_apart() {
    assert!(matches!(read_line("  \t"), Line::Blank));
    assert!(matches!(read_line("{\"popup\""), Line::Malformed));
    match read_line("{\"popup\":true,\"action\":\"cancel:1\"}") {
        Line::Told(told) => {
            assert_eq!(told.popup, Some(true));
            assert_eq!(told.action.as_deref(), Some("cancel:1"));
        }
        _ => panic!("nothing told"),
    }
}

#[test]
fn a_bad_job_number_says_what_is_wrong_with_it() {
    assert_eq!(
        operation("cancel:x", "id").unwrap_err(),
        "invalid digit found in string"
    );
    assert_eq!(
        operation("cancel:", "id").unwrap_err(),
        "cannot parse integer from empty string"
    );
    assert_eq!(
        operation("drop:1", "id").unwrap_err(),
        "unknown action `drop:1`"
    );
}

#[test]
fn prefixes_announce_their_length() {
    let prefix = frame_prefix(0x01_02_03).unwrap();
    assert_eq!(prefix, [0, 1, 2, 3]);
    assert_eq!(frame_length(prefix), Ok(0x01_02_03));
    assert_eq!(frame_length([0, 16, 0, 1]), Err(MAX_FRAME_BYTES + 1));
}

#[test]
fn a_read_ends_cleanly_only_between_frames() {
    assert_eq!(read_step(0, 4, Got::Bytes(0)), Progress::Closed);
    assert_eq!(read_step(2, 4, Got::Bytes(0)), Progress::Truncated);
    assert_eq!(read_step(2, 4, Got::Bytes(1)), Progress::Reading(3));
    assert_eq!(read_step(2, 4, Got::Bytes(2)), Progress::Done);
    assert_eq!(read_step(2, 4, Got::Interrupted), Progress::Reading(2));
    assert_eq!(read_step(2, 4, Got::Failed), Progress::Failed);
}

#[test]
fn the_socket_is_found_from_the_environment() {
    assert_eq!(
        socket_path(Some("/run/user/1000"), None, None),
        "/run/user/1000/mlqueue/mlqd.sock"
    );
    assert_eq!(
        socket_path(Some(""), None, Some("/home/me")),
        "/home/me/.local/state/mlqueue/runtime/mlqd.sock"
    );
    assert_eq!(
        socket_path(None, Some("/state/"), None),
        "/state/mlqueue/runtime/mlqd.sock"
    );
    assert_eq!(request_id(1, 22, 3), "cosmicbar-mlq-1-22-3");
}

#[test]
fn closing_the_popup_is_a_no() {
    let mut extension = Extension::default();
    extension.apply(Event::Press("cancel:5".into()), NOW, CLOCK);
    assert!(extension.is_armed(5, CLOCK));
    extension.apply(Event::Popup(false), NOW, CLOCK);
    assert!(!extension.is_armed(5, CLOCK));
}

#[test]
fn a_change_of_priority_does_not_reset_the_clock() {
    let mut extension = Extension::default();
    let first = status(&format!(
        "{{\"type\":\"status\",\"jobs\":[{{\"id\":1,\"name\":\"a\",\"state\":\"running\",\"updatedAt\":{}}}]}}",
        NOW - 90_000
    ));
    let second = status(&format!(
        "{{\"type\":\"status\",\"jobs\":[{{\"id\":1,\"name\":\"a\",\"state\":\"running\",\"updatedAt\":{}}}]}}",
        NOW - 1_000
    ));
    extension.apply(Event::Status(first), NOW, CLOCK);
    extension.apply(Event::Status(second), NOW, CLOCK);
    assert_eq!(extension.started.get(&1), Some(&(NOW - 90_000)));
    // 90 seconds read as a minute, which changes in 30 seconds.
    assert_eq!(extension.cadence(NOW, CLOCK), Some(30_000_000_000));
    let cell = drawn(&extension, NOW).cell.unwrap();
    assert_eq!(cell.text, "a · 1m");
    assert_eq!(cell.color, Role::Green);
}

#[test]
fn the_same_frame_is_written_once() {
    let mut extension = Extension::default();
    assert!(extension.emit("a".into()));
    assert!(!extension.emit("a".into()));
    assert!(extension.emit("b".into()));
}

#[test]
fn a_recent_row_says_when_it_ended() {
    let job = job("{\"id\":3,\"name\":\"x\",\"state\":\"failed\",\"stateReason\":\"command exited with code 1\"}");
    let row = Extension::recent_row(&job, "14:02");
    assert_eq!(row.detail, "failed · exit 1 · 14:02 · #3");
    assert_eq!(row.action.unwrap().id, "retry:3");
}

#[test]
fn the_popup_lists_the_three_latest_and_no_empty_section() {
    let ended: Vec<String> = [4000, 1000, 3000, 2000]
        .iter()
        .map(|ago| {
            format!(
                "{{\"id\":{ago},\"name\":\"ended {ago}\",\"state\":\"succeeded\",\"finishedAt\":{}}}",
                NOW - ago
            )
        })
        .collect();
    let jobs = format!(
        "{},{}",
        ended.join(","),
        "{\"id\":1,\"name\":\"twin\",\"state\":\"queued\"},{\"id\":1,\"name\":\"twin\",\"state\":\"queued\"}"
    );
    let extension = Extension {
        connected: true,
        status: Some(status(&format!("{{\"type\":\"status\",\"jobs\":[{jobs}]}}"))),
        ..Extension::default()
    };
    let shown: Vec<String> = drawn(&extension, NOW)
        .popup
        .iter()
        .map(|entry| match entry {
            Entry::Section(title) => title.to_string(),
            Entry::Job(row) => row.title.clone(),
            Entry::Error(error) => error.clone(),
        })
        .collect();
    assert_eq!(
        shown,
        ["up next", "twin", "twin", "recent", "ended 1000", "ended 2000", "ended 3000"]
    );
}

#[test]
fn shares_are_compared_as_floating_point_compares_them() {
    let top = 1i64 << 53;
    let wide = i64::MAX;
    for d in [1, 2, 3, 5, 7, 10, 3_600_000, top - 1, top, top + 1, top + 3, wide / 2, wide - 511, wide] {
        let line = (d as i128 * 4 / 5) as i64;
        for n in (-3..=3).map(|step: i64| line.saturating_add(step)).chain([0, 1, d, wide]) {
            if n >= 0 {
                assert_eq!(four_fifths(n, d), n as f64 / d as f64 >= 0.8, "{n} of {d}");
            }
        }
        for step in 0..64 {
            let n = line.saturating_sub(1 << step).max(0);
            assert_eq!(four_fifths(n, d), n as f64 / d as f64 >= 0.8, "{n} of {d}");
        }
    }
}

#[test]
fn requests_name_the_protocol_and_their_key() {
    assert_eq!(
        value(request(Operation::Pause, "one", "key")),
        parsed(
            "{\"protocol_version\":8,\"request_id\":\"one\",\"idempotency_key\":\"key\",\
             \"op\":{\"type\":\"pause\"}}"
        )
    );
    assert_eq!(
        value(subscription("two")),
        parsed("{\"protocol_version\":8,\"request_id\":\"two\",\"op\":{\"type\":\"subscribe\"}}")
    );
}

#[test]
fn integers_are_the_numbers_they_are_read_as() {
    for n in [0, 1, -1, 12, 1 << 53, (1 << 53) + 1, -(1 << 53) - 1, i64::MAX, i64::MIN] {
        match integer(n) {
            Json::Number { exact, natural, whole } => {
                let number = parsed(&n.to_string());
                assert_eq!(exact, number.as_i64());
                assert_eq!(natural, number.as_u64());
                assert_eq!(whole, number.as_f64().unwrap() as i64);
            }
            other => panic!("no number: {other:?}"),
        }
    }
}

#[test]
fn frames_are_written_as_the_bar_reads_them() {
    let nothing = drawn(&Extension::default(), NOW);
    assert_eq!(value(nothing.json()), parsed("{\"cell\":null,\"popup\":[]}"));

    let status = status(&format!(
        "{{\"type\":\"status\",\"activeLeases\":1,\"effectiveLimit\":2,\"jobs\":[\
         {{\"id\":1,\"name\":\"train\",\"state\":\"running\",\"updatedAt\":{},\"timeLimitMs\":240000}},\
         {{\"id\":2,\"name\":\"later\",\"state\":\"held\",\"eligibility\":\"held\"}}]}}",
        NOW - 60_000,
    ));
    let mut extension = Extension { connected: true, ..Extension::default() };
    extension.note_starts(&status, NOW);
    extension.status = Some(status);
    extension.error = Some("no".into());
    extension.armed = Some((1, CLOCK));
    let frame = value(drawn(&extension, NOW).json());
    assert_eq!(
        frame["header"],
        parsed(
            "{\"lines\":[{\"text\":\"1 running · 1 waiting\"},\
             {\"text\":\"1 of 2 slots busy\",\"color\":\"muted\",\"small\":true}],\
             \"action\":{\"id\":\"pause\",\"label\":\"pause\"}}"
        )
    );
    assert_eq!(frame["cell"]["color"], "green");
    assert_eq!(
        frame["popup"][0],
        parsed("{\"text\":{\"text\":\"no\",\"color\":\"red\",\"small\":true}}")
    );
    assert_eq!(frame["popup"][1], parsed("{\"section\":\"running\"}"));
    assert_eq!(
        frame["popup"][2],
        parsed(
            "{\"row\":{\"lines\":[{\"text\":\"train\"},\
             {\"text\":\"1m of 4m · #1\",\"color\":\"muted\",\"small\":true}],\
             \"progress\":{\"value\":0.25,\"color\":\"green\"},\
             \"action\":{\"id\":\"cancel:1\",\"label\":\"cancel?\",\"danger\":true}}}"
        )
    );
    let button = &frame["popup"][4]["row"]["action"];
    assert_eq!(button["id"], "release:2");
    assert!(button["glyph"].is_string() && button.get("label").is_none());
}
