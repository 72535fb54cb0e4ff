use cosmicbar::modules::origin::{describe, identify, interpreter, Origin};

fn args(line: &str) -> Vec<String> {
    line.split_whitespace().map(str::to_string).collect()
}

fn origin(comm: &str, line: &str, cwd: &str, cgroup: &str) -> Origin {
    describe(
        comm,
        &args(line),
        Some(cwd),
        cgroup,
        Some("/home/me"),
    )
}

#[test]
fn a_venv_script_names_the_script_its_project_and_its_launcher() {
    let origin = origin(
        "python",
        "/home/me/repos/kraggiculture/.venv/bin/python /var/tmp/scratch/update_harness",
        "/var/tmp/scratch/frozen/b561",
        "0::/user.slice/user-1000.slice/user@1000.service/app.slice/mlqd.service",
    );
    assert_eq!(origin.name, "update_harness");
    assert_eq!(origin.context, ["python", "kraggiculture", "mlqd"]);
}

#[test]
fn a_relative_venv_resolves_against_the_working_directory() {
    let origin = origin(
        "python",
        ".venv/bin/python -u /tmp/scratchpad/time_prep.py",
        "/home/me/repos/parameter-golf",
        "0::/user.slice/user@1000.service/app.slice/app-orca-18094.scope",
    );
    assert_eq!(origin.name, "time_prep.py");
    assert_eq!(origin.context, ["python", "parameter-golf", "orca"]);
}

#[test]
fn a_module_run_is_named_by_its_module() {
    let origin = origin(
        "python3.12",
        "/usr/bin/python3.12 -X dev -m pytest -q tests/test_ppo.py",
        "/home/me/repos/kraggiculture",
        "",
    );
    assert_eq!(origin.name, "pytest");
    assert_eq!(origin.context, ["python", "kraggiculture"]);
}

#[test]
fn a_shebang_script_keeps_its_own_name_and_names_its_interpreter() {
    let origin = origin(
        "pytest",
        "/home/me/repos/app/.venv/bin/python /home/me/repos/app/.venv/bin/pytest -q",
        "/home/me/repos/app",
        "",
    );
    assert_eq!(origin.name, "pytest");
    assert_eq!(origin.context, ["python", "app"]);
}

#[test]
fn inline_code_leaves_the_interpreter_as_the_name() {
    let origin = origin("python", "python -c print(1)", "/home/me", "");
    assert_eq!(origin.name, "python");
    assert!(origin.context.is_empty());
}

#[test]
fn a_retitled_interpreter_keeps_its_title() {
    let origin = origin("ray::Worker", "python worker.py", "/home/me", "");
    assert_eq!(origin.name, "ray::Worker");
    assert_eq!(origin.context, ["python"]);
}

#[test]
fn a_long_shebang_script_is_named_in_full() {
    let origin = origin(
        "train_policy_pp",
        "/home/me/repos/k/.venv/bin/python /home/me/repos/k/train_policy_ppo.py",
        "/home/me/repos/k",
        "",
    );
    assert_eq!(origin.name, "train_policy_ppo.py");
    assert_eq!(origin.context, ["python", "k"]);
}

#[test]
fn a_comm_cut_inside_a_character_is_completed() {
    let origin = describe("Isolated Web C\u{FFFD}", &["/usr/lib/Isolated Web Cö".into()], None, "", None);
    assert_eq!(origin.name, "Isolated Web Cö");
}

#[test]
fn an_unreadable_comm_falls_back_to_argv0() {
    let origin = describe("", &["/usr/lib/firefox/Isolated Web Content".into()], None, "", None);
    assert_eq!(origin.name, "Isolated Web Content");
}

#[test]
fn a_versioned_interactive_interpreter_is_not_repeated() {
    let origin = origin("python3", "python3", "/home/me", "");
    assert_eq!(origin.name, "python3");
    assert!(origin.context.is_empty());
}

#[test]
fn subcommands_and_valued_options_are_skipped() {
    let bash = interpreter("bash").unwrap();
    assert_eq!(bash.target(&args("--rcfile /home/me/.bashrc -i")), None);
    let deno = interpreter("deno").unwrap();
    assert_eq!(
        deno.target(&args("run --config deno.json main.ts")),
        Some("main.ts".into())
    );
    let java = interpreter("java").unwrap();
    assert_eq!(
        java.target(&args("-Xmx4g -cp lib/* -jar /opt/app/server.jar")),
        Some("server.jar".into())
    );
    let node = interpreter("node").unwrap();
    assert_eq!(
        node.target(&args("--inspect=9229 -r ts-node/register src/index.ts")),
        Some("index.ts".into())
    );
}

#[test]
fn a_truncated_comm_is_completed_from_argv0() {
    let origin = describe(
        "Isolated Web Co",
        &["/usr/lib/firefox/Isolated Web Content".to_string()],
        None,
        "",
        None,
    );
    assert_eq!(origin.name, "Isolated Web Content");
}

#[test]
fn a_package_run_by_path_is_named_by_its_package() {
    let origin = origin(
        "python",
        "/home/me/repos/k/.venv/bin/python /home/me/repos/k/.venv/lib/torch/compile_worker/__main__.py --pickler=x",
        "/tmp/frozen",
        "",
    );
    assert_eq!(origin.name, "compile_worker");
    assert_eq!(origin.context, ["python", "k"]);
}

#[test]
fn a_sandboxed_working_directory_is_not_a_project() {
    let origin = origin("helium", "/opt/helium/helium --type=renderer", "/proc/7332/fdinfo", "");
    assert!(origin.context.is_empty());
}

#[test]
fn an_interpreter_without_a_command_line_is_still_named() {
    let origin = describe("python", &[], None, "", None);
    assert_eq!(origin.name, "python");
    assert!(origin.context.is_empty());
}

#[test]
fn a_native_program_in_home_has_only_its_launcher() {
    let origin = origin(
        "resources",
        "resources",
        "/home/me",
        "0::/user.slice/user@1000.service/app.slice/app-flatpak-net.nokyan.Resources-2656401153.scope",
    );
    assert_eq!(origin.name, "resources");
    // `Resources` is the name again, in another case.
    assert!(origin.context.is_empty());
}

#[test]
fn units_read_as_names() {
    let unit = |leaf: &str| cosmicbar::modules::origin::unit(&format!("0::/user.slice/app.slice/{leaf}"));
    assert_eq!(unit("mlqd.service").as_deref(), Some("mlqd"));
    assert_eq!(unit("app-orca-18094.scope").as_deref(), Some("orca"));
    assert_eq!(unit("app-niri-env-34abeef6.scope").as_deref(), Some("niri"));
    assert_eq!(
        unit(r"app-niri-niri\x2dopen\x2ddefault\x2dbrowser-7181.scope").as_deref(),
        Some("niri-open-default-browser")
    );
    assert_eq!(
        unit("app-dev.cagents.Cagents.Daemon@autostart.service").as_deref(),
        Some("Cagents.Daemon")
    );
    assert_eq!(
        unit("app-org.chromium.Chromium-7250.scope").as_deref(),
        Some("Chromium")
    );
    assert_eq!(unit("dbus-broker.service").as_deref(), Some("dbus-broker"));
    assert_eq!(
        unit("dbus-:1.2-org.freedesktop.portal.Desktop@0.service").as_deref(),
        Some("portal.Desktop")
    );
    assert_eq!(unit("libpod-4f1c0d9e2b7a.scope").as_deref(), Some("podman"));
    assert_eq!(unit("session-2.scope"), None);
    assert_eq!(unit("run-p3912511-i3953478.scope"), None);
    assert_eq!(unit("run-u42.service"), None);
    assert_eq!(unit("run-backup.service").as_deref(), Some("run-backup"));
    assert_eq!(unit("user@1000.service"), None);
    assert_eq!(unit("app.slice"), None);
}

#[test]
fn a_process_is_identified_from_its_files() {
    let script = identify(
        7,
        &b"python\n".to_vec(),
        b"/usr/bin/python\0tool.py\0",
        Some("/home/me/repos/gone (deleted)"),
        "",
        Some("/home/me"),
    );
    assert_eq!(script.name, "tool.py");
    assert_eq!(script.context, ["python", "gone"]);
    let torn = identify(9, &vec![b'a', 0xff, b'\n'], b"", None, "", None);
    assert_eq!(torn.name, "a\u{fffd}");
    let nameless = identify(12, &Vec::new(), b"", None, "", None);
    assert_eq!(nameless.name, "[12]");
    assert!(nameless.context.is_empty());
}
