use tukituki::manager::{
    all_statuses, build_otel_target, collector_step, otel_targets_need_restart, port_reusable_given, running_now, start_decision, CollectorStep, cleanup_spawn_failure, exit_marker, orphaned_process_names, start_check, stop_all_names, StartCheck, otel_restart_names_given, choose_otel_port, cleanup_exit_message, describe_target, find_target,
    join_path, mark_stopped, names_to_start, parse_port_file, plan_spawn, record_exit, saved_port_reusable, stop_step, upsert_target,
    virtual_otel_target, ExitReport, OtelConfig, Sig, SignalOutcome, StopAction, StopEvent, StopState,
    OTEL_TARGET_NAME,
};
use tukituki::state::{ProcessState, Status, Timestamp};
use tukituki::strmap::StrMap;
use tukituki::target::RunTarget;

fn ps(name: &str, pid: i32, status: Status) -> ProcessState {
    ProcessState {
        name: name.into(),
        pid,
        log_file: format!("/state/logs/{name}.log"),
        started_at: Timestamp { secs: 1_516_991_409, nanos: 0 },
        status,
        exit_code: None,
    }
}

#[test]
fn set_otel_config_explicit_port_persists() {
    assert_eq!(choose_otel_port(4321, 5555, true, Some(6000), "grpc"), (4321, true));
}

#[test]
fn set_otel_config_picks_and_persists_port() {
    assert_eq!(choose_otel_port(0, 0, false, Some(40123), "grpc"), (40123, true));
    assert_eq!(choose_otel_port(0, 5555, true, Some(6000), "grpc"), (5555, false));
    assert_eq!(choose_otel_port(0, 5555, false, Some(6000), "grpc"), (6000, true));
    assert_eq!(choose_otel_port(0, 0, false, None, "http"), (4318, true));
    assert_eq!(choose_otel_port(0, 0, false, None, "grpc"), (4317, true));
}

#[test]
fn port_file_parsing() {
    assert_eq!(parse_port_file(" 4321\n"), 4321);
    assert_eq!(parse_port_file("garbage"), 0);
    assert_eq!(parse_port_file("70000"), 0);
    assert_eq!(parse_port_file(""), 0);
}

#[test]
fn start_all_skips_autorun_false() {
    let mut manual = RunTarget { name: "manual".into(), ..Default::default() };
    manual.autorun = false;
    let broken = RunTarget { name: "broken".into(), parse_error: "x.yaml: bad".into(), ..Default::default() };
    let targets = vec![RunTarget { name: "auto".into(), ..Default::default() }, manual, broken];
    assert_eq!(names_to_start(&targets), vec!["auto".to_string()]);
}

#[test]
fn spawn_plan_for_a_target() {
    let mut t = RunTarget {
        name: "api".into(),
        command: "go".into(),
        args: vec!["run".into(), "./cmd/api server".into()],
        workdir: "backend".into(),
        otel: true,
        ..Default::default()
    };
    t.env.insert("PORT".into(), "8080".into());
    let plan = plan_spawn(&t, "/bin/zsh", "/proj", "/proj/.tukituki/logs", 4317, &StrMap::new(), &StrMap::new()).unwrap();
    assert_eq!(plan.program, "/bin/zsh");
    assert_eq!(plan.args, vec!["-l", "-c", "go run './cmd/api server'"]);
    assert_eq!(plan.workdir.as_deref(), Some("/proj/backend"));
    assert_eq!(plan.log_file, "/proj/.tukituki/logs/api.log");
    let env: Vec<(&str, &str)> = plan.env.iter().map(|(k, v)| (k.as_str(), v.as_str())).collect();
    assert_eq!(
        env,
        vec![
            ("PORT", "8080"),
            ("OTEL_EXPORTER_OTLP_ENDPOINT", "http://127.0.0.1:4317"),
            ("OTEL_METRICS_EXPORTER", "none"),
            ("OTEL_TRACES_EXPORTER", "none"),
        ]
    );
}

#[test]
fn spawn_plan_refuses_a_broken_run_file() {
    let t = RunTarget { name: "bad".into(), parse_error: "bad.yaml: oops".into(), ..Default::default() };
    assert_eq!(plan_spawn(&t, "/bin/sh", "/p", "/l", 0, &StrMap::new(), &StrMap::new()).unwrap_err(), "target \"bad\" has a config error: bad.yaml: oops");
}

#[test]
fn target_env_overrides_nothing_without_otel() {
    let t = RunTarget { name: "web".into(), command: "npm".into(), workdir: "/abs".into(), ..Default::default() };
    let plan = plan_spawn(&t, "/bin/sh", "/p", "/l/", 4317, &StrMap::new(), &StrMap::new()).unwrap();
    assert!(plan.env.is_empty());
    assert_eq!(plan.workdir.as_deref(), Some("/abs"));
    assert_eq!(plan.log_file, "/l/web.log");
}

#[test]
fn path_joining() {
    assert_eq!(join_path("/a", "b"), "/a/b");
    assert_eq!(join_path("/a/", "b"), "/a/b");
    assert_eq!(join_path("", "b"), "b");
    assert_eq!(join_path("/a", "/b"), "/b");
}

#[test]
fn describe_never_started_target() {
    let t = RunTarget { name: "web".into(), command: "npm".into(), args: vec!["start".into()], ..Default::default() };
    let text = describe_target(&t, None, false, 0, "/proj", "/bin/sh");
    let want = "Target:       web\nStatus:       (never started)\n\nShell:        /bin/sh -l -c\nCommand:      npm\nArgs:\n  - start\nShell line:   npm start\nWorkdir:      /proj\n\nOTel:         false\n\nInjected environment (parent env is inherited separately):\n  (none)\n";
    assert_eq!(text, want);
}

#[test]
fn describe_running_target_with_everything() {
    let mut t = RunTarget {
        name: "api".into(),
        description: "the API".into(),
        command: "go".into(),
        workdir: "svc".into(),
        otel: true,
        cleanup: vec!["rm -f pid".into()],
        ..Default::default()
    };
    t.env.insert("A".into(), "1".into());
    let mut p = ps("api", 1234, Status::Running);
    p.exit_code = Some(3);
    let dead = describe_target(&t, Some(&p), false, 4317, "/proj", "/bin/bash");
    let want = "Target:       api\nDescription:  the API\nStatus:       stopped\nPID:          1234\nStarted:      2018-01-26T18:30:09+00:00\nLog file:     /state/logs/api.log\nExit code:    3\n\nShell:        /bin/bash -l -c\nCommand:      go\nShell line:   go\nWorkdir:      /proj/svc\n\nOTel:         true (endpoint: http://127.0.0.1:4317)\n\nInjected environment (parent env is inherited separately):\n  A=1\n  OTEL_EXPORTER_OTLP_ENDPOINT=http://127.0.0.1:4317\n  OTEL_METRICS_EXPORTER=none\n  OTEL_TRACES_EXPORTER=none\n\nCleanup commands:\n  - rm -f pid\n";
    assert_eq!(dead, want);
    let alive = describe_target(&t, Some(&p), true, 4317, "/proj", "/bin/bash");
    assert!(alive.contains("Status:       running\n"));
}

#[test]
fn describe_unknown_target_is_empty() {
    let targets = vec![RunTarget { name: "a".into(), ..Default::default() }];
    let text = tukituki::manager::describe(&targets, &StrMap::new(), "zzz", 0, "/p", "/bin/sh");
    assert!(text.is_empty());
    let known = tukituki::manager::describe(&targets, &StrMap::new(), "a", 0, "/p", "/bin/sh");
    assert!(known.starts_with("Target:       a\nStatus:       (never started)\n"));
}

#[test]
fn otel_target_arguments() {
    let cfg = OtelConfig { port: 4317, protocol: "grpc".into(), severity: "error".into() };
    let t = build_otel_target("/usr/bin/tukituki", &cfg, ".tukituki/otel-notify.sock");
    assert_eq!(t.name, OTEL_TARGET_NAME);
    assert!(t.is_virtual);
    assert_eq!(t.command, "/usr/bin/tukituki");
    assert_eq!(
        t.args,
        vec!["otel-collector", "--protocol", "grpc", "--severity", "error", "--port", "4317", "--notify-socket", ".tukituki/otel-notify.sock"]
    );
    let stub = virtual_otel_target(None, Some(&cfg), "s");
    assert!(stub.command.is_empty());
    assert_eq!(stub.description, "OpenTelemetry error collector");
}

#[test]
fn upsert_replaces_or_appends() {
    let mut ts = vec![RunTarget { name: "a".into(), ..Default::default() }];
    upsert_target(&mut ts, RunTarget { name: "a".into(), command: "new".into(), ..Default::default() });
    assert_eq!(ts.len(), 1);
    assert_eq!(ts[0].command, "new");
    upsert_target(&mut ts, RunTarget { name: "b".into(), ..Default::default() });
    assert_eq!(ts.len(), 2);
    assert_eq!(find_target(&ts, "b"), Some(1));
    assert_eq!(find_target(&ts, "c"), None);
}

#[test]
fn reaper_and_stop_marks() {
    let mut m: StrMap<ProcessState> = StrMap::new();
    m.insert("a".into(), ps("a", 10, Status::Running));
    m.insert("b".into(), ps("b", 11, Status::Stopped));
    record_exit(&mut m, "a", ExitReport::Exited { success: false, code: Some(2) });
    assert_eq!(m.get("a").unwrap().status, Status::Failed);
    assert_eq!(m.get("a").unwrap().exit_code, Some(2));
    record_exit(&mut m, "b", ExitReport::Exited { success: false, code: None });
    assert_eq!(m.get("b").unwrap().status, Status::Stopped, "a recorded stop wins");
    assert_eq!(m.get("b").unwrap().exit_code, Some(-1));
    m.insert("c".into(), ps("c", 12, Status::Running));
    mark_stopped(&mut m, "c");
    assert_eq!(m.get("c").unwrap().status, Status::Stopped);
    mark_stopped(&mut m, "nope");
    assert_eq!(m.len(), 3);
}

#[test]
fn statuses_of_dead_records() {
    let mut m: StrMap<ProcessState> = StrMap::new();
    m.insert("dead".into(), ps("dead", 0, Status::Running));
    m.insert("failed".into(), ps("failed", 0, Status::Failed));
    let st = all_statuses(&m);
    assert_eq!(st.get("dead"), Some(&Status::Stopped));
    assert_eq!(st.get("failed"), Some(&Status::Failed));
}

#[test]
fn stop_escalates_from_term_to_kill() {
    let (s, a) = stop_step("api", StopState::Begin, StopEvent::Recorded(Some(42)));
    assert_eq!(a, StopAction::SignalGroup(42, Sig::Term));
    let (s, a) = stop_step("api", s, StopEvent::Signalled(SignalOutcome::Sent));
    assert_eq!(a, StopAction::AwaitDrain(42, 5));
    let (s, a) = stop_step("api", s, StopEvent::Drained(false));
    assert_eq!(a, StopAction::SignalGroup(42, Sig::Kill));
    let (s, a) = stop_step("api", s, StopEvent::Signalled(SignalOutcome::Failed("EPERM".into())));
    assert_eq!(a, StopAction::SignalLeader(42, Sig::Kill));
    let (s, a) = stop_step("api", s, StopEvent::Signalled(SignalOutcome::NoSuchProcess));
    assert_eq!(a, StopAction::AwaitDrain(42, 2));
    let (s, a) = stop_step("api", s, StopEvent::Drained(true));
    assert_eq!((s, a), (StopState::Finished, StopAction::Finish));
}

#[test]
fn stop_failures_and_shortcuts() {
    let (_, a) = stop_step("ghost", StopState::Begin, StopEvent::Recorded(None));
    assert_eq!(a, StopAction::Fail("no state for process \"ghost\"".into()));
    let (_, a) = stop_step("x", StopState::Begin, StopEvent::Recorded(Some(0)));
    assert_eq!(a, StopAction::Finish);
    let (s, _) = stop_step("x", StopState::TermToGroup(7), StopEvent::Signalled(SignalOutcome::NoSuchProcess));
    assert_eq!(s, StopState::TermToLeader(7));
    let (_, a) = stop_step("x", s, StopEvent::Signalled(SignalOutcome::Failed("EPERM: Operation not permitted".into())));
    assert_eq!(a, StopAction::Fail("SIGTERM to 7: EPERM: Operation not permitted".into()));
    let (_, a) = stop_step("x", StopState::TermToLeader(7), StopEvent::Signalled(SignalOutcome::NoSuchProcess));
    assert_eq!(a, StopAction::Finish);
}

#[test]
fn cleanup_failure_message_format() {
    let m = cleanup_exit_message("api", "rm -rf x", Some(1), &b"out\n".to_vec(), &b"err  \n".to_vec());
    assert_eq!(m, "cleanup api: \"rm -rf x\": exit status 1\nout\n\nerr");
    let m = cleanup_exit_message("api", "true", None, &vec![], &vec![]);
    assert_eq!(m, "cleanup api: \"true\": exit status -1");
}

#[test]
fn saved_port_reusable_when_free_or_held_by_our_collector() {
    let mut processes: StrMap<ProcessState> = StrMap::new();
    assert!(saved_port_reusable(true, &processes));
    assert!(!saved_port_reusable(false, &processes));
    processes.insert(OTEL_TARGET_NAME.to_string(), ps(OTEL_TARGET_NAME, 0, Status::Running));
    assert!(!saved_port_reusable(false, &processes));
    // PID 1 is always there.
    processes.insert(OTEL_TARGET_NAME.to_string(), ps(OTEL_TARGET_NAME, 1, Status::Running));
    assert!(saved_port_reusable(false, &processes));
}

#[test]
fn exit_marker_names_time_and_code() {
    assert_eq!(
        exit_marker("2024-05-01 12:00:00", 137),
        "\n(Process exited at 2024-05-01 12:00:00, exit code: 137)\n"
    );
    assert_eq!(exit_marker("t", -1), "\n(Process exited at t, exit code: -1)\n");
}

#[test]
fn otel_restart_names_pick_live_running_otel_targets_in_order() {
    let target = |name: &str, otel: bool| RunTarget { name: name.into(), command: "x".into(), otel, ..Default::default() };
    let targets = vec![
        target("web", true),
        target("db", false),
        target(OTEL_TARGET_NAME, true),
        target("api", true),
        target("job", true),
        target("gone", true),
    ];
    let mut processes: StrMap<ProcessState> = StrMap::new();
    processes.insert("web".into(), ps("web", 10, Status::Running));
    processes.insert("db".into(), ps("db", 11, Status::Running));
    processes.insert(OTEL_TARGET_NAME.into(), ps(OTEL_TARGET_NAME, 12, Status::Running));
    processes.insert("api".into(), ps("api", 13, Status::Running));
    processes.insert("job".into(), ps("job", 14, Status::Stopped));
    let alive = vec![true, true, true, true, true, false];
    assert_eq!(otel_restart_names_given(&targets, &processes, &alive), vec!["web", "api"]);
    let alive = vec![false, true, true, true, true, true];
    assert_eq!(otel_restart_names_given(&targets, &processes, &alive), vec!["api"]);
}

fn strs(pairs: &[(&str, &str)]) -> StrMap<String> {
    let mut m = StrMap::new();
    for (k, v) in pairs {
        m.insert((*k).to_string(), (*v).to_string());
    }
    m
}

fn env_of(plan: &tukituki::manager::SpawnPlan) -> Vec<(String, String)> {
    plan.env.clone()
}

#[test]
fn target_env_overrides_dotenv() {
    let t = RunTarget { name: "api".into(), command: "x".into(), env: strs(&[("PORT", "9000")]), ..Default::default() };
    let dotenv = strs(&[("PORT", "8000"), ("DB", "local")]);
    let plan = plan_spawn(&t, "/bin/sh", "/p", "/l", 0, &dotenv, &StrMap::new()).unwrap();
    // Applied in order, so the target's PORT is the one the child sees.
    assert_eq!(
        env_of(&plan),
        vec![
            ("DB".to_string(), "local".to_string()),
            ("PORT".to_string(), "8000".to_string()),
            ("PORT".to_string(), "9000".to_string()),
        ]
    );
}

#[test]
fn dotenv_does_not_override_the_process_environment() {
    let t = RunTarget { name: "api".into(), command: "x".into(), ..Default::default() };
    let dotenv = strs(&[("HOME", "/dotenv"), ("FRESH", "first")]);
    let os = strs(&[("HOME", "/root")]);
    let plan = plan_spawn(&t, "/bin/sh", "/p", "/l", 0, &dotenv, &os).unwrap();
    assert_eq!(env_of(&plan), vec![("FRESH".to_string(), "first".to_string())]);
    // A restart after `.env` changed plans with the new table.
    let plan = plan_spawn(&t, "/bin/sh", "/p", "/l", 0, &strs(&[("FRESH", "second")]), &os).unwrap();
    assert_eq!(env_of(&plan), vec![("FRESH".to_string(), "second".to_string())]);
}

#[test]
fn start_checks_the_config_error_first() {
    let bad = RunTarget { name: "bad".into(), parse_error: "bad.yaml: oops".into(), ..Default::default() };
    let running = ps("bad", 1, Status::Running);
    match start_check(&bad, Some(&running)) {
        StartCheck::ConfigError(e) => assert_eq!(e, "target \"bad\" has a config error: bad.yaml: oops"),
        _ => panic!("a config error comes first"),
    }
    let good = RunTarget { name: "good".into(), command: "x".into(), ..Default::default() };
    assert!(matches!(start_check(&good, None), StartCheck::Spawn));
    assert!(matches!(start_check(&good, Some(&ps("good", 0, Status::Running))), StartCheck::Spawn));
    assert!(matches!(start_check(&good, Some(&ps("good", 1, Status::Stopped))), StartCheck::Spawn));
    // PID 1 is always there.
    assert!(matches!(start_check(&good, Some(&ps("good", 1, Status::Running))), StartCheck::AlreadyRunning));
}

#[test]
fn cleanup_spawn_failure_names_the_command() {
    assert_eq!(
        cleanup_spawn_failure("api", "rm -f pid", "No such file or directory (os error 2)"),
        "cleanup api: \"rm -f pid\": No such file or directory (os error 2)"
    );
}

#[test]
fn stop_all_sweeps_processes_whose_target_was_deleted() {
    let keeper = RunTarget { name: "keeper".into(), command: "sleep 30".into(), ..Default::default() };
    let mut processes: StrMap<ProcessState> = StrMap::new();
    processes.insert("keeper".into(), ps("keeper", 10, Status::Running));
    processes.insert("removed".into(), ps("removed", 11, Status::Running));
    let targets = vec![keeper];
    assert_eq!(orphaned_process_names(&targets, &processes), vec!["removed"]);
    assert_eq!(stop_all_names(&targets, &processes), vec!["keeper", "removed"]);
}

#[test]
fn orphan_sweep_ignores_targets_that_still_exist() {
    let alpha = RunTarget { name: "alpha".into(), command: "sleep 30".into(), ..Default::default() };
    let mut processes: StrMap<ProcessState> = StrMap::new();
    processes.insert("alpha".into(), ps("alpha", 10, Status::Running));
    processes.insert(OTEL_TARGET_NAME.into(), ps(OTEL_TARGET_NAME, 12, Status::Running));
    let targets = vec![alpha];
    assert!(orphaned_process_names(&targets, &processes).is_empty());
    assert_eq!(stop_all_names(&targets, &processes), vec!["alpha"]);
}

#[test]
fn running_now_needs_a_live_running_record() {
    let running = ps("api", 10, Status::Running);
    assert!(running_now(Some(&running), true));
    assert!(!running_now(Some(&running), false));
    assert!(!running_now(Some(&ps("api", 10, Status::Stopped)), true));
    assert!(!running_now(Some(&ps("api", 0, Status::Running)), true));
    assert!(!running_now(None, true));
}

#[test]
fn saved_port_reused_when_free_or_held_by_a_live_collector() {
    assert!(port_reusable_given(true, false));
    assert!(port_reusable_given(false, true));
    assert!(!port_reusable_given(false, false));
}

#[test]
fn start_decision_leaves_a_live_target_alone() {
    let t = RunTarget { name: "api".into(), command: "x".into(), ..Default::default() };
    let running = ps("api", 10, Status::Running);
    assert!(matches!(start_decision(&t, Some(&running), true), StartCheck::AlreadyRunning));
    assert!(matches!(start_decision(&t, Some(&running), false), StartCheck::Spawn));
    assert!(matches!(start_decision(&t, None, false), StartCheck::Spawn));
    let bad = RunTarget { parse_error: "x.yaml: oops".into(), ..t };
    assert!(matches!(start_decision(&bad, Some(&running), true), StartCheck::ConfigError(_)));
}

#[test]
fn collector_step_decisions() {
    assert!(matches!(collector_step(false, true, false, true), CollectorStep::Skip));
    assert!(matches!(collector_step(true, false, true, true), CollectorStep::Skip));
    assert!(matches!(collector_step(true, true, true, false), CollectorStep::Reattach));
    assert!(matches!(collector_step(true, true, false, true), CollectorStep::Start { switch_port: false }));
    assert!(matches!(collector_step(true, true, false, false), CollectorStep::Start { switch_port: true }));
    assert!(!otel_targets_need_restart(4317, 4317, 4317));
    assert!(otel_targets_need_restart(0, 4317, 4317));
    assert!(otel_targets_need_restart(4317, 4317, 5000));
}
