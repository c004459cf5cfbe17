use tukituki::runtime::{
    action_error, action_line, rc_path, find_target_named, missing_run_dir_message, invocation_name, list_row, load, platform_arch, platform_os,
    resolve_otel_port, resolve_otel_protocol, resolve_otel_severity, resolve_run_dir, resolve_state_dir,
    restart_names, status_description, status_rows, version_line, Cli, RcFile,
};
use tukituki::state::{status_str, ProcessState, Status, Timestamp};
use tukituki::strmap::StrMap;
use tukituki::target::RunTarget;

fn cli() -> Cli {
    Cli {
        config: None,
        run_dir: None,
        state_dir: None,
        json: false,
        otel_protocol: None,
        otel_severity: None,
        otel_port: None,
        command: None,
    }
}

#[test]
fn default_run_dir_when_no_layer_set() {
    let rc = load(None);
    assert_eq!(resolve_run_dir(&cli(), &rc), ".run");
    assert_eq!(resolve_state_dir(&cli(), &rc), ".tukituki");
    assert_eq!(resolve_otel_protocol(&cli(), &rc), "grpc");
    assert_eq!(resolve_otel_severity(&cli(), &rc), "error");
    assert_eq!(resolve_otel_port(&cli(), &rc), 0);
}

#[test]
fn rc_file_in_cwd_overrides_default() {
    let rc = RcFile {
        run_dir: Some("config/processes".into()),
        state_dir: Some(".cache/tt".into()),
        otel_protocol: Some("http".into()),
        otel_severity: Some("warn".into()),
        otel_port: Some(4321),
    };
    let rc = load(Some(rc));
    assert_eq!(resolve_run_dir(&cli(), &rc), "config/processes");
    assert_eq!(resolve_state_dir(&cli(), &rc), ".cache/tt");
    assert_eq!(resolve_otel_protocol(&cli(), &rc), "http");
    assert_eq!(resolve_otel_severity(&cli(), &rc), "warn");
    assert_eq!(resolve_otel_port(&cli(), &rc), 4321);
}

#[test]
fn flag_overrides_env() {
    let rc = RcFile { run_dir: Some("from-rc".into()), ..RcFile::default() };
    let mut c = cli();
    c.run_dir = Some("from-flag".into());
    c.otel_port = Some(0);
    assert_eq!(resolve_run_dir(&c, &rc), "from-flag");
    let rc2 = RcFile { otel_port: Some(9999), ..RcFile::default() };
    assert_eq!(resolve_otel_port(&c, &rc2), 0, "an explicit 0 still wins");
}

#[test]
fn empty_layers_fall_through() {
    let rc = RcFile { run_dir: Some(String::new()), ..RcFile::default() };
    let mut c = cli();
    c.run_dir = Some(String::new());
    assert_eq!(resolve_run_dir(&c, &rc), ".run");
}

fn t(name: &str, desc: &str) -> RunTarget {
    RunTarget { name: name.into(), command: "cmd".into(), description: desc.into(), ..Default::default() }
}

#[test]
fn find_target_or_error() {
    let targets = vec![t("api", ""), t("web", "")];
    assert_eq!(find_target_named(&targets, "web").unwrap().name, "web");
    let otel = find_target_named(&targets, "otel-errors").unwrap();
    assert_eq!(otel.name, "otel-errors");
    assert!(otel.command.is_empty() && otel.args.is_empty() && otel.env.len() == 0);
    assert!(!otel.otel && otel.autorun && !otel.is_virtual && otel.parse_error.is_empty());
    let err = find_target_named(&targets, "nope").unwrap_err();
    assert_eq!(err.message, "target \"nope\" not found");
    assert_eq!(err.available, vec!["api", "web"]);
}

#[test]
fn status_rows_and_descriptions() {
    let targets = vec![t("api", "the api"), t("otel-errors", "OpenTelemetry error collector"), t("idle", "")];
    let mut statuses = StrMap::new();
    statuses.insert("api".to_string(), Status::Running);
    statuses.insert("otel-errors".to_string(), Status::Running);
    let mut procs: StrMap<ProcessState> = StrMap::new();
    procs.insert(
        "api".to_string(),
        ProcessState {
            name: "api".into(),
            pid: 77,
            log_file: String::new(),
            started_at: Timestamp { secs: 0, nanos: 0 },
            status: Status::Running,
            exit_code: None,
        },
    );
    let rows = status_rows(&targets, &statuses, &procs, 4317);
    assert_eq!(rows.len(), 3);
    assert_eq!(rows[0].pid, 77);
    assert_eq!(rows[0].address, "");
    assert_eq!(rows[1].address, "127.0.0.1:4317");
    assert_eq!(rows[2].status, Status::Unknown);
    assert_eq!(status_str(rows[2].status), "unknown");
    assert_eq!(status_description(&rows[1], 4317), "OpenTelemetry error collector (listening on :4317)");
    assert_eq!(status_description(&rows[2], 4317), "-");
    assert_eq!(list_row(&targets[2]), ("idle".to_string(), "cmd".to_string(), "-".to_string()));
}

#[test]
fn action_lines() {
    assert_eq!(action_line("Started", "api", Some(Status::Running)), "Started: api (status: running)");
    assert_eq!(action_line("Restarted", "api", None), "Restarted: api");
}

#[test]
fn restart_names_default_to_all() {
    let targets = vec![t("a", ""), t("b", "")];
    assert_eq!(restart_names(&targets, &vec![]), vec!["a", "b"]);
    assert_eq!(restart_names(&targets, &vec!["b".to_string()]), vec!["b"]);
}

#[test]
fn version_and_platform_names() {
    assert_eq!(platform_os("macos"), "darwin");
    assert_eq!(platform_os("linux"), "linux");
    assert_eq!(platform_arch("x86_64"), "amd64");
    assert_eq!(platform_arch("aarch64"), "arm64");
    assert_eq!(platform_arch("riscv64"), "riscv64");
    assert_eq!(version_line("1.2.3", "linux", "amd64", "rustc 1.80"), "tukituki 1.2.3 (linux/amd64, rustc 1.80)");
}

#[test]
fn invocation_names() {
    assert_eq!(invocation_name("/usr/local/bin/tktk"), "tktk");
    assert_eq!(invocation_name("tukituki"), "tukituki");
    assert_eq!(invocation_name("/"), "tukituki");
    assert_eq!(invocation_name(""), "tukituki");
}

/// The text `version` prints, checked the way the command's output is.
fn version_output() -> String {
    let os = platform_os("linux");
    let arch = platform_arch("x86_64");
    format!("{}\n", version_line("0.1.0", &os, &arch, "rustc 1.80.0 (051478957 2024-07-21)"))
}

#[test]
fn version_text_contains_expected_fields() {
    let stdout = version_output();
    assert!(stdout.starts_with("tukituki "));
    assert!(stdout.contains("rustc"));
}

#[test]
fn version_text_shape_matches_go_format() {
    let stdout = version_output();
    assert!(stdout.starts_with("tukituki "), "missing prefix: {stdout:?}");
    assert!(stdout.ends_with(")\n"), "missing trailing ')\\n': {stdout:?}");
    let open = stdout.find('(').expect("'(' not found");
    let inner = &stdout[open + 1..stdout.len() - 2];
    let (osarch, runtime) = inner.split_once(", ").expect("missing ', '");
    assert!(osarch.contains('/'), "missing os/arch separator: {osarch:?}");
    assert!(runtime.starts_with("rustc "), "runtime not rustc: {runtime:?}");
}

#[test]
fn list_missing_run_dir_text_error() {
    let stderr = format!("Error: {}", missing_run_dir_message("/tmp/project/.run"));
    assert!(stderr.contains("no .run/ directory found"), "expected helpful error: {stderr}");
    assert_eq!(
        missing_run_dir_message("/tmp/project/.run"),
        "no .run/ directory found at \"/tmp/project/.run\" — create .run/*.yaml files to define your processes"
    );
}

#[test]
fn action_errors_quote_the_name() {
    assert_eq!(action_error("start", "api", "spawn failed"), "start \"api\": spawn failed");
    assert_eq!(action_error("stop", "a\"b", "gone"), "stop \"a\\\"b\": gone");
}

#[test]
fn rc_path_prefers_flag_then_cwd_then_home() {
    let cwd = || Some("/work/.tukitukirc.yaml".to_string());
    let home = || Some("/home/u/.tukitukirc.yaml".to_string());
    assert_eq!(rc_path(Some("custom.yaml"), cwd(), home()), Some("custom.yaml".to_string()));
    assert_eq!(rc_path(Some(""), cwd(), home()), cwd());
    assert_eq!(rc_path(None, cwd(), home()), cwd());
    assert_eq!(rc_path(None, None, home()), home());
    assert_eq!(rc_path(None, None, None), None);
}
