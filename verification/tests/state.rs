use tukituki::logbuf::{LogBuffer, LogRing, TUI_RING};
use tukituki::state::{is_alive, reconcile_status, ProcessState, State, Status, Timestamp};

fn ps(pid: i32, status: Status) -> ProcessState {
    ProcessState {
        name: "p".into(),
        pid,
        log_file: String::new(),
        started_at: Timestamp { secs: 0, nanos: 0 },
        status,
        exit_code: None,
    }
}

#[test]
fn is_alive_dead_process() {
    assert!(!is_alive(Some(&ps(0, Status::Running))));
}

#[test]
fn is_alive_nil_process() {
    assert!(!is_alive(None));
}

#[test]
fn is_alive_running_process() {
    assert!(is_alive(Some(&ps(1, Status::Running))), "init is always there");
}

#[test]
fn reconcile_alive_flips_dead_to_stopped() {
    let mut s = State::new();
    s.processes.insert("alive".into(), ProcessState { name: "alive".into(), ..ps(1, Status::Running) });
    s.processes.insert("dead".into(), ProcessState { name: "dead".into(), ..ps(0, Status::Running) });
    s.processes.insert("failed".into(), ProcessState { name: "failed".into(), ..ps(0, Status::Failed) });
    // Entries come in name order: alive, dead, failed.
    s.reconcile_alive(&vec![true, false, false]);
    assert_eq!(s.processes.get("alive").unwrap().status, Status::Running);
    assert_eq!(s.processes.get("dead").unwrap().status, Status::Stopped);
    assert_eq!(s.processes.get("failed").unwrap().status, Status::Failed);
}

#[test]
fn reconcile_status_rules() {
    assert_eq!(reconcile_status(None, true), Status::Unknown);
    assert_eq!(reconcile_status(Some(&ps(5, Status::Running)), false), Status::Stopped);
    assert_eq!(reconcile_status(Some(&ps(5, Status::Running)), true), Status::Running);
}

#[test]
fn append_log_line_splits_multiline_input() {
    let mut ring = LogRing::new();
    ring.append("one\ntwo\n\n");
    ring.append("three");
    assert_eq!(ring.lines(), vec!["one", "two", "three"]);
    ring.clear();
    assert!(ring.lines().is_empty());
}

#[test]
fn ring_keeps_the_last_thousand_lines() {
    let mut ring = LogRing::new();
    for i in 0..1005 {
        ring.append(&format!("line {i}"));
    }
    let lines = ring.lines();
    assert_eq!(lines.len(), 1000);
    assert_eq!(lines[0], "line 5");
    assert_eq!(lines[999], "line 1004");
}

#[test]
fn tui_buffer_drops_the_oldest_line() {
    let mut b = LogBuffer::default();
    for i in 0..(TUI_RING + 2) {
        b.push(format!("{i}"));
    }
    assert_eq!(b.lines.len(), TUI_RING);
    assert_eq!(b.lines.front().map(String::as_str), Some("2"));
}
