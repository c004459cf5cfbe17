use tukituki::pids::{load, record, render};

/// The ledger file's text after recording `pid`, as the caller writes it.
fn record_text(text: &str, pid: i32) -> String {
    match record(&load(text), pid) {
        Some(v) => render(&v),
        None => text.to_string(),
    }
}

#[test]
fn record_then_load_roundtrips() {
    let mut ledger = String::new();
    ledger = record_text(&ledger, 42);
    ledger = record_text(&ledger, 7);
    let mut got = load(&ledger);
    got.sort();
    assert_eq!(got, vec![7, 42]);
}

#[test]
fn record_is_idempotent() {
    let mut ledger = String::new();
    ledger = record_text(&ledger, 99);
    assert!(record(&load(&ledger), 99).is_none());
    ledger = record_text(&ledger, 99);
    assert_eq!(load(&ledger), vec![99]);
}

#[test]
fn load_missing_or_garbage_is_empty_not_an_error() {
    assert!(load("").is_empty(), "missing file => no pids");
    assert_eq!(load("not-a-pid\n\n-5\n12\n"), vec![12], "skip junk, keep valid pids");
}

#[test]
fn render_writes_one_pid_per_line() {
    assert_eq!(render(&vec![3, 12]), "3\n12\n");
    assert_eq!(render(&vec![]), "");
}

#[test]
fn record_refuses_non_positive_pids() {
    assert!(record(&vec![], 0).is_none());
    assert!(record(&vec![], -3).is_none());
    assert_eq!(record(&vec![5, 9], 7), Some(vec![5, 7, 9]));
}
