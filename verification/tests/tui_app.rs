//! The TUI state machine driven the way the terminal loop drives it: each
//! event goes to `App::handle`, and a manager call it asks for is made on
//! a recording stand-in and reported back as `OpDone`.

use tukituki::app::{App, AppEvent, KeyCode, KeyEvent, Outcome, Request};
use tukituki::strmap::StrMap;
use tukituki::target::RunTarget;

#[derive(Default)]
struct FakeManager {
    started: Vec<String>,
    stopped: Vec<String>,
    restarted: Vec<String>,
    dumped: Vec<String>,
    cleared: Vec<String>,
}

impl FakeManager {
    fn perform(&mut self, req: &Request) -> Outcome {
        match req {
            Request::Start(n) => {
                self.started.push(n.clone());
                Outcome::Done(String::new())
            }
            Request::Stop(n) => {
                self.stopped.push(n.clone());
                Outcome::Done(String::new())
            }
            Request::Restart(n) => {
                self.restarted.push(n.clone());
                Outcome::Done(String::new())
            }
            Request::RestartAll(names) => {
                for n in names {
                    self.restarted.push(n.clone());
                }
                Outcome::Tally(names.len() as u64, 0)
            }
            Request::Dump(n) => {
                self.dumped.push(n.clone());
                Outcome::Done(format!("./{n}.log"))
            }
            Request::Clear(n) => {
                self.cleared.push(n.clone());
                Outcome::Done(String::new())
            }
            Request::Describe(n) => Outcome::Done(format!("description of {n}")),
            Request::Edit(_) => Outcome::Done(String::new()),
        }
    }
}

fn target(name: &str) -> RunTarget {
    RunTarget { name: name.into(), command: "true".into(), ..Default::default() }
}

fn grouped(name: &str, group: &str) -> RunTarget {
    RunTarget { name: name.into(), group: group.into(), command: "true".into(), ..Default::default() }
}

fn virtual_target(name: &str) -> RunTarget {
    RunTarget { name: name.into(), is_virtual: true, command: "true".into(), ..Default::default() }
}

fn make_app(targets: Vec<RunTarget>) -> App {
    App::new(targets, StrMap::new(), ".".into(), ".".into())
}

fn key(code: KeyCode) -> AppEvent {
    AppEvent::Key(KeyEvent { code, ctrl: false })
}

fn ctrl(c: char) -> AppEvent {
    AppEvent::Key(KeyEvent { code: KeyCode::Char(c), ctrl: true })
}

fn log(target: &str, line: &str) -> AppEvent {
    AppEvent::LogLine { target: target.into(), line: line.into() }
}

/// Feeds one event, makes the manager call it asks for, reports the
/// outcome back; returns whether the loop goes on and whether to stop all.
fn drive(app: &mut App, mgr: &mut FakeManager, ev: AppEvent) -> (bool, bool) {
    let step = app.handle(ev);
    if let Some(request) = step.request {
        let outcome = mgr.perform(&request);
        app.handle(AppEvent::OpDone { request, outcome });
    }
    (step.cont.continue_loop, step.cont.stop_all)
}

fn dispatch(app: &mut App, ev: AppEvent) -> bool {
    let mut mgr = FakeManager::default();
    drive(app, &mut mgr, ev).0
}

#[test]
fn down_arrow_moves_selection() {
    let mut app = make_app(vec![target("a"), target("b"), target("c")]);
    assert_eq!(app.selected, 0);
    dispatch(&mut app, key(KeyCode::Down));
    assert_eq!(app.selected, 1);
    dispatch(&mut app, key(KeyCode::Char('j')));
    assert_eq!(app.selected, 2);
    dispatch(&mut app, key(KeyCode::Down));
    assert_eq!(app.selected, 2);
}

#[test]
fn up_arrow_moves_selection() {
    let mut app = make_app(vec![target("a"), target("b"), target("c")]);
    app.selected = 2;
    dispatch(&mut app, key(KeyCode::Up));
    assert_eq!(app.selected, 1);
    dispatch(&mut app, key(KeyCode::Char('k')));
    assert_eq!(app.selected, 0);
    dispatch(&mut app, key(KeyCode::Up));
    assert_eq!(app.selected, 0);
}

#[test]
fn folder_expand_collapse_reshapes_rows() {
    let mut app = make_app(vec![target("api"), grouped("kb-a", "kb"), grouped("kb-b", "kb")]);
    assert_eq!(app.rows.len(), 2);
    app.selected = 1;
    dispatch(&mut app, key(KeyCode::Right));
    assert_eq!(app.rows.len(), 4, "expanded folder should show its members");
    dispatch(&mut app, key(KeyCode::Char('h')));
    assert_eq!(app.rows.len(), 2);
}

#[test]
fn enter_toggles_selected_folder() {
    let mut app = make_app(vec![grouped("kb-a", "kb")]);
    app.selected = 0;
    assert_eq!(app.rows.len(), 1);
    dispatch(&mut app, key(KeyCode::Enter));
    assert_eq!(app.rows.len(), 2, "Enter should expand");
    dispatch(&mut app, key(KeyCode::Enter));
    assert_eq!(app.rows.len(), 1, "Enter should re-collapse");
}

#[test]
fn detach_quits_loop_without_stop_all() {
    let mut app = make_app(vec![target("a")]);
    let cont = app.handle(key(KeyCode::Char('q'))).cont;
    assert!(!cont.continue_loop, "q should end the loop");
    assert!(!cont.stop_all, "q should NOT request stop_all");
}

#[test]
fn shift_q_quits_with_stop_all() {
    let mut app = make_app(vec![target("a")]);
    let cont = app.handle(key(KeyCode::Char('Q'))).cont;
    assert!(!cont.continue_loop);
    assert!(cont.stop_all, "Q should request stop_all");
}

#[test]
fn ctrl_c_quits_with_stop_all() {
    let mut app = make_app(vec![target("a")]);
    let cont = app.handle(ctrl('c')).cont;
    assert!(!cont.continue_loop);
    assert!(cont.stop_all);
}

#[test]
fn start_key_calls_manager_start() {
    let mut mgr = FakeManager::default();
    let mut app = make_app(vec![target("alpha")]);
    app.selected = 0;
    drive(&mut app, &mut mgr, key(KeyCode::Char('S')));
    assert_eq!(mgr.started, vec!["alpha".to_string()]);
    assert_eq!(app.status_msg, "started alpha");
}

#[test]
fn stop_key_calls_manager_stop() {
    let mut mgr = FakeManager::default();
    let mut app = make_app(vec![target("alpha")]);
    drive(&mut app, &mut mgr, key(KeyCode::Char('s')));
    assert_eq!(mgr.stopped, vec!["alpha".to_string()]);
}

#[test]
fn restart_key_calls_manager_restart() {
    let mut mgr = FakeManager::default();
    let mut app = make_app(vec![target("alpha")]);
    drive(&mut app, &mut mgr, key(KeyCode::Char('r')));
    assert_eq!(mgr.restarted, vec!["alpha".to_string()]);
}

#[test]
fn clear_key_calls_manager_clear_and_empties_buffer() {
    let mut mgr = FakeManager::default();
    let mut app = make_app(vec![target("alpha")]);
    drive(&mut app, &mut mgr, log("alpha", "old line"));
    drive(&mut app, &mut mgr, key(KeyCode::Char('c')));
    let buf = app.logs.get("alpha").unwrap();
    assert!(buf.lines.is_empty(), "buffer should be cleared");
    assert_eq!(mgr.cleared, vec!["alpha".to_string()]);
    assert_eq!(app.status_msg, "cleared alpha logs");
}

#[test]
fn help_overlay_toggles_visibility() {
    let mut app = make_app(vec![target("a")]);
    assert!(!app.help_visible);
    dispatch(&mut app, key(KeyCode::Char('?')));
    assert!(app.help_visible);
    dispatch(&mut app, key(KeyCode::Char('?')));
    assert!(!app.help_visible);
}

#[test]
fn describe_overlay_populated_from_manager() {
    let mut mgr = FakeManager::default();
    let mut app = make_app(vec![target("alpha")]);
    drive(&mut app, &mut mgr, key(KeyCode::Char('D')));
    assert!(app.describe.as_deref().is_some_and(|s| s.contains("alpha")));
    drive(&mut app, &mut mgr, key(KeyCode::Esc));
    assert!(app.describe.is_none());
}

#[test]
fn wrap_and_zoom_toggle() {
    let mut app = make_app(vec![target("a")]);
    assert!(!app.wrap_logs);
    assert!(!app.zoom_logs);
    dispatch(&mut app, key(KeyCode::Char('w')));
    assert!(app.wrap_logs);
    assert_eq!(app.status_msg, "wrap on");
    dispatch(&mut app, key(KeyCode::Char('z')));
    assert!(app.zoom_logs);
    assert_eq!(app.status_msg, "zoom on");
}

#[test]
fn log_line_event_appends_to_buffer() {
    let mut app = make_app(vec![target("a")]);
    dispatch(&mut app, log("a", "hello"));
    let buf = app.logs.get("a").unwrap();
    assert_eq!(buf.lines.back().map(String::as_str), Some("hello"));
}

#[test]
fn slash_enters_search_mode_and_esc_exits() {
    let mut app = make_app(vec![target("a")]);
    assert!(!app.search_mode);
    dispatch(&mut app, key(KeyCode::Char('/')));
    assert!(app.search_mode);
    dispatch(&mut app, key(KeyCode::Esc));
    assert!(!app.search_mode);
    assert!(app.search_query.is_empty());
    assert!(app.search_matches.is_empty());
}

#[test]
fn typing_in_search_mode_updates_matches() {
    let mut app = make_app(vec![target("a")]);
    dispatch(&mut app, log("a", "hello world"));
    dispatch(&mut app, log("a", "another line"));
    dispatch(&mut app, log("a", "world peace"));
    dispatch(&mut app, key(KeyCode::Char('/')));
    for c in "world".chars() {
        dispatch(&mut app, key(KeyCode::Char(c)));
    }
    assert_eq!(app.search_query, "world");
    assert_eq!(app.search_matches, vec![0, 2]);
}

#[test]
fn search_is_case_insensitive() {
    let mut app = make_app(vec![target("a")]);
    dispatch(&mut app, log("a", "ERROR: boom"));
    dispatch(&mut app, log("a", "error: again"));
    dispatch(&mut app, key(KeyCode::Char('/')));
    for c in "Error".chars() {
        dispatch(&mut app, key(KeyCode::Char(c)));
    }
    assert_eq!(app.search_matches, vec![0, 1]);
}

#[test]
fn enter_cycles_to_next_match() {
    let mut app = make_app(vec![target("a")]);
    dispatch(&mut app, log("a", "one foo"));
    dispatch(&mut app, log("a", "two foo"));
    dispatch(&mut app, log("a", "three foo"));
    dispatch(&mut app, key(KeyCode::Char('/')));
    for c in "foo".chars() {
        dispatch(&mut app, key(KeyCode::Char(c)));
    }
    assert_eq!(app.search_match_idx, 0);
    dispatch(&mut app, key(KeyCode::Enter));
    assert_eq!(app.search_match_idx, 1);
    dispatch(&mut app, key(KeyCode::Enter));
    assert_eq!(app.search_match_idx, 2);
    dispatch(&mut app, key(KeyCode::Enter));
    assert_eq!(app.search_match_idx, 0);
}

#[test]
fn slash_in_search_mode_also_cycles() {
    let mut app = make_app(vec![target("a")]);
    dispatch(&mut app, log("a", "alpha"));
    dispatch(&mut app, log("a", "alpha again"));
    dispatch(&mut app, key(KeyCode::Char('/')));
    for c in "alpha".chars() {
        dispatch(&mut app, key(KeyCode::Char(c)));
    }
    dispatch(&mut app, key(KeyCode::Char('/')));
    assert_eq!(app.search_match_idx, 1);
}

#[test]
fn backspace_shrinks_query_and_re_searches() {
    let mut app = make_app(vec![target("a")]);
    dispatch(&mut app, log("a", "errno=2"));
    dispatch(&mut app, log("a", "err loading"));
    dispatch(&mut app, key(KeyCode::Char('/')));
    for c in "errn".chars() {
        dispatch(&mut app, key(KeyCode::Char(c)));
    }
    assert_eq!(app.search_matches, vec![0]);
    dispatch(&mut app, key(KeyCode::Backspace));
    assert_eq!(app.search_query, "err");
    assert_eq!(app.search_matches, vec![0, 1]);
}

#[test]
fn empty_query_clears_matches() {
    let mut app = make_app(vec![target("a")]);
    dispatch(&mut app, log("a", "hello"));
    dispatch(&mut app, key(KeyCode::Char('/')));
    dispatch(&mut app, key(KeyCode::Char('h')));
    assert_eq!(app.search_matches, vec![0]);
    dispatch(&mut app, key(KeyCode::Backspace));
    assert!(app.search_query.is_empty());
    assert!(app.search_matches.is_empty());
}

#[test]
fn switching_target_resets_search() {
    let mut app = make_app(vec![target("a"), target("b")]);
    dispatch(&mut app, log("a", "hello"));
    dispatch(&mut app, key(KeyCode::Char('/')));
    dispatch(&mut app, key(KeyCode::Char('h')));
    assert!(app.search_mode);
    dispatch(&mut app, key(KeyCode::Esc));
    dispatch(&mut app, key(KeyCode::Down));
    assert_eq!(app.selected, 1);
    dispatch(&mut app, key(KeyCode::Char('/')));
    dispatch(&mut app, key(KeyCode::Char('h')));
    assert!(app.search_matches.is_empty(), "no matches in target b");
}

#[test]
fn moving_selection_while_searching_resets_state() {
    let mut app = make_app(vec![target("a"), target("b")]);
    dispatch(&mut app, log("a", "hello a"));
    dispatch(&mut app, key(KeyCode::Char('/')));
    dispatch(&mut app, key(KeyCode::Char('h')));
    assert_eq!(app.search_matches, vec![0]);
    dispatch(&mut app, key(KeyCode::Esc));
    dispatch(&mut app, key(KeyCode::Down));
    dispatch(&mut app, key(KeyCode::Char('/')));
    dispatch(&mut app, key(KeyCode::Char('h')));
    assert!(app.search_matches.is_empty());
}

#[test]
fn live_log_line_extends_matches_when_search_active() {
    let mut app = make_app(vec![target("a")]);
    dispatch(&mut app, log("a", "first"));
    dispatch(&mut app, key(KeyCode::Char('/')));
    for c in "match".chars() {
        dispatch(&mut app, key(KeyCode::Char(c)));
    }
    assert!(app.search_matches.is_empty());
    dispatch(&mut app, log("a", "this is a MATCH"));
    assert_eq!(app.search_matches, vec![1]);
    dispatch(&mut app, log("a", "no hit here"));
    assert_eq!(app.search_matches, vec![1]);
    dispatch(&mut app, log("a", "another match line"));
    assert_eq!(app.search_matches, vec![1, 3]);
}

#[test]
fn down_arrow_skips_separator_before_virtual_target() {
    let mut app = make_app(vec![target("a"), target("b"), virtual_target("otel-errors")]);
    assert_eq!(app.rows.len(), 4);
    app.selected = 1;
    dispatch(&mut app, key(KeyCode::Down));
    assert_eq!(app.selected, 3, "Down from b should land on otel-errors");
    assert_eq!(app.selected_target_name().as_deref(), Some("otel-errors"));
}

#[test]
fn up_arrow_skips_separator_above_virtual_target() {
    let mut app = make_app(vec![target("a"), target("b"), virtual_target("otel-errors")]);
    app.selected = 3;
    dispatch(&mut app, key(KeyCode::Up));
    assert_eq!(app.selected, 1, "Up from otel-errors should land on b");
}

#[test]
fn ctrl_c_still_kills_during_search() {
    let mut app = make_app(vec![target("a")]);
    dispatch(&mut app, key(KeyCode::Char('/')));
    let cont = app.handle(ctrl('c')).cont;
    assert!(!cont.continue_loop);
    assert!(cont.stop_all);
}

#[test]
fn restart_all_clears_per_target_buffers() {
    let mut mgr = FakeManager::default();
    let mut app = make_app(vec![target("a"), target("b")]);
    drive(&mut app, &mut mgr, log("a", "before"));
    drive(&mut app, &mut mgr, key(KeyCode::Char('R')));
    assert!(app.logs.get("a").unwrap().lines.is_empty());
    assert_eq!(mgr.restarted, vec!["a", "b"]);
    assert_eq!(app.status_msg, "restarted 2 target(s), 0 error(s)");
}

#[test]
fn ctrl_c_kills_from_the_help_and_describe_overlays() {
    let mut mgr = FakeManager::default();
    let mut app = make_app(vec![target("a")]);
    drive(&mut app, &mut mgr, key(KeyCode::Char('?')));
    assert_eq!(drive(&mut app, &mut mgr, ctrl('c')), (false, true));
    let mut app = make_app(vec![target("a")]);
    drive(&mut app, &mut mgr, key(KeyCode::Char('D')));
    assert!(app.describe.is_some());
    assert_eq!(drive(&mut app, &mut mgr, ctrl('c')), (false, true));
    assert_eq!(drive(&mut app, &mut mgr, key(KeyCode::Char('q'))), (false, false));
}

#[test]
fn overlay_swallows_action_keys() {
    let mut mgr = FakeManager::default();
    let mut app = make_app(vec![target("a")]);
    drive(&mut app, &mut mgr, key(KeyCode::Char('?')));
    drive(&mut app, &mut mgr, key(KeyCode::Char('S')));
    assert!(mgr.started.is_empty());
    assert!(app.help_visible);
}

#[test]
fn failed_request_flashes_the_error() {
    let mut app = make_app(vec![target("alpha")]);
    let step = app.handle(key(KeyCode::Char('S')));
    let request = step.request.expect("a start request");
    app.handle(AppEvent::OpDone { request, outcome: Outcome::Failed("boom".into()) });
    assert_eq!(app.status_msg, "start alpha: boom");
    assert_eq!(app.status_msg_until_tick, 2);
    app.handle(AppEvent::Tick(StrMap::new()));
    assert_eq!(app.status_msg, "start alpha: boom");
    app.handle(AppEvent::Tick(StrMap::new()));
    assert!(app.status_msg.is_empty());
}

#[test]
fn empty_description_flashes_instead_of_opening() {
    let mut app = make_app(vec![target("alpha")]);
    let step = app.handle(key(KeyCode::Char('D')));
    let request = step.request.unwrap();
    app.handle(AppEvent::OpDone { request, outcome: Outcome::Done(String::new()) });
    assert!(app.describe.is_none());
    assert_eq!(app.status_msg, "no description for alpha");
}

#[test]
fn edit_without_source_file_flashes() {
    let mut app = make_app(vec![target("alpha")]);
    let step = app.handle(key(KeyCode::Char('E')));
    assert!(step.request.is_none());
    assert_eq!(app.status_msg, "no source file for this target");
    let mut t = target("beta");
    t.source_file = "/run/beta.yaml".into();
    let mut app = make_app(vec![t]);
    match app.handle(key(KeyCode::Char('E'))).request {
        Some(Request::Edit(src)) => assert_eq!(src, "/run/beta.yaml"),
        other => panic!("expected an edit request, got {other:?}"),
    }
}

#[test]
fn reload_relocates_the_selection_by_name() {
    // The selected row is read against the new list before the rows are
    // laid out again, so row 1 now names "b", and the selection follows
    // "b" to wherever its row lands.
    let mut app = make_app(vec![target("b"), target("c")]);
    app.selected = 1;
    app.handle(AppEvent::Reloaded { targets: vec![target("c"), target("a"), target("b")], otel_error: None });
    assert_eq!(app.selected_target_name().as_deref(), Some("a"));
    assert_eq!(app.status_msg, "reloaded run files");
    app.handle(AppEvent::Reloaded { targets: vec![target("a")], otel_error: Some("port busy".into()) });
    assert_eq!(app.selected, 0);
    assert_eq!(app.status_msg, "otel collector: port busy");
}

#[test]
fn scroll_log_moves_within_the_buffer() {
    let mut app = make_app(vec![target("a")]);
    for i in 0..5 {
        dispatch(&mut app, log("a", &format!("line {i}")));
    }
    app.handle(AppEvent::ScrollLog(3));
    assert_eq!(app.logs.get("a").unwrap().scroll, 3);
    app.handle(AppEvent::ScrollLog(10));
    assert_eq!(app.logs.get("a").unwrap().scroll, 5);
    app.handle(AppEvent::ScrollLog(-2));
    let buf = app.logs.get("a").unwrap();
    assert_eq!(buf.scroll, 3);
    assert!(!buf.at_bottom);
}

#[test]
fn backfill_seeds_each_buffer() {
    let mut app = make_app(vec![target("a"), target("b")]);
    let mut history: StrMap<Vec<String>> = StrMap::new();
    history.insert("a".into(), vec!["one".into(), "two".into()]);
    app.backfill_logs(&history);
    let a: Vec<&str> = app.logs.get("a").unwrap().lines.iter().map(|s| s.as_str()).collect();
    assert_eq!(a, vec!["one", "two"]);
    assert!(app.logs.get("b").unwrap().lines.is_empty());
}
