//! The TUI's state machine: targets, selection, per-target log buffers,
//! mode flags and the key map.
//!
//! The terminal, the process manager and the clock stay with the caller.
//! `App::handle` takes one event and answers whether the session goes on
//! and, where a key asks for it, which manager call to make; the caller
//! makes that call and hands its outcome back as an `AppEvent::OpDone`.

use vstd::prelude::*;

use crate::fmt::{lowercased, to_lower};
use crate::logbuf::{empty_buf, pushed, pushed_all, BufV, LogBuffer, TUI_RING};
use crate::rows::{compute, layout, row_views, Row, RowV};
use crate::state::Status;
use crate::strmap::StrMap;
use crate::target::RunTarget;
use crate::text::{chars_of, decimal_nat, push_str, str_eq, u64_to_string};

verus! {

/// A key, as the key map reads it.
#[derive(Debug, Clone, Copy)]
pub enum KeyCode {
    Char(char),
    Up,
    Down,
    Left,
    Right,
    Enter,
    Esc,
    Tab,
    Backspace,
    PageUp,
    PageDown,
    Other,
}

/// A key press: the key and whether Ctrl was held.
#[derive(Debug, Clone, Copy)]
pub struct KeyEvent {
    pub code: KeyCode,
    pub ctrl: bool,
}

/// Whether the event loop goes on, and whether the caller should stop
/// every target on the way out.
#[derive(Debug, Clone, Copy, PartialEq, Eq, Structural)]
pub struct Continuation {
    pub continue_loop: bool,
    pub stop_all: bool,
}

impl Continuation {
    pub fn cont() -> (c: Self)
        ensures
            c.continue_loop && !c.stop_all,
    {
        Continuation { continue_loop: true, stop_all: false }
    }

    pub fn detach() -> (c: Self)
        ensures
            !c.continue_loop && !c.stop_all,
    {
        Continuation { continue_loop: false, stop_all: false }
    }

    pub fn kill_all() -> (c: Self)
        ensures
            !c.continue_loop && c.stop_all,
    {
        Continuation { continue_loop: false, stop_all: true }
    }
}

/// A manager call that a key asks the caller to make.
#[derive(Debug)]
pub enum Request {
    Start(String),
    Stop(String),
    Restart(String),
    /// Restart each of these targets, in order.
    RestartAll(Vec<String>),
    /// Write the target's log to a file of the caller's choosing.
    Dump(String),
    Clear(String),
    Describe(String),
    /// Open this run file in the user's editor.
    Edit(String),
}

pub enum RequestV {
    Start(Seq<char>),
    Stop(Seq<char>),
    Restart(Seq<char>),
    RestartAll(Seq<Seq<char>>),
    Dump(Seq<char>),
    Clear(Seq<char>),
    Describe(Seq<char>),
    Edit(Seq<char>),
}

impl View for Request {
    type V = RequestV;

    open spec fn view(&self) -> RequestV {
        match self {
            Request::Start(n) => RequestV::Start(n@),
            Request::Stop(n) => RequestV::Stop(n@),
            Request::Restart(n) => RequestV::Restart(n@),
            Request::RestartAll(ns) => RequestV::RestartAll(ns@.map_values(|s: String| s@)),
            Request::Dump(n) => RequestV::Dump(n@),
            Request::Clear(n) => RequestV::Clear(n@),
            Request::Describe(n) => RequestV::Describe(n@),
            Request::Edit(n) => RequestV::Edit(n@),
        }
    }
}

/// What came of a request: it succeeded (with the dump's destination or
/// the description where the request yields one), it failed with a
/// message, or, for a restart of every target, how many succeeded and
/// how many failed.
#[derive(Debug)]
pub enum Outcome {
    Done(String),
    Failed(String),
    Tally(u64, u64),
}

/// One input to the state machine.
pub enum AppEvent {
    Key(KeyEvent),
    Resize(u16, u16),
    /// The once-a-second heartbeat, with the manager's current statuses.
    Tick(StrMap<Status>),
    /// One new log line for a target.
    LogLine { target: String, line: String },
    /// The run files were read again; `otel_error` is set when bringing up
    /// the collector failed.
    Reloaded { targets: Vec<RunTarget>, otel_error: Option<String> },
    /// Mouse wheel (positive = down, negative = up).
    ScrollLog(i32),
    /// The external editor exited.
    EditorDone,
    /// A request made earlier has finished.
    OpDone { request: Request, outcome: Outcome },
}

/// How a TUI session ended: whether the caller should stop every target.
#[derive(Debug, Clone, Copy)]
pub struct SessionOutcome {
    pub stop_all: bool,
}

/// What `handle` answers.
pub struct Step {
    pub cont: Continuation,
    pub request: Option<Request>,
}

/// The TUI's state.
pub struct App {
    pub targets: Vec<RunTarget>,
    pub run_dir: String,
    pub project_root: String,
    pub selected: usize,
    pub rows: Vec<Row>,
    pub folder_expanded: StrMap<bool>,
    /// Per-target log line buffer with viewport offset + at-bottom flag.
    pub logs: StrMap<LogBuffer>,
    pub statuses: StrMap<Status>,
    pub status_msg: String,
    pub status_msg_until_tick: u8,
    pub quitting: bool,
    pub stop_all: bool,
    pub wrap_logs: bool,
    pub zoom_logs: bool,
    pub help_visible: bool,
    pub describe: Option<String>,
    pub last_height: u16,
    pub search_mode: bool,
    pub search_query: String,
    /// Indices into the selected target's buffer of the lines that match.
    pub search_matches: Vec<usize>,
    pub search_match_idx: usize,
}

/// The state as the contracts see it.
pub struct AppV {
    pub targets: Seq<RunTarget>,
    pub run_dir: Seq<char>,
    pub project_root: Seq<char>,
    pub selected: int,
    pub rows: Seq<RowV>,
    pub expanded: Map<Seq<char>, bool>,
    pub logs: Map<Seq<char>, BufV>,
    pub statuses: Map<Seq<char>, Status>,
    pub status_msg: Seq<char>,
    pub msg_ticks: int,
    pub quitting: bool,
    pub stop_all: bool,
    pub wrap_logs: bool,
    pub zoom_logs: bool,
    pub help_visible: bool,
    pub describe: Option<Seq<char>>,
    pub last_height: int,
    pub search_mode: bool,
    pub query: Seq<char>,
    pub matches: Seq<int>,
    pub match_idx: int,
}

/// The buffers of a log map, as the contracts see them.
pub open spec fn bufs(m: Map<Seq<char>, LogBuffer>) -> Map<Seq<char>, BufV> {
    m.map_values(|b: LogBuffer| b@)
}

pub open spec fn opt_view(o: Option<String>) -> Option<Seq<char>> {
    match o {
        Some(s) => Some(s@),
        None => None,
    }
}

impl View for App {
    type V = AppV;

    open spec fn view(&self) -> AppV {
        AppV {
            targets: self.targets@,
            run_dir: self.run_dir@,
            project_root: self.project_root@,
            selected: self.selected as int,
            rows: row_views(self.rows@),
            expanded: self.folder_expanded@,
            logs: bufs(self.logs@),
            statuses: self.statuses@,
            status_msg: self.status_msg@,
            msg_ticks: self.status_msg_until_tick as int,
            quitting: self.quitting,
            stop_all: self.stop_all,
            wrap_logs: self.wrap_logs,
            zoom_logs: self.zoom_logs,
            help_visible: self.help_visible,
            describe: opt_view(self.describe),
            last_height: self.last_height as int,
            search_mode: self.search_mode,
            query: self.search_query@,
            matches: self.search_matches@.map_values(|i: usize| i as int),
            match_idx: self.search_match_idx as int,
        }
    }
}

/// The buffer for `name`, or an empty one.
pub open spec fn buf_or_empty(logs: Map<Seq<char>, BufV>, name: Seq<char>) -> BufV {
    if logs.contains_key(name) {
        logs[name]
    } else {
        empty_buf()
    }
}

/// The target shown on row `i`, if that row is a target row.
pub open spec fn target_at(ts: Seq<RunTarget>, rows: Seq<RowV>, i: int) -> Option<int> {
    if 0 <= i < rows.len() {
        match rows[i] {
            RowV::Target(idx, _) => if idx < ts.len() {
                Some(idx as int)
            } else {
                None
            },
            _ => None,
        }
    } else {
        None
    }
}

/// The name of the target shown on row `i`.
pub open spec fn name_at(ts: Seq<RunTarget>, rows: Seq<RowV>, i: int) -> Option<Seq<char>> {
    match target_at(ts, rows, i) {
        Some(idx) => Some(ts[idx].name@),
        None => None,
    }
}

pub open spec fn selected_name(a: AppV) -> Option<Seq<char>> {
    name_at(a.targets, a.rows, a.selected)
}

/// The first of the rows below `n` that shows a target called `name`.
pub open spec fn first_named(ts: Seq<RunTarget>, rows: Seq<RowV>, name: Seq<char>, n: int) -> Option<
    int,
>
    decreases n,
{
    if n <= 0 {
        None
    } else {
        match first_named(ts, rows, name, n - 1) {
            Some(i) => Some(i),
            None => if name_at(ts, rows, n - 1) == Some(name) {
                Some(n - 1)
            } else {
                None
            },
        }
    }
}

/// `sel`, pulled back onto the last row when it is past the end.
pub open spec fn clamp_sel(sel: int, len: int) -> int {
    if sel >= len {
        if len <= 0 {
            0
        } else {
            len - 1
        }
    } else {
        sel
    }
}

/// The rows laid out again; the selection stays on the same target where
/// it can, and is otherwise kept within the rows.
pub open spec fn rebuilt(a: AppV) -> AppV {
    let rows = layout(a.targets, a.expanded);
    let sel = match selected_name(a) {
        Some(n) => match first_named(a.targets, rows, n, rows.len() as int) {
            Some(i) => i,
            None => clamp_sel(a.selected, rows.len() as int),
        },
        None => clamp_sel(a.selected, rows.len() as int),
    };
    AppV { rows, selected: sel, ..a }
}

/// A message shown for two ticks.
pub open spec fn flashed(a: AppV, msg: Seq<char>) -> AppV {
    AppV { status_msg: msg, msg_ticks: 2, ..a }
}

/// An empty buffer for every target.
pub open spec fn fresh_logs(ts: Seq<RunTarget>) -> Map<Seq<char>, BufV>
    decreases ts.len(),
{
    if ts.len() == 0 {
        Map::empty()
    } else {
        fresh_logs(ts.drop_last()).insert(ts.last().name@, empty_buf())
    }
}

/// The state a session starts in.
pub open spec fn initial(
    ts: Seq<RunTarget>,
    statuses: Map<Seq<char>, Status>,
    run_dir: Seq<char>,
    project_root: Seq<char>,
) -> AppV {
    AppV {
        targets: ts,
        run_dir,
        project_root,
        selected: 0,
        rows: layout(ts, Map::empty()),
        expanded: Map::empty(),
        logs: fresh_logs(ts),
        statuses,
        status_msg: Seq::empty(),
        msg_ticks: 0,
        quitting: false,
        stop_all: false,
        wrap_logs: false,
        zoom_logs: false,
        help_visible: false,
        describe: None,
        last_height: 24,
        search_mode: false,
        query: Seq::empty(),
        matches: Seq::empty(),
        match_idx: 0,
    }
}

/// The history of each target appended to its buffer, target by target.
pub open spec fn backfilled(
    logs: Map<Seq<char>, BufV>,
    ts: Seq<RunTarget>,
    history: Map<Seq<char>, Vec<String>>,
) -> Map<Seq<char>, BufV>
    decreases ts.len(),
{
    if ts.len() == 0 {
        logs
    } else {
        let prev = backfilled(logs, ts.drop_last(), history);
        let n = ts.last().name@;
        let lines = if history.contains_key(n) {
            history[n]@.map_values(|s: String| s@)
        } else {
            Seq::empty()
        };
        prev.insert(n, pushed_all(buf_or_empty(prev, n), lines))
    }
}

/// The selected target's viewport moved by `delta` lines (positive =
/// toward the newest line, capped at the buffer's length; negative = back,
/// stopping at 0 and unpinning the viewport from the tail).
pub open spec fn scrolled(a: AppV, delta: int) -> AppV {
    match selected_name(a) {
        None => a,
        Some(n) => {
            let b = buf_or_empty(a.logs, n);
            let nb = if delta > 0 {
                BufV {
                    scroll: if b.scroll + delta > b.lines.len() {
                        b.lines.len()
                    } else {
                        (b.scroll + delta) as nat
                    },
                    ..b
                }
            } else {
                BufV {
                    scroll: if b.scroll + delta >= 0 {
                        (b.scroll + delta) as nat
                    } else {
                        0
                    },
                    at_bottom: false,
                    ..b
                }
            };
            AppV { logs: a.logs.insert(n, nb), ..a }
        },
    }
}

/// Takes the buffer for `name` out of `logs` (an empty one when there is
/// none), leaving an empty buffer in its place; the position, when there
/// is one, is where `put_buf` puts the buffer back.
fn take_buf(logs: &mut StrMap<LogBuffer>, name: &str) -> (r: (LogBuffer, Option<usize>))
    ensures
        r.0@ == buf_or_empty(bufs(old(logs)@), name@),
        match r.1 {
            Some(i) => i < final(logs).entries_view().len() && final(logs).entries_view()[i as int].0
                == name@ && bufs(final(logs)@) == bufs(old(logs)@).insert(name@, empty_buf())
                && old(logs)@.contains_key(name@),
            None => final(logs)@ == old(logs)@ && !old(logs)@.contains_key(name@),
        },
{
    proof {
        use_type_invariant(&*logs);
        logs.lemma_entries();
    }
    match logs.find(name) {
        Some(i) => {
            let ghost k = logs.entries_view()[i as int].0;
            let b = logs.swap_value_at(i, LogBuffer::default());
            proof {
                assert(bufs(logs@) =~= bufs(old(logs)@).insert(name@, empty_buf()));
            }
            (b, Some(i))
        },
        None => (LogBuffer::default(), None),
    }
}

/// Puts `b` in as the buffer for `name`.
fn put_buf(logs: &mut StrMap<LogBuffer>, pos: Option<usize>, name: &str, b: LogBuffer)
    requires
        match pos {
            Some(i) => i < old(logs).entries_view().len() && old(logs).entries_view()[i as int].0
                == name@,
            None => true,
        },
    ensures
        bufs(final(logs)@) == bufs(old(logs)@).insert(name@, b@),
{
    let ghost bv = b@;
    match pos {
        Some(i) => {
            logs.set_value_at(i, b);
        },
        None => {
            logs.insert(name.to_owned(), b);
        },
    }
    proof {
        assert(bufs(logs@) =~= bufs(old(logs)@).insert(name@, bv));
    }
}

/// `a` followed by `b`.
fn join2(a: &str, b: &str) -> (r: String)
    ensures
        r@ == a@ + b@,
{
    let mut s = String::new();
    push_str(&mut s, a);
    push_str(&mut s, b);
    proof {
        assert(Seq::<char>::empty() + a@ + b@ =~= a@ + b@);
    }
    s
}

/// `a`, `b` and `c` in a row.
fn join3(a: &str, b: &str, c: &str) -> (r: String)
    ensures
        r@ == a@ + b@ + c@,
{
    let mut s = join2(a, b);
    push_str(&mut s, c);
    s
}

impl App {
    pub fn new(
        targets: Vec<RunTarget>,
        statuses: StrMap<Status>,
        run_dir: String,
        project_root: String,
    ) -> (app: App)
        ensures
            app@ == initial(targets@, statuses@, run_dir@, project_root@),
    {
        let folder_expanded: StrMap<bool> = StrMap::new();
        let rows = compute(targets.as_slice(), &folder_expanded);
        let mut logs: StrMap<LogBuffer> = StrMap::new();
        let mut i: usize = 0;
        proof {
            assert(bufs(logs@) =~= fresh_logs(targets@.take(0)));
        }
        while i < targets.len()
            invariant
                i <= targets.len(),
                bufs(logs@) == fresh_logs(targets@.take(i as int)),
            decreases targets.len() - i,
        {
            let ghost before = logs@;
            logs.insert(targets[i].name.clone(), LogBuffer::default());
            proof {
                let t = targets@.take(i as int + 1);
                assert(t.drop_last() =~= targets@.take(i as int));
                assert(bufs(logs@) =~= bufs(before).insert(targets@[i as int].name@, empty_buf()));
            }
            i = i + 1;
        }
        proof {
            assert(targets@.take(targets.len() as int) =~= targets@);
        }
        let app = App {
            targets,
            run_dir,
            project_root,
            selected: 0,
            rows,
            folder_expanded,
            logs,
            statuses,
            status_msg: String::new(),
            status_msg_until_tick: 0,
            quitting: false,
            stop_all: false,
            wrap_logs: false,
            zoom_logs: false,
            help_visible: false,
            describe: None,
            last_height: 24,
            search_mode: false,
            search_query: String::new(),
            search_matches: Vec::new(),
            search_match_idx: 0,
        };
        proof {
            assert(app@.matches =~= Seq::<int>::empty());
        }
        app
    }

    /// Seeds each target's buffer with `history`, the lines the manager
    /// already holds for it, so the log pane isn't empty on first paint.
    pub fn backfill_logs(&mut self, history: &StrMap<Vec<String>>)
        ensures
            final(self)@ == (AppV {
                logs: backfilled(old(self)@.logs, old(self)@.targets, history@),
                ..old(self)@
            }),
    {
        let ghost start = old(self)@.logs;
        let mut i: usize = 0;
        while i < self.targets.len()
            invariant
                i <= self.targets.len(),
                self.targets@ == old(self).targets@,
                self@ == (AppV { logs: backfilled(start, self.targets@.take(i as int), history@), ..old(self)@ }),
            decreases self.targets.len() - i,
        {
            let name = self.targets[i].name.clone();
            let (mut buf, pos) = take_buf(&mut self.logs, name.as_str());
            let ghost b0 = buf@;
            let ghost lines: Seq<Seq<char>> = if history@.contains_key(name@) {
                history@[name@]@.map_values(|s: String| s@)
            } else {
                Seq::empty()
            };
            match history.get(name.as_str()) {
                Some(hist) => {
                    let mut j: usize = 0;
                    while j < hist.len()
                        invariant
                            j <= hist.len(),
                            lines == hist@.map_values(|s: String| s@),
                            buf@ == pushed_all(b0, lines.take(j as int)),
                        decreases hist.len() - j,
                    {
                        proof {
                            assert(lines.take(j as int + 1).drop_last() =~= lines.take(j as int));
                        }
                        buf.push(hist[j].clone());
                        j = j + 1;
                    }
                    proof {
                        assert(lines.take(hist.len() as int) =~= lines);
                    }
                },
                None => {
                    proof {
                        assert(lines =~= Seq::<Seq<char>>::empty());
                    }
                },
            }
            put_buf(&mut self.logs, pos, name.as_str(), buf);
            proof {
                let t = self.targets@.take(i as int + 1);
                assert(t.drop_last() =~= self.targets@.take(i as int));
                assert(t.last() == self.targets@[i as int]);
                assert(name@ == t.last().name@);
                assert(bufs(self.logs@) == backfilled(start, t, history@));
            }
            i = i + 1;
        }
        proof {
            assert(self.targets@.take(self.targets.len() as int) =~= self.targets@);
        }
    }

    /// The name of the target on the selected row, if that row is a target.
    pub fn selected_target_name(&self) -> (r: Option<String>)
        ensures
            opt_view(r) == selected_name(self@),
    {
        match self.selected_target() {
            Some(t) => Some(t.name.clone()),
            None => None,
        }
    }

    /// The target on the selected row, if that row is a target.
    pub fn selected_target(&self) -> (r: Option<&RunTarget>)
        ensures
            match target_at(self@.targets, self@.rows, self@.selected) {
                Some(idx) => r == Some(&self@.targets[idx]),
                None => r is None,
            },
    {
        if self.selected < self.rows.len() {
            match &self.rows[self.selected] {
                Row::Target { target_idx, .. } => {
                    if *target_idx < self.targets.len() {
                        Some(&self.targets[*target_idx])
                    } else {
                        None
                    }
                },
                _ => None,
            }
        } else {
            None
        }
    }

    /// Lays the rows out again for the current targets and folders,
    /// keeping the selection on the same target where it can.
    pub fn rebuild_rows(&mut self)
        ensures
            final(self)@ == rebuilt(old(self)@),
    {
        let new_rows = compute(self.targets.as_slice(), &self.folder_expanded);
        let prev = self.selected_target_name();
        self.rows = new_rows;
        let ghost ts = self.targets@;
        let ghost rows = row_views(self.rows@);
        if let Some(name) = prev {
            let mut i: usize = 0;
            while i < self.rows.len()
                invariant
                    i <= self.rows.len(),
                    ts == self.targets@,
                    rows == row_views(self.rows@),
                    self@ == (AppV { rows, ..old(self)@ }),
                    first_named(ts, rows, name@, i as int) is None,
                    selected_name(old(self)@) == Some(name@),
                    rows == layout(old(self)@.targets, old(self)@.expanded),
                decreases self.rows.len() - i,
            {
                let hit = match &self.rows[i] {
                    Row::Target { target_idx, .. } => *target_idx < self.targets.len() && str_eq(
                        self.targets[*target_idx].name.as_str(),
                        name.as_str(),
                    ),
                    _ => false,
                };
                proof {
                    assert(rows[i as int] == self.rows@[i as int]@);
                }
                if hit {
                    self.selected = i;
                    proof {
                        assert(name_at(ts, rows, i as int) == Some(name@));
                        assert(first_named(ts, rows, name@, i as int + 1) == Some(i as int));
                        lemma_first_named_stable(ts, rows, name@, i as int + 1, rows.len() as int);
                        assert(self@.matches == rebuilt(old(self)@).matches);
                        assert(self@.describe == rebuilt(old(self)@).describe);
                    }
                    return;
                }
                i = i + 1;
            }
        }
        if self.selected >= self.rows.len() {
            self.selected = if self.rows.len() == 0 {
                0
            } else {
                self.rows.len() - 1
            };
        }
    }

    /// Shows `msg` in the status line for two ticks.
    pub fn flash(&mut self, msg: &str)
        ensures
            final(self)@ == flashed(old(self)@, msg@),
    {
        self.status_msg = msg.to_owned();
        self.status_msg_until_tick = 2;
    }

    /// Moves the selected target's viewport by `delta` lines.
    pub fn scroll_log(&mut self, delta: i32)
        requires
            delta > i32::MIN,
        ensures
            final(self)@ == scrolled(old(self)@, delta as int),
    {
        let name = match self.selected_target_name() {
            Some(n) => n,
            None => return ,
        };
        let (mut buf, pos) = take_buf(&mut self.logs, name.as_str());
        if delta > 0 {
            let max = buf.lines.len();
            let d = delta as usize;
            if buf.scroll >= max || d >= max - buf.scroll {
                buf.scroll = max;
            } else {
                buf.scroll = buf.scroll + d;
            }
        } else {
            let amt = (-delta) as usize;
            buf.scroll = if buf.scroll >= amt {
                buf.scroll - amt
            } else {
                0
            };
            buf.at_bottom = false;
        }
        let ghost nb = buf@;
        put_buf(&mut self.logs, pos, name.as_str(), buf);
        proof {
            let a = old(self)@;
            let b = buf_or_empty(a.logs, name@);
            assert(selected_name(a) == Some(name@));
            if delta > 0 {
                assert(nb == BufV {
                    scroll: if b.scroll + delta > b.lines.len() {
                        b.lines.len()
                    } else {
                        (b.scroll + delta) as nat
                    },
                    ..b
                });
            } else {
                assert(nb == BufV {
                    scroll: if b.scroll + delta >= 0 {
                        (b.scroll + delta) as nat
                    } else {
                        0
                    },
                    at_bottom: false,
                    ..b
                });
            }
            assert(self@.logs == scrolled(a, delta as int).logs);
            assert(self@.selected == scrolled(a, delta as int).selected);
            assert(self@.matches == scrolled(a, delta as int).matches);
            assert(self@.describe == scrolled(a, delta as int).describe);
        }
    }
}

/// Once a row called `name` is found below `k`, rows further down do not
/// change which one is first.
proof fn lemma_first_named_stable(ts: Seq<RunTarget>, rows: Seq<RowV>, name: Seq<char>, k: int, n: int)
    requires
        k <= n,
        first_named(ts, rows, name, k) is Some,
    ensures
        first_named(ts, rows, name, n) == first_named(ts, rows, name, k),
    decreases n - k,
{
    if k < n {
        lemma_first_named_stable(ts, rows, name, k, n - 1);
    }
}


/// Where a one-row step (`delta` is 1 or -1) from `sel` lands: the next row
/// in that direction, held at the ends, and stepping over the separator;
/// when there is no row past the separator the selection stays put.
pub open spec fn moved_to(rows: Seq<RowV>, sel: int, delta: int) -> int {
    if rows.len() == 0 {
        sel
    } else {
        let c = if sel + delta < 0 {
            0
        } else if sel + delta > rows.len() - 1 {
            rows.len() - 1
        } else {
            sel + delta
        };
        if rows[c] is Separator {
            let c2 = c + delta;
            if 0 <= c2 < rows.len() && !(rows[c2] is Separator) {
                c2
            } else {
                sel
            }
        } else {
            c
        }
    }
}

/// Search switched off, its query and matches dropped.
pub open spec fn search_reset(a: AppV) -> AppV {
    AppV { search_mode: false, query: Seq::empty(), matches: Seq::empty(), match_idx: 0, ..a }
}

/// The selection moved one row; a search in progress ends when the
/// selection changes, since its matches belong to the old target.
pub open spec fn after_move(a: AppV, delta: int) -> AppV {
    let n = moved_to(a.rows, a.selected, delta);
    if n != a.selected {
        let b = if a.search_mode {
            search_reset(a)
        } else {
            a
        };
        AppV { selected: n, ..b }
    } else {
        a
    }
}

/// The folder on the selected row and whether it is open.
pub open spec fn folder_at(a: AppV) -> Option<(Seq<char>, bool)> {
    if 0 <= a.selected < a.rows.len() {
        match a.rows[a.selected] {
            RowV::Folder(g, e, _) => Some((g, e)),
            _ => None,
        }
    } else {
        None
    }
}

/// Folder `g` set open or closed, and the rows laid out again.
pub open spec fn with_folder(a: AppV, g: Seq<char>, open: bool) -> AppV {
    rebuilt(AppV { expanded: a.expanded.insert(g, open), ..a })
}

/// The selected folder opened.
pub open spec fn folder_opened(a: AppV) -> AppV {
    match folder_at(a) {
        Some((g, _)) => with_folder(a, g, true),
        None => a,
    }
}

/// The selected folder flipped.
pub open spec fn folder_toggled(a: AppV) -> AppV {
    match folder_at(a) {
        Some((g, e)) => with_folder(a, g, !e),
        None => a,
    }
}

/// The first folder header for `g` among the rows below `n`.
pub open spec fn first_folder(rows: Seq<RowV>, g: Seq<char>, n: int) -> Option<int>
    decreases n,
{
    if n <= 0 {
        None
    } else {
        match first_folder(rows, g, n - 1) {
            Some(i) => Some(i),
            None => if rows[n - 1] matches RowV::Folder(h, _, _) && h == g {
                Some(n - 1)
            } else {
                None
            },
        }
    }
}

/// The selected folder closed; on a target inside a folder, that folder
/// closes and the selection moves up to its header.
pub open spec fn folder_closed(a: AppV) -> AppV {
    if 0 <= a.selected < a.rows.len() {
        match a.rows[a.selected] {
            RowV::Folder(g, _, _) => with_folder(a, g, false),
            RowV::Target(_, g) => if g.len() > 0 {
                let b = with_folder(a, g, false);
                match first_folder(b.rows, g, b.rows.len() as int) {
                    Some(i) => AppV { selected: i, ..b },
                    None => b,
                }
            } else {
                a
            },
            RowV::Separator => a,
        }
    } else {
        a
    }
}

/// Selection changes never land on the separator.
pub proof fn lemma_move_avoids_separator(a: AppV, delta: int)
    requires
        delta == 1 || delta == -1,
    ensures
        after_move(a, delta).selected != a.selected ==> {
            let n = after_move(a, delta).selected;
            &&& 0 <= n < a.rows.len()
            &&& !(a.rows[n] is Separator)
        },
{
}

impl App {
    fn move_selection(&mut self, delta: i32)
        requires
            delta == 1 || delta == -1,
        ensures
            final(self)@ == after_move(old(self)@, delta as int),
    {
        let len = self.rows.len();
        if len == 0 {
            return ;
        }
        let c: usize = if delta < 0 {
            if self.selected == 0 {
                0
            } else if self.selected - 1 > len - 1 {
                len - 1
            } else {
                self.selected - 1
            }
        } else {
            if self.selected >= len - 1 {
                len - 1
            } else {
                self.selected + 1
            }
        };
        proof {
            assert(self@.rows[c as int] == self.rows@[c as int]@);
        }
        let new: usize = match &self.rows[c] {
            Row::Separator => {
                if delta < 0 {
                    if c >= 1 && !matches!(self.rows[c - 1], Row::Separator) {
                        proof {
                            assert(self@.rows[c - 1] == self.rows@[c - 1]@);
                        }
                        c - 1
                    } else {
                        self.selected
                    }
                } else {
                    if c + 1 < len && !matches!(self.rows[c + 1], Row::Separator) {
                        proof {
                            assert(self@.rows[c + 1] == self.rows@[c + 1]@);
                        }
                        c + 1
                    } else {
                        self.selected
                    }
                }
            },
            _ => c,
        };
        if new != self.selected {
            if self.search_mode {
                self.reset_search();
            }
            self.selected = new;
        }
        proof {
            assert(self@.matches == after_move(old(self)@, delta as int).matches);
            assert(self@.describe == after_move(old(self)@, delta as int).describe);
        }
    }

    /// Leaves search mode, dropping the query and its matches.
    pub fn reset_search(&mut self)
        ensures
            final(self)@ == search_reset(old(self)@),
    {
        self.search_mode = false;
        self.search_query = String::new();
        self.search_matches = Vec::new();
        self.search_match_idx = 0;
        proof {
            assert(self@.matches =~= Seq::<int>::empty());
            assert(self@.describe == search_reset(old(self)@).describe);
        }
    }

    fn set_folder(&mut self, g: String, open: bool)
        ensures
            final(self)@ == with_folder(old(self)@, g@, open),
    {
        self.folder_expanded.insert(g, open);
        self.rebuild_rows();
    }

    fn selected_folder(&self) -> (r: Option<(String, bool)>)
        ensures
            match r {
                Some((g, e)) => folder_at(self@) == Some((g@, e)),
                None => folder_at(self@) is None,
            },
    {
        if self.selected < self.rows.len() {
            proof {
                assert(self@.rows[self.selected as int] == self.rows@[self.selected as int]@);
            }
            match &self.rows[self.selected] {
                Row::Folder { group, expanded, .. } => Some((group.clone(), *expanded)),
                _ => None,
            }
        } else {
            None
        }
    }

    fn expand_folder(&mut self)
        ensures
            final(self)@ == folder_opened(old(self)@),
    {
        if let Some((g, _)) = self.selected_folder() {
            self.set_folder(g, true);
        }
    }

    fn toggle_folder(&mut self)
        ensures
            final(self)@ == folder_toggled(old(self)@),
    {
        if let Some((g, e)) = self.selected_folder() {
            self.set_folder(g, !e);
        }
    }

    fn collapse_folder(&mut self)
        ensures
            final(self)@ == folder_closed(old(self)@),
    {
        if self.selected >= self.rows.len() {
            return ;
        }
        proof {
            assert(self@.rows[self.selected as int] == self.rows@[self.selected as int]@);
        }
        let (g, on_target) = match &self.rows[self.selected] {
            Row::Folder { group, .. } => (group.clone(), false),
            Row::Target { group, .. } => (group.clone(), true),
            Row::Separator => {
                return ;
            },
        };
        if on_target && g.as_str().is_empty() {
            return ;
        }
        let ghost gv = g@;
        let g2 = g.clone();
        self.set_folder(g, false);
        if on_target {
            let ghost b = self@;
            let mut i: usize = 0;
            while i < self.rows.len()
                invariant
                    i <= self.rows.len(),
                    self@ == b,
                    g2@ == gv,
                    first_folder(b.rows, gv, i as int) is None,
                    b == with_folder(old(self)@, gv, false),
                    gv.len() > 0,
                    0 <= old(self)@.selected < old(self)@.rows.len(),
                    old(self)@.rows[old(self)@.selected] matches RowV::Target(_, h) && h == gv,
                decreases self.rows.len() - i,
            {
                proof {
                    assert(b.rows[i as int] == self.rows@[i as int]@);
                }
                let hit = match &self.rows[i] {
                    Row::Folder { group, .. } => str_eq(group.as_str(), g2.as_str()),
                    _ => false,
                };
                if hit {
                    self.selected = i;
                    proof {
                        assert(first_folder(b.rows, gv, i as int + 1) == Some(i as int));
                        lemma_first_folder_stable(b.rows, gv, i as int + 1, b.rows.len() as int);
                        assert(self@.matches == b.matches);
                        assert(self@.describe == b.describe);
                    }
                    return ;
                }
                i = i + 1;
            }
        }
    }
}

proof fn lemma_first_folder_stable(rows: Seq<RowV>, g: Seq<char>, k: int, n: int)
    requires
        k <= n,
        first_folder(rows, g, k) is Some,
    ensures
        first_folder(rows, g, n) == first_folder(rows, g, k),
    decreases n - k,
{
    if k < n {
        lemma_first_folder_stable(rows, g, k, n - 1);
    }
}


/// Whether `n` occurs in `h`.
pub open spec fn contains_sub(h: Seq<char>, n: Seq<char>) -> bool {
    exists|i: int| 0 <= i && i + n.len() <= h.len() && #[trigger] h.subrange(i, i + n.len()) == n
}

/// A line matches a query when the query occurs in it, ignoring case.
pub open spec fn line_matches(line: Seq<char>, q: Seq<char>) -> bool {
    contains_sub(lowercased(line), lowercased(q))
}

/// The positions of the lines that match `q`, in order.
pub open spec fn match_list(lines: Seq<Seq<char>>, q: Seq<char>) -> Seq<int>
    decreases lines.len(),
{
    if lines.len() == 0 {
        Seq::empty()
    } else {
        let p = match_list(lines.drop_last(), q);
        if line_matches(lines.last(), q) {
            p.push(lines.len() - 1)
        } else {
            p
        }
    }
}

/// The selected target's buffered lines.
pub open spec fn sel_lines(a: AppV) -> Seq<Seq<char>> {
    match selected_name(a) {
        Some(n) => if a.logs.contains_key(n) {
            a.logs[n].lines
        } else {
            Seq::empty()
        },
        None => Seq::empty(),
    }
}

/// The matches recomputed for the current query (none for an empty
/// query), starting again from the first.
pub open spec fn searched(a: AppV) -> AppV {
    AppV {
        matches: if a.query.len() == 0 {
            Seq::empty()
        } else {
            match_list(sel_lines(a), a.query)
        },
        match_idx: 0,
        ..a
    }
}

/// The selected target's viewport moved so the current match is the
/// bottom line on screen.
pub open spec fn jumped(a: AppV) -> AppV {
    if 0 <= a.match_idx < a.matches.len() {
        match selected_name(a) {
            Some(n) => if a.logs.contains_key(n) {
                let b = a.logs[n];
                let m = a.matches[a.match_idx];
                let scroll = if b.lines.len() - 1 - m >= 0 {
                    (b.lines.len() - 1 - m) as nat
                } else {
                    0
                };
                AppV { logs: a.logs.insert(n, BufV { scroll, at_bottom: false, ..b }), ..a }
            } else {
                a
            },
            None => a,
        }
    } else {
        a
    }
}

/// The next match, wrapping around to the first.
pub open spec fn next_match(a: AppV) -> AppV {
    if a.matches.len() == 0 {
        a
    } else {
        jumped(AppV { match_idx: (a.match_idx + 1) % (a.matches.len() as int), ..a })
    }
}

/// The query changed: matches recomputed, and the view moved to the first
/// one if there is one.
pub open spec fn requeried(a: AppV, q: Seq<char>) -> AppV {
    let s = searched(AppV { query: q, ..a });
    if s.matches.len() > 0 {
        jumped(s)
    } else {
        s
    }
}

/// A new line for `target`: appended to its buffer; while a search on
/// that target is active, a matching line joins the matches (all matches
/// are recomputed when the buffer dropped its oldest line).
pub open spec fn logged(a: AppV, target: Seq<char>, line: Seq<char>) -> AppV {
    let ob = buf_or_empty(a.logs, target);
    let nb = pushed(ob, line);
    let b = AppV { logs: a.logs.insert(target, nb), ..a };
    if a.search_mode && a.query.len() > 0 && selected_name(a) == Some(target) {
        if ob.lines.len() + 1 > TUI_RING {
            let ms = match_list(nb.lines, a.query);
            AppV {
                matches: ms,
                match_idx: if a.match_idx < ms.len() {
                    a.match_idx
                } else {
                    0
                },
                ..b
            }
        } else if line_matches(line, a.query) {
            AppV { matches: a.matches.push(ob.lines.len() as int), ..b }
        } else {
            b
        }
    } else {
        b
    }
}

/// Whether `n` occurs in `h`.
fn contains_chars(h: &Vec<char>, n: &Vec<char>) -> (r: bool)
    ensures
        r == contains_sub(h@, n@),
{
    if n.len() > h.len() {
        return false;
    }
    let last = h.len() - n.len();
    let mut i: usize = 0;
    while i <= last
        invariant
            last == h.len() - n.len(),
            n.len() <= h.len(),
            i <= last + 1,
            forall|j: int| 0 <= j < i ==> #[trigger] h@.subrange(j, j + n.len()) != n@,
        decreases last + 1 - i,
    {
        let mut k: usize = 0;
        let mut same = true;
        while k < n.len()
            invariant
                k <= n.len(),
                i + n.len() <= h.len(),
                same == forall|m: int| 0 <= m < k ==> h@[i + m] == n@[m],
            decreases n.len() - k,
        {
            if h[i + k] != n[k] {
                same = false;
            }
            k = k + 1;
        }
        if same {
            proof {
                assert(h@.subrange(i as int, i + n.len()) =~= n@);
            }
            return true;
        }
        proof {
            let m = choose|m: int| 0 <= m < n.len() && h@[i + m] != n@[m];
            assert(h@.subrange(i as int, i + n.len())[m] != n@[m]);
        }
        i = i + 1;
    }
    false
}

impl App {
    /// Recomputes the matches for the current query against the selected
    /// target's buffer.
    pub fn update_search_matches(&mut self)
        ensures
            final(self)@ == searched(old(self)@),
    {
        self.search_matches = Vec::new();
        self.search_match_idx = 0;
        let ghost a = old(self)@;
        if self.search_query.as_str().is_empty() {
            proof {
                assert(self@.matches =~= searched(a).matches);
                assert(self@.describe == searched(a).describe);
            }
            return ;
        }
        let name = self.selected_target_name();
        let ghost lines = sel_lines(a);
        let mut found: Vec<usize> = Vec::new();
        match name {
            Some(n) => {
                match self.logs.get(n.as_str()) {
                    Some(buf) => {
                        found = find_matches(buf, &self.search_query);
                    },
                    None => {
                        proof {
                            assert(found@.map_values(|x: usize| x as int) =~= match_list(lines, a.query));
                        }
                    },
                }
            },
            None => {
                proof {
                    assert(found@.map_values(|x: usize| x as int) =~= match_list(lines, a.query));
                }
            },
        }
        self.search_matches = found;
        proof {
            assert(self@.matches == searched(a).matches);
            assert(self@.describe == searched(a).describe);
        }
    }

    /// Moves the selected target's viewport to the current match.
    pub fn jump_to_current_match(&mut self)
        ensures
            final(self)@ == jumped(old(self)@),
    {
        if self.search_match_idx >= self.search_matches.len() {
            return ;
        }
        let m = self.search_matches[self.search_match_idx];
        let name = match self.selected_target_name() {
            Some(n) => n,
            None => return ,
        };
        let (mut buf, pos) = take_buf(&mut self.logs, name.as_str());
        match pos {
            Some(_) => {
                let total = buf.lines.len();
                buf.scroll = if total >= 1 && total - 1 >= m {
                    total - 1 - m
                } else {
                    0
                };
                buf.at_bottom = false;
                let ghost nb = buf@;
                put_buf(&mut self.logs, pos, name.as_str(), buf);
                proof {
                    let a = old(self)@;
                    let b = a.logs[name@];
                    assert(selected_name(a) == Some(name@));
                    assert(a.logs.contains_key(name@));
                    assert(m as int == a.matches[a.match_idx]);
                    assert(nb == BufV {
                        scroll: if b.lines.len() - 1 - m >= 0 {
                            (b.lines.len() - 1 - m) as nat
                        } else {
                            0
                        },
                        at_bottom: false,
                        ..b
                    });
                    assert(self@.logs =~= jumped(a).logs);
                }
            },
            None => {},
        }
        proof {
            assert(self@.logs == jumped(old(self)@).logs);
            assert(self@.matches == jumped(old(self)@).matches);
            assert(self@.describe == jumped(old(self)@).describe);
        }
    }

    /// Steps to the next match, wrapping around.
    pub fn next_search_match(&mut self)
        ensures
            final(self)@ == next_match(old(self)@),
    {
        if self.search_matches.len() == 0 {
            return ;
        }
        let len = self.search_matches.len();
        let ghost a = old(self)@;
        self.search_match_idx = (self.search_match_idx % len + 1) % len;
        proof {
            vstd::arithmetic::div_mod::lemma_add_mod_noop(a.match_idx, 1, len as int);
            vstd::arithmetic::div_mod::lemma_add_mod_noop(a.match_idx % (len as int), 1, len as int);
            vstd::arithmetic::div_mod::lemma_mod_twice(a.match_idx, len as int);
            assert(self@.matches == a.matches);
            assert(self@.describe == a.describe);
        }
        self.jump_to_current_match();
    }

    /// Sets the query to `q`, recomputes the matches and shows the first.
    fn requery(&mut self, q: String)
        ensures
            final(self)@ == requeried(old(self)@, q@),
    {
        self.search_query = q;
        self.update_search_matches();
        if self.search_matches.len() > 0 {
            self.jump_to_current_match();
        }
    }
}


/// The heartbeat: fresh statuses, and one tick off the status message,
/// which goes when its last tick is up.
pub open spec fn ticked(a: AppV, st: Map<Seq<char>, Status>) -> AppV {
    AppV {
        statuses: st,
        msg_ticks: if a.msg_ticks > 0 {
            a.msg_ticks - 1
        } else {
            0
        },
        status_msg: if a.msg_ticks == 1 {
            Seq::empty()
        } else {
            a.status_msg
        },
        ..a
    }
}

/// The run files read again: new targets, rows laid out again, and a
/// message saying so (or why the collector could not be brought up).
pub open spec fn reloaded(a: AppV, ts: Seq<RunTarget>, otel_error: Option<Seq<char>>) -> AppV {
    let b = rebuilt(AppV { targets: ts, ..a });
    match otel_error {
        Some(e) => flashed(b, "otel collector: "@ + e),
        None => flashed(b, "reloaded run files"@),
    }
}

/// The message a finished request leaves: `ok` followed by the target's
/// name on success, `verb`, the name and the error on failure.
pub open spec fn verdict(a: AppV, ok: Seq<char>, verb: Seq<char>, n: Seq<char>, out: Outcome) -> AppV {
    match out {
        Outcome::Done(_) => flashed(a, ok + n),
        Outcome::Failed(e) => flashed(a, verb + n + ": "@ + e@),
        Outcome::Tally(_, _) => a,
    }
}

/// A finished request reported back.
pub open spec fn completed(a: AppV, req: RequestV, out: Outcome) -> AppV {
    match req {
        RequestV::Start(n) => verdict(a, "started "@, "start "@, n, out),
        RequestV::Stop(n) => verdict(a, "stopped "@, "stop "@, n, out),
        RequestV::Restart(n) => verdict(a, "restarted "@, "restart "@, n, out),
        RequestV::RestartAll(_) => match out {
            Outcome::Tally(ok, err) => flashed(
                a,
                "restarted "@ + decimal_nat(ok as nat) + " target(s), "@ + decimal_nat(err as nat)
                    + " error(s)"@,
            ),
            _ => a,
        },
        RequestV::Dump(n) => match out {
            Outcome::Done(dest) => flashed(a, "dumped to "@ + dest@),
            Outcome::Failed(e) => flashed(a, "dump "@ + n + ": "@ + e@),
            Outcome::Tally(_, _) => a,
        },
        RequestV::Clear(n) => match out {
            Outcome::Done(_) => flashed(a, "cleared "@ + n + " logs"@),
            Outcome::Failed(e) => flashed(a, "clear "@ + n + ": "@ + e@),
            Outcome::Tally(_, _) => a,
        },
        RequestV::Describe(n) => match out {
            Outcome::Done(body) => if body@.len() == 0 {
                flashed(a, "no description for "@ + n)
            } else {
                AppV { describe: Some(body@), ..a }
            },
            _ => a,
        },
        RequestV::Edit(src) => match out {
            Outcome::Done(_) => flashed(a, "edited "@ + src),
            Outcome::Failed(e) => flashed(a, "editor: "@ + e@),
            Outcome::Tally(_, _) => a,
        },
    }
}

/// Every target's buffer, where it has one, emptied.
pub open spec fn cleared_all(logs: Map<Seq<char>, BufV>, ts: Seq<RunTarget>) -> Map<Seq<char>, BufV>
    decreases ts.len(),
{
    if ts.len() == 0 {
        logs
    } else {
        let p = cleared_all(logs, ts.drop_last());
        if p.contains_key(ts.last().name@) {
            p.insert(ts.last().name@, empty_buf())
        } else {
            p
        }
    }
}

/// The selected target's buffer emptied, and the matches that pointed
/// into it dropped.
pub open spec fn cleared_selected(a: AppV) -> AppV {
    match selected_name(a) {
        Some(n) => AppV {
            logs: if a.logs.contains_key(n) {
                a.logs.insert(n, empty_buf())
            } else {
                a.logs
            },
            matches: Seq::empty(),
            match_idx: 0,
            ..a
        },
        None => a,
    }
}

pub open spec fn is_char(k: KeyEvent, c: char) -> bool {
    k.code matches KeyCode::Char(x) && x == c
}

pub open spec fn ctrl_c(k: KeyEvent) -> bool {
    is_char(k, 'c') && k.ctrl
}

pub open spec fn go_on() -> Continuation {
    Continuation { continue_loop: true, stop_all: false }
}

pub open spec fn leave() -> Continuation {
    Continuation { continue_loop: false, stop_all: false }
}

pub open spec fn leave_and_stop() -> Continuation {
    Continuation { continue_loop: false, stop_all: true }
}

/// What a key says of the session: `Q` and Ctrl+C end it and stop every
/// target, `q` ends it and leaves them running. In the help and describe
/// overlays the key that closes the overlay does only that; in search
/// mode every key but Ctrl+C feeds the search.
pub open spec fn key_cont(a: AppV, k: KeyEvent) -> Continuation {
    if a.help_visible || a.describe is Some {
        let closer = if a.help_visible {
            '?'
        } else {
            'D'
        };
        if is_char(k, closer) || k.code is Esc {
            go_on()
        } else if is_char(k, 'Q') || ctrl_c(k) {
            leave_and_stop()
        } else if is_char(k, 'q') {
            leave()
        } else {
            go_on()
        }
    } else if a.search_mode {
        if ctrl_c(k) {
            leave_and_stop()
        } else {
            go_on()
        }
    } else if ctrl_c(k) || is_char(k, 'Q') {
        leave_and_stop()
    } else if is_char(k, 'q') {
        leave()
    } else {
        go_on()
    }
}

/// What a plain character key does to the state outside the overlays and
/// search mode.
pub open spec fn char_key_state(a: AppV, c: char) -> AppV {
    if c == '?' {
        AppV { help_visible: true, ..a }
    } else if c == '/' {
        AppV { search_mode: true, query: Seq::empty(), matches: Seq::empty(), match_idx: 0, ..a }
    } else if c == 'k' {
        after_move(a, -1)
    } else if c == 'j' {
        after_move(a, 1)
    } else if c == 'b' {
        scrolled(a, -10)
    } else if c == 'f' {
        scrolled(a, 10)
    } else if c == 'l' {
        folder_opened(a)
    } else if c == 'h' {
        folder_closed(a)
    } else if c == ' ' {
        folder_toggled(a)
    } else if c == 'R' {
        AppV { logs: cleared_all(a.logs, a.targets), ..a }
    } else if c == 'c' {
        cleared_selected(a)
    } else if c == 'w' {
        flashed(
            AppV { wrap_logs: !a.wrap_logs, ..a },
            if !a.wrap_logs {
                "wrap on"@
            } else {
                "wrap off"@
            },
        )
    } else if c == 'z' {
        flashed(
            AppV { zoom_logs: !a.zoom_logs, ..a },
            if !a.zoom_logs {
                "zoom on"@
            } else {
                "zoom off"@
            },
        )
    } else if c == 'E' {
        match target_at(a.targets, a.rows, a.selected) {
            Some(i) => if a.targets[i].source_file@.len() == 0 {
                flashed(a, "no source file for this target"@)
            } else {
                a
            },
            None => a,
        }
    } else {
        a
    }
}

/// The manager call a plain character key asks for.
pub open spec fn char_request(a: AppV, c: char) -> Option<RequestV> {
    if c == 'R' {
        Some(RequestV::RestartAll(a.targets.map_values(|t: RunTarget| t.name@)))
    } else if c == 'E' {
        match target_at(a.targets, a.rows, a.selected) {
            Some(i) => if a.targets[i].source_file@.len() == 0 {
                None
            } else {
                Some(RequestV::Edit(a.targets[i].source_file@))
            },
            None => None,
        }
    } else {
        match selected_name(a) {
            None => None,
            Some(n) => if c == 'r' {
                Some(RequestV::Restart(n))
            } else if c == 's' {
                Some(RequestV::Stop(n))
            } else if c == 'S' {
                Some(RequestV::Start(n))
            } else if c == 'd' {
                Some(RequestV::Dump(n))
            } else if c == 'c' {
                Some(RequestV::Clear(n))
            } else if c == 'D' {
                Some(RequestV::Describe(n))
            } else {
                None
            },
        }
    }
}

/// What a key does to the state.
pub open spec fn key_state(a: AppV, k: KeyEvent) -> AppV {
    if a.help_visible {
        if is_char(k, '?') || k.code is Esc {
            AppV { help_visible: false, ..a }
        } else {
            a
        }
    } else if a.describe is Some {
        if is_char(k, 'D') || k.code is Esc {
            AppV { describe: None, ..a }
        } else {
            a
        }
    } else if a.search_mode {
        if ctrl_c(k) {
            a
        } else {
            match k.code {
                KeyCode::Esc => search_reset(a),
                KeyCode::Enter => next_match(a),
                KeyCode::Backspace => requeried(
                    a,
                    if a.query.len() > 0 {
                        a.query.drop_last()
                    } else {
                        a.query
                    },
                ),
                KeyCode::Char(c) => if c == '/' {
                    next_match(a)
                } else {
                    requeried(a, a.query.push(c))
                },
                _ => a,
            }
        }
    } else if ctrl_c(k) || is_char(k, 'Q') || is_char(k, 'q') {
        a
    } else {
        match k.code {
            KeyCode::Char(c) => char_key_state(a, c),
            KeyCode::Up => after_move(a, -1),
            KeyCode::Down => after_move(a, 1),
            KeyCode::Tab => after_move(a, 1),
            KeyCode::PageUp => scrolled(a, -10),
            KeyCode::PageDown => scrolled(a, 10),
            KeyCode::Right => folder_opened(a),
            KeyCode::Left => folder_closed(a),
            KeyCode::Enter => folder_toggled(a),
            _ => a,
        }
    }
}

/// The manager call a key asks for.
pub open spec fn key_request(a: AppV, k: KeyEvent) -> Option<RequestV> {
    if a.help_visible || a.describe is Some || a.search_mode || ctrl_c(k) || is_char(k, 'Q')
        || is_char(k, 'q') {
        None
    } else {
        match k.code {
            KeyCode::Char(c) => char_request(a, c),
            _ => None,
        }
    }
}

pub open spec fn req_view(r: Option<Request>) -> Option<RequestV> {
    match r {
        Some(q) => Some(q@),
        None => None,
    }
}

/// What an event does to the state.
pub open spec fn step_state(a: AppV, ev: AppEvent) -> AppV {
    match ev {
        AppEvent::Key(k) => key_state(a, k),
        AppEvent::Resize(_, h) => AppV { last_height: h as int, ..a },
        AppEvent::Tick(st) => ticked(a, st@),
        AppEvent::LogLine { target, line } => logged(a, target@, line@),
        AppEvent::Reloaded { targets, otel_error } => reloaded(a, targets@, opt_view(otel_error)),
        AppEvent::ScrollLog(d) => scrolled(a, d as int),
        AppEvent::EditorDone => a,
        AppEvent::OpDone { request, outcome } => completed(a, request@, outcome),
    }
}

/// Ctrl+C ends the session and stops every target, whatever mode the TUI
/// is in.
pub proof fn lemma_ctrl_c_always_stops_all(a: AppV, k: KeyEvent)
    requires
        ctrl_c(k),
    ensures
        key_cont(a, k) == leave_and_stop(),
        key_request(a, k) is None,
{
}

/// No key asks the manager for anything while an overlay is open or a
/// search is being typed.
pub proof fn lemma_modal_keys_make_no_requests(a: AppV, k: KeyEvent)
    requires
        a.help_visible || a.describe is Some || a.search_mode,
    ensures
        key_request(a, k) is None,
{
}

/// Outside the overlays and search mode, PageUp does what `b` does and
/// PageDown what `f` does: PageUp moves the selected target's view ten
/// lines back toward its oldest line (not past the first) and stops
/// following new output; PageDown moves it ten lines toward the newest
/// (not past the last). The lines themselves are untouched.
pub proof fn lemma_page_keys_scroll(a: AppV, ctrl: bool)
    requires
        !a.help_visible,
        a.describe is None,
        !a.search_mode,
    ensures
        key_state(a, KeyEvent { code: KeyCode::PageUp, ctrl }) == key_state(
            a,
            KeyEvent { code: KeyCode::Char('b'), ctrl: false },
        ),
        key_state(a, KeyEvent { code: KeyCode::PageDown, ctrl }) == key_state(
            a,
            KeyEvent { code: KeyCode::Char('f'), ctrl: false },
        ),
        selected_name(a) matches Some(n) ==> {
            let b = buf_or_empty(a.logs, n);
            let up = key_state(a, KeyEvent { code: KeyCode::PageUp, ctrl }).logs;
            let down = key_state(a, KeyEvent { code: KeyCode::PageDown, ctrl }).logs;
            &&& up.contains_key(n)
            &&& up[n].scroll == (if b.scroll >= 10 { b.scroll - 10 } else { 0int })
            &&& !up[n].at_bottom
            &&& up[n].lines == b.lines
            &&& down.contains_key(n)
            &&& down[n].scroll == (if b.scroll + 10 <= b.lines.len() { (b.scroll + 10) as int } else { b.lines.len() as int })
            &&& down[n].lines == b.lines
        },
{
}


impl App {
    /// Empties the buffer of every target that has one.
    fn clear_all_buffers(&mut self)
        ensures
            final(self)@ == (AppV { logs: cleared_all(old(self)@.logs, old(self)@.targets), ..old(self)@ }),
    {
        let ghost start = old(self)@.logs;
        let mut i: usize = 0;
        while i < self.targets.len()
            invariant
                i <= self.targets.len(),
                self.targets@ == old(self).targets@,
                self@ == (AppV { logs: cleared_all(start, self.targets@.take(i as int)), ..old(self)@ }),
            decreases self.targets.len() - i,
        {
            proof {
                use_type_invariant(&self.logs);
                self.logs.lemma_entries();
                let t = self.targets@.take(i as int + 1);
                assert(t.drop_last() =~= self.targets@.take(i as int));
                assert(t.last() == self.targets@[i as int]);
            }
            match self.logs.find(self.targets[i].name.as_str()) {
                Some(pos) => {
                    let ghost before = self.logs@;
                    self.logs.set_value_at(pos, LogBuffer::default());
                    proof {
                        assert(bufs(self.logs@) =~= bufs(before).insert(
                            self.targets@[i as int].name@,
                            empty_buf(),
                        ));
                    }
                },
                None => {},
            }
            proof {
                assert(self@.matches == old(self)@.matches);
                assert(self@.describe == old(self)@.describe);
            }
            i = i + 1;
        }
        proof {
            assert(self.targets@.take(self.targets.len() as int) =~= self.targets@);
        }
    }

    /// The names of the targets, in order.
    fn target_names(&self) -> (r: Vec<String>)
        ensures
            r@.map_values(|s: String| s@) == self@.targets.map_values(|t: RunTarget| t.name@),
    {
        let mut r: Vec<String> = Vec::new();
        let mut i: usize = 0;
        while i < self.targets.len()
            invariant
                i <= self.targets.len(),
                r@.map_values(|s: String| s@) == self.targets@.take(i as int).map_values(
                    |t: RunTarget| t.name@,
                ),
            decreases self.targets.len() - i,
        {
            let ghost before = r@;
            let n = self.targets[i].name.clone();
            r.push(n);
            proof {
                assert(r@.map_values(|s: String| s@) =~= before.map_values(|s: String| s@).push(
                    self.targets@[i as int].name@,
                ));
                assert(self.targets@.take(i as int + 1).map_values(|t: RunTarget| t.name@)
                    =~= self.targets@.take(i as int).map_values(|t: RunTarget| t.name@).push(
                    self.targets@[i as int].name@,
                ));
            }
            i = i + 1;
        }
        proof {
            assert(self.targets@.take(self.targets.len() as int) =~= self.targets@);
        }
        r
    }

    /// Empties the selected target's buffer and drops the matches.
    fn clear_selected(&mut self)
        ensures
            final(self)@ == cleared_selected(old(self)@),
    {
        let name = match self.selected_target_name() {
            Some(n) => n,
            None => return ,
        };
        proof {
            use_type_invariant(&self.logs);
            self.logs.lemma_entries();
        }
        match self.logs.find(name.as_str()) {
            Some(pos) => {
                let ghost before = self.logs@;
                self.logs.set_value_at(pos, LogBuffer::default());
                proof {
                    assert(bufs(self.logs@) =~= bufs(before).insert(name@, empty_buf()));
                }
            },
            None => {},
        }
        self.search_matches = Vec::new();
        self.search_match_idx = 0;
        proof {
            assert(self@.matches =~= Seq::<int>::empty());
            assert(self@.describe == old(self)@.describe);
        }
    }

    /// A plain character key outside the overlays and search mode.
    fn char_key(&mut self, c: char) -> (r: Option<Request>)
        ensures
            final(self)@ == char_key_state(old(self)@, c),
            req_view(r) == char_request(old(self)@, c),
    {
        let ghost a = old(self)@;
        if c == '?' {
            self.help_visible = true;
            proof {
                assert(self@.matches == a.matches);
                assert(self@.describe == a.describe);
            }
            None
        } else if c == '/' {
            self.search_mode = true;
            self.search_query = String::new();
            self.search_matches = Vec::new();
            self.search_match_idx = 0;
            proof {
                assert(self@.matches =~= Seq::<int>::empty());
                assert(self@.describe == a.describe);
            }
            None
        } else if c == 'k' {
            self.move_selection(-1);
            None
        } else if c == 'j' {
            self.move_selection(1);
            None
        } else if c == 'b' {
            self.scroll_log(-10);
            None
        } else if c == 'f' {
            self.scroll_log(10);
            None
        } else if c == 'l' {
            self.expand_folder();
            None
        } else if c == 'h' {
            self.collapse_folder();
            None
        } else if c == ' ' {
            self.toggle_folder();
            None
        } else if c == 'R' {
            let names = self.target_names();
            self.clear_all_buffers();
            Some(Request::RestartAll(names))
        } else if c == 'c' {
            let name = self.selected_target_name();
            self.clear_selected();
            match name {
                Some(n) => Some(Request::Clear(n)),
                None => None,
            }
        } else if c == 'w' {
            self.wrap_logs = !self.wrap_logs;
            if self.wrap_logs {
                self.flash("wrap on");
            } else {
                self.flash("wrap off");
            }
            proof {
                assert(self@.matches == a.matches);
                assert(self@.describe == a.describe);
            }
            None
        } else if c == 'z' {
            self.zoom_logs = !self.zoom_logs;
            if self.zoom_logs {
                self.flash("zoom on");
            } else {
                self.flash("zoom off");
            }
            proof {
                assert(self@.matches == a.matches);
                assert(self@.describe == a.describe);
            }
            None
        } else if c == 'E' {
            let source = match self.selected_target() {
                Some(t) => t.source_file.clone(),
                None => return None,
            };
            if source.as_str().is_empty() {
                self.flash("no source file for this target");
                None
            } else {
                Some(Request::Edit(source))
            }
        } else {
            let name = match self.selected_target_name() {
                Some(n) => n,
                None => return None,
            };
            if c == 'r' {
                Some(Request::Restart(name))
            } else if c == 's' {
                Some(Request::Stop(name))
            } else if c == 'S' {
                Some(Request::Start(name))
            } else if c == 'd' {
                Some(Request::Dump(name))
            } else if c == 'D' {
                Some(Request::Describe(name))
            } else {
                None
            }
        }
    }

    /// The key map.
    fn handle_key(&mut self, k: KeyEvent) -> (r: (Continuation, Option<Request>))
        ensures
            r.0 == key_cont(old(self)@, k),
            final(self)@ == key_state(old(self)@, k),
            req_view(r.1) == key_request(old(self)@, k),
    {
        let ghost a = old(self)@;
        let is_ctrl_c = k.ctrl && matches!(k.code, KeyCode::Char('c'));
        if self.help_visible || self.describe.is_some() {
            let closer = if self.help_visible {
                '?'
            } else {
                'D'
            };
            let closes = match k.code {
                KeyCode::Char(x) => x == closer,
                KeyCode::Esc => true,
                _ => false,
            };
            if closes {
                if self.help_visible {
                    self.help_visible = false;
                } else {
                    self.describe = None;
                }
                proof {
                    assert(self@.matches == a.matches);
                }
                return (Continuation::cont(), None);
            }
            let c = match k.code {
                KeyCode::Char(x) => x,
                _ => '\0',
            };
            if c == 'Q' || is_ctrl_c {
                return (Continuation::kill_all(), None);
            }
            if c == 'q' {
                return (Continuation::detach(), None);
            }
            return (Continuation::cont(), None);
        }
        if self.search_mode {
            if is_ctrl_c {
                return (Continuation::kill_all(), None);
            }
            match k.code {
                KeyCode::Esc => self.reset_search(),
                KeyCode::Enter => self.next_search_match(),
                KeyCode::Backspace => {
                    let mut q = chars_of(self.search_query.as_str());
                    q.pop();
                    proof {
                        if a.query.len() > 0 {
                            assert(q@ =~= a.query.drop_last());
                        }
                    }
                    let qs = crate::text::string_of(&q);
                    self.requery(qs);
                },
                KeyCode::Char(x) => {
                    if x == '/' {
                        self.next_search_match();
                    } else {
                        let mut q = chars_of(self.search_query.as_str());
                        q.push(x);
                        let qs = crate::text::string_of(&q);
                        self.requery(qs);
                    }
                },
                _ => {},
            }
            return (Continuation::cont(), None);
        }
        if is_ctrl_c {
            return (Continuation::kill_all(), None);
        }
        match k.code {
            KeyCode::Char(x) => {
                if x == 'Q' {
                    return (Continuation::kill_all(), None);
                }
                if x == 'q' {
                    return (Continuation::detach(), None);
                }
                let req = self.char_key(x);
                (Continuation::cont(), req)
            },
            KeyCode::Up => {
                self.move_selection(-1);
                (Continuation::cont(), None)
            },
            KeyCode::Down | KeyCode::Tab => {
                self.move_selection(1);
                (Continuation::cont(), None)
            },
            KeyCode::PageUp => {
                self.scroll_log(-10);
                (Continuation::cont(), None)
            },
            KeyCode::PageDown => {
                self.scroll_log(10);
                (Continuation::cont(), None)
            },
            KeyCode::Right => {
                self.expand_folder();
                (Continuation::cont(), None)
            },
            KeyCode::Left => {
                self.collapse_folder();
                (Continuation::cont(), None)
            },
            KeyCode::Enter => {
                self.toggle_folder();
                (Continuation::cont(), None)
            },
            _ => (Continuation::cont(), None),
        }
    }
}


/// The positions of the lines of `buf` that match `query`.
fn find_matches(buf: &LogBuffer, query: &String) -> (r: Vec<usize>)
    ensures
        r@.map_values(|x: usize| x as int) == match_list(buf@.lines, query@),
{
    let q = chars_of(to_lower(query.as_str()).as_str());
    let ghost lines = buf@.lines;
    let mut found: Vec<usize> = Vec::new();
    let mut i: usize = 0;
    proof {
        assert(found@.map_values(|x: usize| x as int) =~= match_list(lines.take(0), query@));
    }
    while i < buf.lines.len()
        invariant
            i <= buf.lines@.len(),
            lines == buf@.lines,
            q@ == lowercased(query@),
            found@.map_values(|x: usize| x as int) == match_list(lines.take(i as int), query@),
        decreases buf.lines@.len() - i,
    {
        let l = chars_of(to_lower(buf.lines[i].as_str()).as_str());
        let ghost before = found@;
        proof {
            let t = lines.take(i as int + 1);
            assert(t.drop_last() =~= lines.take(i as int));
            assert(t.last() == buf.lines@[i as int]@);
        }
        if contains_chars(&l, &q) {
            found.push(i);
            proof {
                assert(found@.map_values(|x: usize| x as int) =~= before.map_values(|x: usize| x as int).push(
                    i as int,
                ));
            }
        }
        i = i + 1;
    }
    proof {
        assert(lines.take(buf.lines@.len() as int) =~= lines);
    }
    found
}

impl App {
    fn log_line(&mut self, target: String, line: String)
        ensures
            final(self)@ == logged(old(self)@, target@, line@),
    {
        let ghost a = old(self)@;
        let active = self.search_mode && !self.search_query.as_str().is_empty() && match self.selected_target_name() {
            Some(n) => str_eq(n.as_str(), target.as_str()),
            None => false,
        };
        let hit = active && {
            let l = chars_of(to_lower(line.as_str()).as_str());
            let q = chars_of(to_lower(self.search_query.as_str()).as_str());
            contains_chars(&l, &q)
        };
        let (mut buf, pos) = take_buf(&mut self.logs, target.as_str());
        let old_len = buf.lines.len();
        buf.push(line);
        if active {
            if old_len >= TUI_RING {
                let ms = find_matches(&buf, &self.search_query);
                let keep = self.search_match_idx < ms.len();
                self.search_matches = ms;
                if !keep {
                    self.search_match_idx = 0;
                }
            } else if hit {
                let ghost before = self.search_matches@;
                self.search_matches.push(old_len);
                proof {
                    assert(self.search_matches@.map_values(|x: usize| x as int) =~= before.map_values(
                        |x: usize| x as int,
                    ).push(old_len as int));
                }
            }
        }
        put_buf(&mut self.logs, pos, target.as_str(), buf);
        proof {
            assert(self@.logs == logged(a, target@, line@).logs);
            assert(self@.matches == logged(a, target@, line@).matches);
            assert(self@.describe == logged(a, target@, line@).describe);
        }
    }

    fn tick(&mut self, st: StrMap<Status>)
        ensures
            final(self)@ == ticked(old(self)@, st@),
    {
        self.statuses = st;
        if self.status_msg_until_tick > 0 {
            self.status_msg_until_tick = self.status_msg_until_tick - 1;
            if self.status_msg_until_tick == 0 {
                self.status_msg = String::new();
            }
        }
        proof {
            assert(self@.matches == old(self)@.matches);
            assert(self@.describe == old(self)@.describe);
        }
    }

    fn reload(&mut self, targets: Vec<RunTarget>, otel_error: Option<String>)
        ensures
            final(self)@ == reloaded(old(self)@, targets@, opt_view(otel_error)),
    {
        self.targets = targets;
        proof {
            assert(self@.matches == old(self)@.matches);
            assert(self@.describe == old(self)@.describe);
        }
        self.rebuild_rows();
        match otel_error {
            Some(e) => {
                let msg = join2("otel collector: ", e.as_str());
                self.flash(msg.as_str());
            },
            None => self.flash("reloaded run files"),
        }
    }

    fn verdict(&mut self, ok: &str, verb: &str, n: &String, out: Outcome)
        ensures
            final(self)@ == verdict(old(self)@, ok@, verb@, n@, out),
    {
        match out {
            Outcome::Done(_) => {
                let msg = join2(ok, n.as_str());
                self.flash(msg.as_str());
            },
            Outcome::Failed(e) => {
                let mut msg = join3(verb, n.as_str(), ": ");
                push_str(&mut msg, e.as_str());
                self.flash(msg.as_str());
            },
            Outcome::Tally(_, _) => {},
        }
    }

    fn op_done(&mut self, request: Request, outcome: Outcome)
        ensures
            final(self)@ == completed(old(self)@, request@, outcome),
    {
        match request {
            Request::Start(n) => self.verdict("started ", "start ", &n, outcome),
            Request::Stop(n) => self.verdict("stopped ", "stop ", &n, outcome),
            Request::Restart(n) => self.verdict("restarted ", "restart ", &n, outcome),
            Request::RestartAll(_) => {
                if let Outcome::Tally(ok, err) = outcome {
                    let mut msg = join2("restarted ", u64_to_string(ok).as_str());
                    push_str(&mut msg, " target(s), ");
                    push_str(&mut msg, u64_to_string(err).as_str());
                    push_str(&mut msg, " error(s)");
                    self.flash(msg.as_str());
                }
            },
            Request::Dump(n) => match outcome {
                Outcome::Done(dest) => {
                    let msg = join2("dumped to ", dest.as_str());
                    self.flash(msg.as_str());
                },
                Outcome::Failed(e) => {
                    let mut msg = join3("dump ", n.as_str(), ": ");
                    push_str(&mut msg, e.as_str());
                    self.flash(msg.as_str());
                },
                Outcome::Tally(_, _) => {},
            },
            Request::Clear(n) => match outcome {
                Outcome::Done(_) => {
                    let msg = join3("cleared ", n.as_str(), " logs");
                    self.flash(msg.as_str());
                },
                Outcome::Failed(e) => {
                    let mut msg = join3("clear ", n.as_str(), ": ");
                    push_str(&mut msg, e.as_str());
                    self.flash(msg.as_str());
                },
                Outcome::Tally(_, _) => {},
            },
            Request::Describe(n) => match outcome {
                Outcome::Done(body) => {
                    if body.as_str().is_empty() {
                        let msg = join2("no description for ", n.as_str());
                        self.flash(msg.as_str());
                    } else {
                        self.describe = Some(body);
                        proof {
                            assert(self@.matches == old(self)@.matches);
                        }
                    }
                },
                _ => {},
            },
            Request::Edit(src) => match outcome {
                Outcome::Done(_) => {
                    let msg = join2("edited ", src.as_str());
                    self.flash(msg.as_str());
                },
                Outcome::Failed(e) => {
                    let msg = join2("editor: ", e.as_str());
                    self.flash(msg.as_str());
                },
                Outcome::Tally(_, _) => {},
            },
        }
    }

    /// Feeds one event to the state machine.
    pub fn handle(&mut self, ev: AppEvent) -> (r: Step)
        requires
            ev matches AppEvent::ScrollLog(d) ==> d > i32::MIN,
        ensures
            final(self)@ == step_state(old(self)@, ev),
            r.cont == (match ev {
                AppEvent::Key(k) => key_cont(old(self)@, k),
                _ => go_on(),
            }),
            req_view(r.request) == (match ev {
                AppEvent::Key(k) => key_request(old(self)@, k),
                _ => None,
            }),
    {
        match ev {
            AppEvent::Key(k) => {
                let (cont, request) = self.handle_key(k);
                Step { cont, request }
            },
            AppEvent::Resize(_, h) => {
                self.last_height = h;
                proof {
                    assert(self@.matches == old(self)@.matches);
                    assert(self@.describe == old(self)@.describe);
                }
                Step { cont: Continuation::cont(), request: None }
            },
            AppEvent::Tick(st) => {
                self.tick(st);
                Step { cont: Continuation::cont(), request: None }
            },
            AppEvent::LogLine { target, line } => {
                self.log_line(target, line);
                Step { cont: Continuation::cont(), request: None }
            },
            AppEvent::Reloaded { targets, otel_error } => {
                self.reload(targets, otel_error);
                Step { cont: Continuation::cont(), request: None }
            },
            AppEvent::ScrollLog(d) => {
                self.scroll_log(d);
                Step { cont: Continuation::cont(), request: None }
            },
            AppEvent::EditorDone => Step { cont: Continuation::cont(), request: None },
            AppEvent::OpDone { request, outcome } => {
                self.op_done(request, outcome);
                Step { cont: Continuation::cont(), request: None }
            },
        }
    }
}


/// The search matches agree with the selected target's buffer: there are
/// none outside an active search with a query, and during one they are
/// exactly the lines that match it.
pub open spec fn search_consistent(a: AppV) -> bool {
    &&& (!a.search_mode || a.query.len() == 0) ==> a.matches.len() == 0
    &&& (a.search_mode && a.query.len() > 0) ==> a.matches == match_list(sel_lines(a), a.query)
}

proof fn lemma_jumped_keeps_lines(a: AppV)
    ensures
        sel_lines(jumped(a)) == sel_lines(a),
        jumped(a).matches == a.matches,
        jumped(a).query == a.query,
        jumped(a).search_mode == a.search_mode,
        jumped(a).selected == a.selected,
        jumped(a).rows == a.rows,
        jumped(a).targets == a.targets,
{
    if 0 <= a.match_idx < a.matches.len() {
        match selected_name(a) {
            Some(n) => {
                if a.logs.contains_key(n) {
                    let j = jumped(a);
                    assert(j.logs[n].lines == a.logs[n].lines);
                }
            },
            None => {},
        }
    }
}

proof fn lemma_requeried_consistent(a: AppV, q: Seq<char>)
    requires
        a.search_mode,
    ensures
        search_consistent(requeried(a, q)),
{
    let s = searched(AppV { query: q, ..a });
    assert(sel_lines(s) == sel_lines(a));
    if s.matches.len() > 0 {
        lemma_jumped_keeps_lines(s);
    }
}

proof fn lemma_next_match_consistent(a: AppV)
    requires
        search_consistent(a),
    ensures
        search_consistent(next_match(a)),
{
    if a.matches.len() > 0 {
        let b = AppV { match_idx: (a.match_idx + 1) % (a.matches.len() as int), ..a };
        assert(sel_lines(b) == sel_lines(a));
        lemma_jumped_keeps_lines(b);
    }
}

proof fn lemma_logged_consistent(a: AppV, target: Seq<char>, line: Seq<char>)
    requires
        search_consistent(a),
    ensures
        search_consistent(logged(a, target, line)),
{
    let ob = buf_or_empty(a.logs, target);
    let nb = pushed(ob, line);
    let b = AppV { logs: a.logs.insert(target, nb), ..a };
    let r = logged(a, target, line);
    if a.search_mode && a.query.len() > 0 {
        if selected_name(a) == Some(target) {
            assert(sel_lines(b) == nb.lines);
            assert(sel_lines(a) == ob.lines);
            if ob.lines.len() + 1 > TUI_RING {
            } else {
                assert(nb.lines == ob.lines.push(line));
                assert(nb.lines.drop_last() =~= ob.lines);
                assert(nb.lines.last() == line);
            }
        } else {
            assert(sel_lines(b) == sel_lines(a));
        }
    }
}

proof fn lemma_key_consistent(a: AppV, k: KeyEvent)
    requires
        search_consistent(a),
    ensures
        search_consistent(key_state(a, k)),
{
    if a.help_visible || a.describe is Some {
    } else if a.search_mode {
        if ctrl_c(k) {
        } else {
            match k.code {
                KeyCode::Esc => {},
                KeyCode::Enter => lemma_next_match_consistent(a),
                KeyCode::Backspace => lemma_requeried_consistent(
                    a,
                    if a.query.len() > 0 {
                        a.query.drop_last()
                    } else {
                        a.query
                    },
                ),
                KeyCode::Char(c) => {
                    if c == '/' {
                        lemma_next_match_consistent(a);
                    } else {
                        lemma_requeried_consistent(a, a.query.push(c));
                    }
                },
                _ => {},
            }
        }
    } else {
        // Outside search mode there are no matches, and no key but `/`
        // (which starts an empty search) touches the search state.
        let r = key_state(a, k);
        assert(r.matches.len() == 0 && (!r.search_mode || r.query.len() == 0)) by {
            if !(ctrl_c(k) || is_char(k, 'Q') || is_char(k, 'q')) {
                match k.code {
                    KeyCode::Char(c) => {
                        if c == 'j' || c == 'k' {
                            lemma_after_move_search(a, if c == 'j' { 1 } else { -1 });
                        } else if c == 'l' || c == 'h' || c == ' ' {
                            lemma_folder_ops_search(a);
                        }
                    },
                    KeyCode::Up => lemma_after_move_search(a, -1),
                    KeyCode::Down | KeyCode::Tab => lemma_after_move_search(a, 1),
                    KeyCode::Right | KeyCode::Left | KeyCode::Enter => lemma_folder_ops_search(a),
                    _ => {},
                }
            }
        }
    }
}

proof fn lemma_after_move_search(a: AppV, delta: int)
    ensures
        after_move(a, delta).matches.len() == 0 || after_move(a, delta).matches == a.matches,
        after_move(a, delta).search_mode ==> a.search_mode,
        after_move(a, delta).query == a.query || after_move(a, delta).query.len() == 0,
{
}

proof fn lemma_folder_ops_search(a: AppV)
    ensures
        folder_opened(a).matches == a.matches && folder_opened(a).search_mode == a.search_mode
            && folder_opened(a).query == a.query,
        folder_closed(a).matches == a.matches && folder_closed(a).search_mode == a.search_mode
            && folder_closed(a).query == a.query,
        folder_toggled(a).matches == a.matches && folder_toggled(a).search_mode == a.search_mode
            && folder_toggled(a).query == a.query,
{
}

/// Every event but a reload keeps the search matches in step with the
/// selected target's buffer: a reload can put another target on the
/// selected row in the middle of a search.
pub proof fn lemma_search_stays_consistent(a: AppV, ev: AppEvent)
    requires
        search_consistent(a),
        !(ev is Reloaded),
    ensures
        search_consistent(step_state(a, ev)),
{
    match ev {
        AppEvent::Key(k) => lemma_key_consistent(a, k),
        AppEvent::LogLine { target, line } => lemma_logged_consistent(a, target@, line@),
        AppEvent::ScrollLog(d) => {
            let r = scrolled(a, d as int);
            assert(sel_lines(r) == sel_lines(a));
        },
        AppEvent::Tick(st) => {
            assert(sel_lines(ticked(a, st@)) == sel_lines(a));
        },
        AppEvent::Resize(_, h) => {
            assert(sel_lines(AppV { last_height: h as int, ..a }) == sel_lines(a));
        },
        AppEvent::OpDone { request, outcome } => {
            assert(sel_lines(completed(a, request@, outcome)) == sel_lines(a));
        },
        _ => {},
    }
}

} // verus!
