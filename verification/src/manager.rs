//! The process manager's rules: how a target is launched, what `describe`
//! says of it, which targets the bulk operations touch, how the OTel port
//! is chosen, and how a stop escalates from SIGTERM to SIGKILL.
//!
//! Spawning, signalling, sleeping and file I/O are the caller's; the
//! functions here take what those observed and answer what to do next.

use vstd::prelude::*;

use crate::fmt::{debug_quote, debug_quoted, format_iso8601, iso8601_utc, opt_text};
use crate::shell::{build_shell_cmd, shell_line, views};
use crate::state::{
    effective_status, is_alive, reconcile_status, status_name, status_str, ProcessState, Status,
};
use crate::dotenv::{dotenv_additions, unset_pairs};
use crate::strmap::StrMap;
use crate::target::RunTarget;
use crate::text::{
    decimal, decimal_nat, i64_to_string, parse_u16, parse_u16_chars, push_str, str_eq, trim,
    trimmed, u64_to_string, chars_of,
};

verus! {

/// The fixed name of the virtual OTel collector target.
pub const OTEL_TARGET_NAME: &'static str = "otel-errors";

/// OpenTelemetry collector configuration. `port == 0` means "pick one";
/// any other value is an explicit user choice.
#[derive(Debug, Clone)]
pub struct OtelConfig {
    pub port: u16,
    pub protocol: String,
    pub severity: String,
}

// ---------------------------------------------------------------------
// Paths
// ---------------------------------------------------------------------

/// `Path::new(base).join(p)` on Unix, as text: an absolute `p` replaces
/// `base`; otherwise `p` is appended after a `/` unless `base` is empty or
/// already ends in one.
pub open spec fn joined_path(base: Seq<char>, p: Seq<char>) -> Seq<char> {
    if p.len() > 0 && p[0] == '/' {
        p
    } else if base.len() == 0 || base.last() == '/' {
        base + p
    } else {
        base + "/"@ + p
    }
}

pub fn join_path(base: &str, p: &str) -> (r: String)
    ensures
        r@ == joined_path(base@, p@),
{
    let pv = chars_of(p);
    let bv = chars_of(base);
    if pv.len() > 0 && pv[0] == '/' {
        return p.to_owned();
    }
    let mut s = base.to_owned();
    if !(bv.len() == 0 || bv[bv.len() - 1] == '/') {
        push_str(&mut s, "/");
    }
    push_str(&mut s, p);
    s
}

/// Where a target runs: the project root when no workdir is set, an
/// absolute workdir as is, a relative one under the project root.
pub open spec fn workdir_shown(workdir: Seq<char>, root: Seq<char>) -> Seq<char> {
    if workdir.len() == 0 {
        root
    } else {
        joined_path(root, workdir)
    }
}

// ---------------------------------------------------------------------
// Environment injected into a child
// ---------------------------------------------------------------------

/// `http://127.0.0.1:<port>`.
pub open spec fn endpoint(port: u16) -> Seq<char> {
    "http://127.0.0.1:"@ + decimal_nat(port as nat)
}

/// The target's own environment, in key order.
pub open spec fn env_pairs(t: RunTarget) -> Seq<(Seq<char>, Seq<char>)> {
    t.env.entries_view().map_values(|e: (Seq<char>, String)| (e.0, e.1@))
}

/// The variables a child gets on top of the parent's environment: the
/// target's own, then, for an OTel target while a collector port is
/// known, the exporter endpoint with metrics and traces switched off.
pub open spec fn injected_env(t: RunTarget, port: u16) -> Seq<(Seq<char>, Seq<char>)> {
    env_pairs(t) + if t.otel && port != 0 {
        seq![
            ("OTEL_EXPORTER_OTLP_ENDPOINT"@, endpoint(port)),
            ("OTEL_METRICS_EXPORTER"@, "none"@),
            ("OTEL_TRACES_EXPORTER"@, "none"@),
        ]
    } else {
        Seq::empty()
    }
}

pub open spec fn pair_views(v: Seq<(String, String)>) -> Seq<(Seq<char>, Seq<char>)> {
    v.map_values(|e: (String, String)| (e.0@, e.1@))
}

fn endpoint_text(port: u16) -> (r: String)
    ensures
        r@ == endpoint(port),
{
    let mut s = "http://127.0.0.1:".to_owned();
    push_str(&mut s, u64_to_string(port as u64).as_str());
    s
}

/// The variables to set in a child of `t`, in order.
pub fn injected_vars(t: &RunTarget, port: u16) -> (r: Vec<(String, String)>)
    ensures
        pair_views(r@) == injected_env(*t, port),
{
    proof {
        use_type_invariant(&t.env);
    }
    let mut r: Vec<(String, String)> = Vec::new();
    let mut i: usize = 0;
    while i < t.env.len()
        invariant
            i <= t.env.entries_view().len(),
            pair_views(r@) == env_pairs(*t).take(i as int),
        decreases t.env.entries_view().len() - i,
    {
        let k = t.env.key_at(i).clone();
        let v = t.env.value_at(i).clone();
        let ghost before = r@;
        r.push((k, v));
        proof {
            assert(pair_views(r@) =~= pair_views(before).push((k@, v@)));
            assert(env_pairs(*t).take(i as int + 1) =~= env_pairs(*t).take(i as int).push((k@, v@)));
        }
        i = i + 1;
    }
    proof {
        assert(env_pairs(*t).take(t.env.entries_view().len() as int) =~= env_pairs(*t));
    }
    if t.otel && port != 0 {
        let ghost before = r@;
        r.push(("OTEL_EXPORTER_OTLP_ENDPOINT".to_owned(), endpoint_text(port)));
        r.push(("OTEL_METRICS_EXPORTER".to_owned(), "none".to_owned()));
        r.push(("OTEL_TRACES_EXPORTER".to_owned(), "none".to_owned()));
        proof {
            assert(pair_views(r@) =~= pair_views(before) + seq![
                ("OTEL_EXPORTER_OTLP_ENDPOINT"@, endpoint(port)),
                ("OTEL_METRICS_EXPORTER"@, "none"@),
                ("OTEL_TRACES_EXPORTER"@, "none"@),
            ]);
        }
    } else {
        proof {
            assert(env_pairs(*t) + Seq::<(Seq<char>, Seq<char>)>::empty() =~= env_pairs(*t));
        }
    }
    r
}

// ---------------------------------------------------------------------
// describe
// ---------------------------------------------------------------------

/// One line per item, each as `  - <item>`.
pub open spec fn bullets(items: Seq<Seq<char>>) -> Seq<char>
    decreases items.len(),
{
    if items.len() == 0 {
        Seq::empty()
    } else {
        bullets(items.drop_last()) + "  - "@ + items.last() + "\n"@
    }
}

/// One line per variable, each as `  <key>=<value>`.
pub open spec fn env_lines(kvs: Seq<(Seq<char>, Seq<char>)>) -> Seq<char>
    decreases kvs.len(),
{
    if kvs.len() == 0 {
        Seq::empty()
    } else {
        env_lines(kvs.drop_last()) + "  "@ + kvs.last().0 + "="@ + kvs.last().1 + "\n"@
    }
}

pub open spec fn text_or_empty(o: Option<Seq<char>>) -> Seq<char> {
    match o {
        Some(s) => s,
        None => Seq::empty(),
    }
}

pub open spec fn header_block(t: RunTarget) -> Seq<char> {
    "Target:       "@ + t.name@ + "\n"@ + (if t.description@.len() > 0 {
        "Description:  "@ + t.description@ + "\n"@
    } else {
        Seq::empty()
    }) + (if t.is_virtual {
        "Virtual:      true (managed by tukituki)\n"@
    } else {
        Seq::empty()
    })
}

pub open spec fn pid_line(p: ProcessState) -> Seq<char> {
    if p.pid != 0 {
        "PID:          "@ + decimal(p.pid as int) + "\n"@
    } else {
        Seq::empty()
    }
}

pub open spec fn started_line(p: ProcessState) -> Seq<char> {
    "Started:      "@ + text_or_empty(iso8601_utc(p.started_at.secs, p.started_at.nanos)) + "\n"@
}

pub open spec fn log_file_line(p: ProcessState) -> Seq<char> {
    if p.log_file@.len() > 0 {
        "Log file:     "@ + p.log_file@ + "\n"@
    } else {
        Seq::empty()
    }
}

pub open spec fn exit_line(p: ProcessState) -> Seq<char> {
    match p.exit_code {
        Some(c) => "Exit code:    "@ + decimal(c as int) + "\n"@,
        None => Seq::empty(),
    }
}

pub open spec fn status_block(ps: Option<ProcessState>, alive: bool) -> Seq<char> {
    match ps {
        Some(p) => "Status:       "@ + status_name(effective_status(Some(p), alive)) + "\n"@ + pid_line(p)
            + started_line(p) + log_file_line(p) + exit_line(p),
        None => "Status:       (never started)\n"@,
    }
}

pub open spec fn launch_block(t: RunTarget, shell: Seq<char>, root: Seq<char>) -> Seq<char> {
    "Shell:        "@ + shell + " -l -c\n"@ + "Command:      "@ + t.command@ + "\n"@ + (if t.args@.len()
        > 0 {
        "Args:\n"@ + bullets(views(t.args@))
    } else {
        Seq::empty()
    }) + "Shell line:   "@ + shell_line(t.command@, views(t.args@)) + "\n"@ + "Workdir:      "@
        + workdir_shown(t.workdir@, root) + "\n"@
}

pub open spec fn otel_block(t: RunTarget, port: u16) -> Seq<char> {
    "OTel:         "@ + (if t.otel {
        "true"@
    } else {
        "false"@
    }) + (if t.otel && port != 0 {
        " (endpoint: "@ + endpoint(port) + ")"@
    } else {
        Seq::empty()
    }) + "\n"@
}

pub open spec fn env_block(t: RunTarget, port: u16) -> Seq<char> {
    "Injected environment (parent env is inherited separately):\n"@ + (if injected_env(t, port).len()
        == 0 {
        "  (none)\n"@
    } else {
        env_lines(injected_env(t, port))
    })
}

pub open spec fn cleanup_block(t: RunTarget) -> Seq<char> {
    if t.cleanup@.len() > 0 {
        "\n"@ + "Cleanup commands:\n"@ + bullets(views(t.cleanup@))
    } else {
        Seq::empty()
    }
}

/// The summary `describe` gives of target `t`: identity, recorded process
/// state (`alive` says whether its PID still runs), how it is launched,
/// OTel wiring, injected environment and cleanup commands.
pub open spec fn describe_text(
    t: RunTarget,
    ps: Option<ProcessState>,
    alive: bool,
    port: u16,
    root: Seq<char>,
    shell: Seq<char>,
) -> Seq<char> {
    header_block(t) + status_block(ps, alive) + "\n"@ + launch_block(t, shell, root) + "\n"@
        + otel_block(t, port) + "\n"@ + env_block(t, port) + cleanup_block(t)
}

fn push_bullets(out: &mut String, items: &Vec<String>)
    ensures
        final(out)@ == old(out)@ + bullets(views(items@)),
{
    let mut i: usize = 0;
    while i < items.len()
        invariant
            i <= items.len(),
            out@ == old(out)@ + bullets(views(items@).take(i as int)),
        decreases items.len() - i,
    {
        proof {
            let t = views(items@).take(i as int + 1);
            assert(t.drop_last() =~= views(items@).take(i as int));
        }
        push_str(out, "  - ");
        push_str(out, items[i].as_str());
        push_str(out, "\n");
        i = i + 1;
    }
    proof {
        assert(views(items@).take(items.len() as int) =~= views(items@));
    }
}

fn push_env_lines(out: &mut String, kvs: &Vec<(String, String)>)
    ensures
        final(out)@ == old(out)@ + env_lines(pair_views(kvs@)),
{
    let mut i: usize = 0;
    while i < kvs.len()
        invariant
            i <= kvs.len(),
            out@ == old(out)@ + env_lines(pair_views(kvs@).take(i as int)),
        decreases kvs.len() - i,
    {
        proof {
            let t = pair_views(kvs@).take(i as int + 1);
            assert(t.drop_last() =~= pair_views(kvs@).take(i as int));
        }
        push_str(out, "  ");
        push_str(out, kvs[i].0.as_str());
        push_str(out, "=");
        push_str(out, kvs[i].1.as_str());
        push_str(out, "\n");
        i = i + 1;
    }
    proof {
        assert(pair_views(kvs@).take(kvs.len() as int) =~= pair_views(kvs@));
    }
}

fn push_header(out: &mut String, t: &RunTarget)
    ensures
        final(out)@ == old(out)@ + header_block(*t),
{
    push_str(out, "Target:       ");
    push_str(out, t.name.as_str());
    push_str(out, "\n");
    if !t.description.as_str().is_empty() {
        push_str(out, "Description:  ");
        push_str(out, t.description.as_str());
        push_str(out, "\n");
    }
    if t.is_virtual {
        push_str(out, "Virtual:      true (managed by tukituki)\n");
    }
}

fn push_pid(out: &mut String, p: &ProcessState)
    ensures
        final(out)@ == old(out)@ + pid_line(*p),
{
    if p.pid != 0 {
        push_str(out, "PID:          ");
        push_str(out, i64_to_string(p.pid as i64).as_str());
        push_str(out, "\n");
    }
}

fn push_started(out: &mut String, p: &ProcessState)
    ensures
        final(out)@ == old(out)@ + started_line(*p),
{
    push_str(out, "Started:      ");
    match format_iso8601(p.started_at.secs, p.started_at.nanos) {
        Some(s) => push_str(out, s.as_str()),
        None => {},
    }
    push_str(out, "\n");
    proof {
        if iso8601_utc(p.started_at.secs, p.started_at.nanos) is None {
            assert(old(out)@ + Seq::<char>::empty() =~= old(out)@);
        }
    }
}

fn push_log_file(out: &mut String, p: &ProcessState)
    ensures
        final(out)@ == old(out)@ + log_file_line(*p),
{
    if !p.log_file.as_str().is_empty() {
        push_str(out, "Log file:     ");
        push_str(out, p.log_file.as_str());
        push_str(out, "\n");
    } else {
        proof {
            assert(old(out)@ + Seq::<char>::empty() =~= old(out)@);
        }
    }
}

fn push_exit(out: &mut String, p: &ProcessState)
    ensures
        final(out)@ == old(out)@ + exit_line(*p),
{
    match p.exit_code {
        Some(c) => {
            push_str(out, "Exit code:    ");
            push_str(out, i64_to_string(c as i64).as_str());
            push_str(out, "\n");
        },
        None => {
            proof {
                assert(old(out)@ + Seq::<char>::empty() =~= old(out)@);
            }
        },
    }
}

fn push_status(out: &mut String, ps: Option<&ProcessState>, alive: bool)
    ensures
        final(out)@ == old(out)@ + status_block(
            match ps {
                Some(p) => Some(*p),
                None => None,
            },
            alive,
        ),
{
    match ps {
        Some(p) => {
            let st = reconcile_status(Some(p), alive);
            let ghost o = out@;
            push_str(out, "Status:       ");
            push_str(out, status_str(st));
            push_str(out, "\n");
            let ghost a = out@;
            push_pid(out, p);
            push_started(out, p);
            push_log_file(out, p);
            push_exit(out, p);
            proof {
                assert(out@ =~= o + status_block(Some(*p), alive));
            }
        },
        None => push_str(out, "Status:       (never started)\n"),
    }
}

#[verifier::spinoff_prover]
#[verifier::rlimit(40)]
fn push_launch(out: &mut String, t: &RunTarget, shell: &str, root: &str)
    ensures
        final(out)@ == old(out)@ + launch_block(*t, shell@, root@),
{
    push_str(out, "Shell:        ");
    push_str(out, shell);
    push_str(out, " -l -c\n");
    push_str(out, "Command:      ");
    push_str(out, t.command.as_str());
    push_str(out, "\n");
    if t.args.len() > 0 {
        push_str(out, "Args:\n");
        push_bullets(out, &t.args);
    }
    push_str(out, "Shell line:   ");
    push_str(out, build_shell_cmd(t.command.as_str(), &t.args).as_str());
    push_str(out, "\n");
    push_str(out, "Workdir:      ");
    if t.workdir.as_str().is_empty() {
        push_str(out, root);
    } else {
        push_str(out, join_path(root, t.workdir.as_str()).as_str());
    }
    push_str(out, "\n");
}

fn push_otel(out: &mut String, t: &RunTarget, port: u16)
    ensures
        final(out)@ == old(out)@ + otel_block(*t, port),
{
    push_str(out, "OTel:         ");
    if t.otel {
        push_str(out, "true");
    } else {
        push_str(out, "false");
    }
    if t.otel && port != 0 {
        push_str(out, " (endpoint: ");
        push_str(out, endpoint_text(port).as_str());
        push_str(out, ")");
    }
    push_str(out, "\n");
}

fn push_env(out: &mut String, t: &RunTarget, port: u16)
    ensures
        final(out)@ == old(out)@ + env_block(*t, port),
{
    push_str(out, "Injected environment (parent env is inherited separately):\n");
    let envs = injected_vars(t, port);
    if envs.len() == 0 {
        push_str(out, "  (none)\n");
    } else {
        push_env_lines(out, &envs);
    }
}

fn push_cleanup(out: &mut String, t: &RunTarget)
    ensures
        final(out)@ == old(out)@ + cleanup_block(*t),
{
    if t.cleanup.len() > 0 {
        push_str(out, "\n");
        push_str(out, "Cleanup commands:\n");
        push_bullets(out, &t.cleanup);
    }
}

/// The summary of target `t`, given its recorded process state, whether
/// that process's PID is alive, the collector port, the project root and
/// the user's shell.
pub fn describe_target(
    t: &RunTarget,
    ps: Option<&ProcessState>,
    alive: bool,
    otel_port: u16,
    project_root: &str,
    shell: &str,
) -> (r: String)
    ensures
        r@ == describe_text(
            *t,
            match ps {
                Some(p) => Some(*p),
                None => None,
            },
            alive,
            otel_port,
            project_root@,
            shell@,
        ),
{
    let mut out = String::new();
    push_header(&mut out, t);
    push_status(&mut out, ps, alive);
    push_str(&mut out, "\n");
    push_launch(&mut out, t, shell, project_root);
    push_str(&mut out, "\n");
    push_otel(&mut out, t, otel_port);
    push_str(&mut out, "\n");
    push_env(&mut out, t, otel_port);
    push_cleanup(&mut out, t);
    proof {
        let p = match ps {
            Some(p) => Some(*p),
            None => None,
        };
        assert(out@ =~= describe_text(*t, p, alive, otel_port, project_root@, shell@));
    }
    out
}

/// The first target called `name`.
pub open spec fn first_target(ts: Seq<RunTarget>, name: Seq<char>, n: int) -> Option<int>
    decreases n,
{
    if n <= 0 {
        None
    } else {
        match first_target(ts, name, n - 1) {
            Some(i) => Some(i),
            None => if ts[n - 1].name@ == name {
                Some(n - 1)
            } else {
                None
            },
        }
    }
}

/// The position of the first target called `name`.
pub fn find_target(targets: &[RunTarget], name: &str) -> (r: Option<usize>)
    ensures
        match r {
            Some(i) => i < targets@.len() && first_target(targets@, name@, targets@.len() as int)
                == Some(i as int),
            None => first_target(targets@, name@, targets@.len() as int) is None,
        },
{
    let mut i: usize = 0;
    while i < targets.len()
        invariant
            i <= targets.len(),
            first_target(targets@, name@, i as int) is None,
        decreases targets.len() - i,
    {
        if str_eq(targets[i].name.as_str(), name) {
            proof {
                assert(first_target(targets@, name@, i as int + 1) == Some(i as int));
                lemma_first_target_stable(targets@, name@, i as int + 1, targets@.len() as int);
            }
            return Some(i);
        }
        i = i + 1;
    }
    None
}

proof fn lemma_first_target_stable(ts: Seq<RunTarget>, name: Seq<char>, k: int, n: int)
    requires
        k <= n,
        first_target(ts, name, k) is Some,
    ensures
        first_target(ts, name, n) == first_target(ts, name, k),
    decreases n - k,
{
    if k < n {
        lemma_first_target_stable(ts, name, k, n - 1);
    }
}

/// `Manager::describe`: the summary of the first target called `name`, or
/// an empty string when there is none. Whether the recorded PID is alive
/// is asked of the machine; the text is the summary for whichever answer
/// came back, and a record with no positive PID is always shown dead.
pub fn describe(
    targets: &[RunTarget],
    processes: &StrMap<ProcessState>,
    name: &str,
    otel_port: u16,
    project_root: &str,
    shell: &str,
) -> (r: String)
    ensures
        match first_target(targets@, name@, targets@.len() as int) {
            None => r@.len() == 0,
            Some(i) => {
                let ps = if processes@.contains_key(name@) {
                    Some(processes@[name@])
                } else {
                    None
                };
                ||| r@ == describe_text(targets@[i], ps, false, otel_port, project_root@, shell@)
                ||| (ps matches Some(p) && p.pid > 0 && r@ == describe_text(
                    targets@[i],
                    ps,
                    true,
                    otel_port,
                    project_root@,
                    shell@,
                ))
            },
        },
{
    let i = match find_target(targets, name) {
        Some(i) => i,
        None => return String::new(),
    };
    let ps = processes.get(name);
    let alive = is_alive(ps);
    let r = describe_target(&targets[i], ps, alive, otel_port, project_root, shell);
    proof {
        let pv = if processes@.contains_key(name@) {
            Some(processes@[name@])
        } else {
            None
        };
        assert(r@ == describe_text(targets@[i as int], pv, alive, otel_port, project_root@, shell@));
    }
    r
}


// ---------------------------------------------------------------------
// Starting a target
// ---------------------------------------------------------------------

/// How to launch a target: `program` with `args` (the user's shell, `-l
/// -c` and the escaped command line), in `workdir` when one is set, with
/// `env` set on top of the parent's environment, output going to
/// `log_file`.
#[derive(Debug)]
pub struct SpawnPlan {
    pub program: String,
    pub args: Vec<String>,
    pub workdir: Option<String>,
    pub env: Vec<(String, String)>,
    pub log_file: String,
}

/// The directory a target's commands run in, when it sets one.
pub open spec fn run_dir_of(t: RunTarget, root: Seq<char>) -> Option<Seq<char>> {
    if t.workdir@.len() == 0 {
        None
    } else {
        Some(joined_path(root, t.workdir@))
    }
}

/// The refusal for a target whose run file did not parse.
pub open spec fn config_error_text(t: RunTarget) -> Seq<char> {
    "target "@ + debug_quoted(t.name@) + " has a config error: "@ + t.parse_error@
}

/// The working directory for a target's commands, when it sets one.
pub fn target_workdir(t: &RunTarget, project_root: &str) -> (r: Option<String>)
    ensures
        opt_text(r) == run_dir_of(*t, project_root@),
{
    if t.workdir.as_str().is_empty() {
        None
    } else {
        Some(join_path(project_root, t.workdir.as_str()))
    }
}

/// How to launch `t`: refused when its run file did not parse; otherwise
/// the shell runs the escaped command line as a login shell, in the
/// target's workdir, logging to `<logs_dir>/<name>.log`. The child
/// inherits the environment `os_env`; on top of it are set, in order, the
/// project's `.env` pairs (`dotenv`, read at spawn time) whose keys
/// `os_env` lacks, then the target's own variables, then the collector
/// variables. `otel_port` is the collector's port (0 when there is none).
pub fn plan_spawn(
    t: &RunTarget,
    shell: &str,
    project_root: &str,
    logs_dir: &str,
    otel_port: u16,
    dotenv: &StrMap<String>,
    os_env: &StrMap<String>,
) -> (r: Result<SpawnPlan, String>)
    ensures
        match r {
            Err(e) => t.parse_error@.len() > 0 && e@ == config_error_text(*t),
            Ok(p) => {
                &&& t.parse_error@.len() == 0
                &&& p.program@ == shell@
                &&& views(p.args@) == seq!["-l"@, "-c"@, shell_line(t.command@, views(t.args@))]
                &&& opt_text(p.workdir) == run_dir_of(*t, project_root@)
                &&& pair_views(p.env@) == unset_pairs(dotenv.entries_view(), os_env@) + injected_env(
                    *t,
                    otel_port,
                )
                &&& p.log_file@ == joined_path(logs_dir@, t.name@ + ".log"@)
            },
        },
{
    if !t.parse_error.as_str().is_empty() {
        let mut e = "target ".to_owned();
        push_str(&mut e, debug_quote(t.name.as_str()).as_str());
        push_str(&mut e, " has a config error: ");
        push_str(&mut e, t.parse_error.as_str());
        return Err(e);
    }
    let mut args: Vec<String> = Vec::new();
    args.push("-l".to_owned());
    args.push("-c".to_owned());
    args.push(build_shell_cmd(t.command.as_str(), &t.args));
    proof {
        assert(views(args@) =~= seq!["-l"@, "-c"@, shell_line(t.command@, views(t.args@))]);
    }
    let mut env = dotenv_additions(dotenv, os_env);
    let own = injected_vars(t, otel_port);
    let ghost first = env@;
    let mut j: usize = 0;
    while j < own.len()
        invariant
            j <= own.len(),
            pair_views(env@) == pair_views(first) + pair_views(own@).take(j as int),
        decreases own.len() - j,
    {
        let ghost before = env@;
        let (k, v) = (own[j].0.clone(), own[j].1.clone());
        env.push((k, v));
        proof {
            assert(pair_views(env@) =~= pair_views(before).push((k@, v@)));
            assert(pair_views(own@).take(j as int + 1) =~= pair_views(own@).take(j as int).push((k@, v@)));
        }
        j = j + 1;
    }
    proof {
        assert(pair_views(own@).take(own.len() as int) =~= pair_views(own@));
    }
    let mut file_name = t.name.clone();
    push_str(&mut file_name, ".log");
    Ok(SpawnPlan {
        program: shell.to_owned(),
        args,
        workdir: target_workdir(t, project_root),
        env,
        log_file: join_path(logs_dir, file_name.as_str()),
    })
}

/// The recorded processes, in name order, that no target declares any
/// more (the collector aside, which is stopped on its own).
pub open spec fn orphans(entries: Seq<(Seq<char>, ProcessState)>, ts: Seq<RunTarget>) -> Seq<Seq<char>>
    decreases entries.len(),
{
    if entries.len() == 0 {
        Seq::empty()
    } else {
        let prev = orphans(entries.drop_last(), ts);
        let k = entries.last().0;
        if first_target(ts, k, ts.len() as int) is None && k != OTEL_TARGET_NAME@ {
            prev.push(k)
        } else {
            prev
        }
    }
}

/// The names of recorded processes whose target was deleted.
pub fn orphaned_process_names(targets: &[RunTarget], processes: &StrMap<ProcessState>) -> (r: Vec<String>)
    ensures
        views(r@) == orphans(processes.entries_view(), targets@),
{
    let mut r: Vec<String> = Vec::new();
    let mut i: usize = 0;
    while i < processes.len()
        invariant
            i <= processes.entries_view().len(),
            views(r@) == orphans(processes.entries_view().take(i as int), targets@),
        decreases processes.entries_view().len() - i,
    {
        let k = processes.key_at(i);
        let ghost before = r@;
        proof {
            assert(processes.entries_view().take(i as int + 1).drop_last() =~= processes.entries_view().take(
                i as int,
            ));
        }
        if find_target(targets, k.as_str()).is_none() && !str_eq(k.as_str(), OTEL_TARGET_NAME) {
            r.push(k.clone());
            proof {
                assert(views(r@) =~= views(before).push(k@));
            }
        }
        i = i + 1;
    }
    proof {
        assert(processes.entries_view().take(processes.entries_view().len() as int) =~= processes.entries_view());
    }
    r
}

/// What `stop_all` stops, in order: every target, then every recorded
/// process whose target was deleted. (A recorded collector is stopped
/// after these.)
pub fn stop_all_names(targets: &[RunTarget], processes: &StrMap<ProcessState>) -> (r: Vec<String>)
    ensures
        views(r@) == targets@.map_values(|t: RunTarget| t.name@) + orphans(processes.entries_view(), targets@),
{
    let mut r = names_of(targets);
    let extra = orphaned_process_names(targets, processes);
    let ghost first = r@;
    let mut j: usize = 0;
    while j < extra.len()
        invariant
            j <= extra.len(),
            views(r@) == views(first) + views(extra@).take(j as int),
        decreases extra.len() - j,
    {
        let ghost before = r@;
        let n = extra[j].clone();
        r.push(n);
        proof {
            assert(views(r@) =~= views(before).push(extra@[j as int]@));
            assert(views(extra@).take(j as int + 1) =~= views(extra@).take(j as int).push(extra@[j as int]@));
        }
        j = j + 1;
    }
    proof {
        assert(views(extra@).take(extra.len() as int) =~= views(extra@));
    }
    r
}

/// Whether a record shows a process running now, given whether its PID is
/// alive: the record is `Running` with a positive PID that is alive.
pub open spec fn running_spec(ps: Option<&ProcessState>, alive: bool) -> bool {
    ps matches Some(p) && p.status == Status::Running && p.pid > 0 && alive
}

/// Liveness the machine can report for a record: only a record with a
/// positive PID can be alive.
pub open spec fn possible_alive(ps: Option<&ProcessState>, alive: bool) -> bool {
    alive ==> (ps matches Some(p) && p.pid > 0)
}

/// Whether `ps` records a process that is running now, given whether its
/// PID is alive (`alive`).
pub fn running_now(ps: Option<&ProcessState>, alive: bool) -> (r: bool)
    ensures
        r == running_spec(ps, alive),
{
    match ps {
        Some(p) => p.status == Status::Running && p.pid > 0 && alive,
        None => false,
    }
}

/// Whether `ps` records a process that is running now. Whether the PID is
/// alive is asked of the machine (only for a `Running` record); the answer
/// is `running_now` for what came back.
pub fn already_running(ps: Option<&ProcessState>) -> (r: bool)
    ensures
        exists|alive: bool| possible_alive(ps, alive) && r == #[trigger] running_spec(ps, alive),
{
    let alive = match ps {
        Some(p) => if p.status == Status::Running {
            is_alive(Some(p))
        } else {
            false
        },
        None => false,
    };
    let r = running_now(ps, alive);
    assert(possible_alive(ps, alive) && r == running_spec(ps, alive));
    r
}

/// What starting a target comes to, checked in this order: a run file that
/// did not parse is refused; a target whose recorded process still runs
/// is left alone; anything else is spawned.
pub enum StartCheck {
    ConfigError(String),
    AlreadyRunning,
    Spawn,
}

/// The decision `start` makes for `t`, whose record is `ps`, given whether
/// the recorded PID is alive.
pub open spec fn start_decided(t: RunTarget, ps: Option<&ProcessState>, alive: bool, r: StartCheck) -> bool {
    if t.parse_error@.len() > 0 {
        r matches StartCheck::ConfigError(e) && e@ == config_error_text(t)
    } else if running_spec(ps, alive) {
        r is AlreadyRunning
    } else {
        r is Spawn
    }
}

/// The checks `start` makes before spawning `t`, given whether the
/// recorded PID is alive (`alive`).
pub fn start_decision(t: &RunTarget, ps: Option<&ProcessState>, alive: bool) -> (r: StartCheck)
    ensures
        start_decided(*t, ps, alive, r),
{
    if !t.parse_error.as_str().is_empty() {
        let mut e = "target ".to_owned();
        push_str(&mut e, debug_quote(t.name.as_str()).as_str());
        push_str(&mut e, " has a config error: ");
        push_str(&mut e, t.parse_error.as_str());
        return StartCheck::ConfigError(e);
    }
    if running_now(ps, alive) {
        StartCheck::AlreadyRunning
    } else {
        StartCheck::Spawn
    }
}

/// The checks `start` makes before spawning `t`, whose record is `ps`.
/// Whether a `Running` record's PID is alive is asked of the machine (and
/// only when the run file parsed); the result is `start_decision` for what
/// came back.
pub fn start_check(t: &RunTarget, ps: Option<&ProcessState>) -> (r: StartCheck)
    ensures
        exists|alive: bool| possible_alive(ps, alive) && #[trigger] start_decided(*t, ps, alive, r),
{
    let alive = if t.parse_error.as_str().is_empty() {
        match ps {
            Some(p) => if p.status == Status::Running {
                is_alive(Some(p))
            } else {
                false
            },
            None => false,
        }
    } else {
        false
    };
    let r = start_decision(t, ps, alive);
    assert(possible_alive(ps, alive) && start_decided(*t, ps, alive, r));
    r
}

/// The record written when a target has just been spawned.
pub fn started_record(name: &str, pid: i32, log_file: &str, started_at: crate::state::Timestamp) -> (r:
    ProcessState)
    ensures
        r.name@ == name@,
        r.pid == pid,
        r.log_file@ == log_file@,
        r.started_at == started_at,
        r.status == Status::Running,
        r.exit_code is None,
{
    ProcessState {
        name: name.to_owned(),
        pid,
        log_file: log_file.to_owned(),
        started_at,
        status: Status::Running,
        exit_code: None,
    }
}

/// The names of the targets that `start_all` starts, in order: those whose
/// run file parsed and that take part in bulk starts.
pub open spec fn start_all_names(ts: Seq<RunTarget>) -> Seq<Seq<char>>
    decreases ts.len(),
{
    if ts.len() == 0 {
        Seq::empty()
    } else {
        let p = start_all_names(ts.drop_last());
        if ts.last().parse_error@.len() == 0 && ts.last().autorun {
            p.push(ts.last().name@)
        } else {
            p
        }
    }
}

pub fn names_to_start(targets: &[RunTarget]) -> (r: Vec<String>)
    ensures
        views(r@) == start_all_names(targets@),
{
    let mut r: Vec<String> = Vec::new();
    let mut i: usize = 0;
    while i < targets.len()
        invariant
            i <= targets.len(),
            views(r@) == start_all_names(targets@.take(i as int)),
        decreases targets.len() - i,
    {
        proof {
            let t = targets@.take(i as int + 1);
            assert(t.drop_last() =~= targets@.take(i as int));
        }
        if targets[i].parse_error.as_str().is_empty() && targets[i].autorun {
            let ghost before = r@;
            r.push(targets[i].name.clone());
            proof {
                assert(views(r@) =~= views(before).push(targets@[i as int].name@));
            }
        }
        i = i + 1;
    }
    proof {
        assert(targets@.take(targets.len() as int) =~= targets@);
    }
    r
}

/// The names of all targets, in order.
pub fn names_of(targets: &[RunTarget]) -> (r: Vec<String>)
    ensures
        views(r@) == targets@.map_values(|t: RunTarget| t.name@),
{
    let mut r: Vec<String> = Vec::new();
    let mut i: usize = 0;
    while i < targets.len()
        invariant
            i <= targets.len(),
            views(r@) == targets@.take(i as int).map_values(|t: RunTarget| t.name@),
        decreases targets.len() - i,
    {
        let ghost before = r@;
        r.push(targets[i].name.clone());
        proof {
            assert(views(r@) =~= views(before).push(targets@[i as int].name@));
            assert(targets@.take(i as int + 1).map_values(|t: RunTarget| t.name@)
                =~= targets@.take(i as int).map_values(|t: RunTarget| t.name@).push(
                targets@[i as int].name@,
            ));
        }
        i = i + 1;
    }
    proof {
        assert(targets@.take(targets.len() as int) =~= targets@);
    }
    r
}

/// The error for a name that no target has.
pub fn unknown_target_error(name: &str) -> (r: String)
    ensures
        r@ == "unknown target: "@ + debug_quoted(name@),
{
    let mut e = "unknown target: ".to_owned();
    push_str(&mut e, debug_quote(name).as_str());
    e
}

/// `start_all`'s error for one target: `start <name>: <error>`.
pub fn start_failure(name: &str, err: &str) -> (r: String)
    ensures
        r@ == "start "@ + name@ + ": "@ + err@,
{
    let mut e = "start ".to_owned();
    push_str(&mut e, name);
    push_str(&mut e, ": ");
    push_str(&mut e, err);
    e
}

// ---------------------------------------------------------------------
// Process records
// ---------------------------------------------------------------------

/// A copy of a process record.
pub fn copy_record(p: &ProcessState) -> (r: ProcessState)
    ensures
        r == *p,
{
    ProcessState {
        name: p.name.clone(),
        pid: p.pid,
        log_file: p.log_file.clone(),
        started_at: p.started_at,
        status: p.status,
        exit_code: p.exit_code,
    }
}

/// Marks the process `name` stopped, if there is a record of it.
pub fn mark_stopped(processes: &mut StrMap<ProcessState>, name: &str)
    ensures
        final(processes)@ == (if old(processes)@.contains_key(name@) {
            old(processes)@.insert(
                name@,
                ProcessState { status: Status::Stopped, ..old(processes)@[name@] },
            )
        } else {
            old(processes)@
        }),
{
    proof {
        use_type_invariant(&*processes);
        processes.lemma_entries();
    }
    match processes.find(name) {
        Some(i) => {
            let mut ps = copy_record(processes.value_at(i));
            ps.status = Status::Stopped;
            processes.set_value_at(i, ps);
        },
        None => {},
    }
}

/// How a child's wait ended.
#[derive(Debug, Clone, Copy)]
pub enum ExitReport {
    /// It exited: whether successfully, and its code when it had one
    /// (none when a signal killed it).
    Exited { success: bool, code: Option<i32> },
    /// Waiting on it failed.
    WaitFailed,
}

/// The record after the process exited: a `Running` record becomes
/// `Stopped` on success and `Failed` otherwise (a stop already recorded
/// wins), and the exit code is kept, -1 when there was none.
pub open spec fn reaped(p: ProcessState, e: ExitReport) -> ProcessState {
    let (st, code) = match e {
        ExitReport::Exited { success, code } => (
            if success {
                Status::Stopped
            } else {
                Status::Failed
            },
            match code {
                Some(c) => c,
                None => -1i32,
            },
        ),
        ExitReport::WaitFailed => (Status::Stopped, -1i32),
    };
    ProcessState {
        status: if p.status == Status::Running {
            st
        } else {
            p.status
        },
        exit_code: Some(code),
        ..p
    }
}

/// How a running process's exit is recorded: a clean exit leaves it
/// `Stopped`, an unsuccessful one `Failed`, a failed wait `Stopped`; the
/// exit code is kept (-1 when there was none); every other field of the
/// record stays as it was. A record that is no longer `Running` keeps its
/// status.
pub proof fn lemma_exit_status(p: ProcessState, success: bool, code: Option<i32>)
    ensures
        p.status == Status::Running ==> reaped(p, ExitReport::Exited { success, code }).status == (if success {
            Status::Stopped
        } else {
            Status::Failed
        }),
        p.status == Status::Running ==> reaped(p, ExitReport::WaitFailed).status == Status::Stopped,
        p.status != Status::Running ==> reaped(p, ExitReport::Exited { success, code }).status == p.status,
        reaped(p, ExitReport::Exited { success, code }).exit_code == Some(
            match code {
                Some(c) => c,
                None => -1i32,
            },
        ),
        reaped(p, ExitReport::Exited { success, code }).pid == p.pid,
        reaped(p, ExitReport::Exited { success, code }).name == p.name,
        reaped(p, ExitReport::Exited { success, code }).log_file == p.log_file,
        reaped(p, ExitReport::Exited { success, code }).started_at == p.started_at,
{
}

/// Records how the process `name` exited, if there is a record of it.
pub fn record_exit(processes: &mut StrMap<ProcessState>, name: &str, e: ExitReport)
    ensures
        final(processes)@ == (if old(processes)@.contains_key(name@) {
            old(processes)@.insert(name@, reaped(old(processes)@[name@], e))
        } else {
            old(processes)@
        }),
{
    proof {
        use_type_invariant(&*processes);
        processes.lemma_entries();
    }
    match processes.find(name) {
        Some(i) => {
            let mut ps = copy_record(processes.value_at(i));
            let (st, code) = match e {
                ExitReport::Exited { success, code } => (
                    if success {
                        Status::Stopped
                    } else {
                        Status::Failed
                    },
                    match code {
                        Some(c) => c,
                        None => -1,
                    },
                ),
                ExitReport::WaitFailed => (Status::Stopped, -1),
            };
            if ps.status == Status::Running {
                ps.status = st;
            }
            ps.exit_code = Some(code);
            processes.set_value_at(i, ps);
        },
        None => {},
    }
}

/// The status of every recorded process, as shown to the user: a `Running`
/// record whose PID the machine no longer has reads `Stopped`. Which PIDs
/// are alive is asked of the machine, so of a `Running` record only that
/// it reads `Running` or `Stopped` is stated.
pub fn all_statuses(processes: &StrMap<ProcessState>) -> (r: StrMap<Status>)
    ensures
        r@.dom() == processes@.dom(),
        forall|k: Seq<char>| #[trigger]
            r@.contains_key(k) ==> {
                let p = processes@[k];
                if p.status == Status::Running {
                    r@[k] == Status::Running || r@[k] == Status::Stopped
                } else {
                    r@[k] == p.status
                }
            },
{
    proof {
        use_type_invariant(processes);
        processes.lemma_entries();
    }
    let mut r: StrMap<Status> = StrMap::new();
    let mut i: usize = 0;
    while i < processes.len()
        invariant
            i <= processes.entries_view().len(),
            forall|k: Seq<char>| #[trigger]
                r@.contains_key(k) <==> exists|j: int|
                    0 <= j < i && processes.entries_view()[j].0 == k,
            forall|k: Seq<char>| #[trigger]
                r@.contains_key(k) ==> {
                    let p = processes@[k];
                    if p.status == Status::Running {
                        r@[k] == Status::Running || r@[k] == Status::Stopped
                    } else {
                        r@[k] == p.status
                    }
                },
            forall|k: Seq<char>| #[trigger]
                processes@.contains_key(k) <==> exists|j: int|
                    0 <= j < processes.entries_view().len() && processes.entries_view()[j].0 == k,
            forall|j: int|
                0 <= j < processes.entries_view().len() ==> #[trigger] processes@[processes.entries_view()[j].0]
                    == processes.entries_view()[j].1,
        decreases processes.entries_view().len() - i,
    {
        let p = processes.value_at(i);
        let st = reconcile_status(Some(p), is_alive(Some(p)));
        let k = processes.key_at(i).clone();
        proof {
            assert(processes@[k@] == *p);
        }
        r.insert(k, st);
        proof {
            assert forall|kk: Seq<char>| #[trigger]
                r@.contains_key(kk) <==> exists|j: int|
                    0 <= j < i + 1 && processes.entries_view()[j].0 == kk by {
                if kk == k@ {
                    assert(processes.entries_view()[i as int].0 == kk);
                }
                if exists|j: int| 0 <= j < i + 1 && processes.entries_view()[j].0 == kk {
                    let j = choose|j: int| 0 <= j < i + 1 && processes.entries_view()[j].0 == kk;
                    if j < i {
                    } else {
                        assert(kk == k@);
                    }
                }
            }
        }
        i = i + 1;
    }
    proof {
        assert(r@.dom() =~= processes@.dom());
    }
    r
}

// ---------------------------------------------------------------------
// Cleanup commands
// ---------------------------------------------------------------------

/// What a failed cleanup command leaves in the target's log: the command
/// and its exit code (-1 when a signal ended it), then its stdout and
/// stderr each on lines of their own, trailing whitespace trimmed.
pub open spec fn cleanup_exit_text(
    name: Seq<char>,
    cmd: Seq<char>,
    code: Option<i32>,
    stdout: Seq<u8>,
    stderr: Seq<u8>,
) -> Seq<char> {
    crate::text::trim_end(
        "cleanup "@ + name + ": "@ + debug_quoted(cmd) + ": exit status "@ + decimal(
            match code {
                Some(c) => c as int,
                None => -1,
            },
        ) + (if stdout.len() > 0 {
            "\n"@ + crate::fmt::utf8_lossy(stdout)
        } else {
            Seq::empty()
        }) + (if stderr.len() > 0 {
            "\n"@ + crate::fmt::utf8_lossy(stderr)
        } else {
            Seq::empty()
        }),
    )
}

/// The log line for a cleanup command that could not be started at all.
pub fn cleanup_spawn_failure(name: &str, cmd: &str, err: &str) -> (r: String)
    ensures
        r@ == "cleanup "@ + name@ + ": "@ + debug_quoted(cmd@) + ": "@ + err@,
{
    let mut m = "cleanup ".to_owned();
    push_str(&mut m, name);
    push_str(&mut m, ": ");
    push_str(&mut m, debug_quote(cmd).as_str());
    push_str(&mut m, ": ");
    push_str(&mut m, err);
    m
}

/// The line appended to a target's log file when its process exits: the
/// time it exited (`when`, as the caller formatted it) and its exit code.
pub fn exit_marker(when: &str, code: i32) -> (r: String)
    ensures
        r@ == "\n(Process exited at "@ + when@ + ", exit code: "@ + decimal(code as int) + ")\n"@,
{
    let mut m = "\n(Process exited at ".to_owned();
    push_str(&mut m, when);
    push_str(&mut m, ", exit code: ");
    push_str(&mut m, i64_to_string(code as i64).as_str());
    push_str(&mut m, ")\n");
    m
}

pub fn cleanup_exit_message(name: &str, cmd: &str, code: Option<i32>, stdout: &Vec<u8>, stderr: &Vec<u8>) -> (r:
    String)
    ensures
        r@ == cleanup_exit_text(name@, cmd@, code, stdout@, stderr@),
{
    let mut m = "cleanup ".to_owned();
    push_str(&mut m, name);
    push_str(&mut m, ": ");
    push_str(&mut m, debug_quote(cmd).as_str());
    push_str(&mut m, ": exit status ");
    let c: i64 = match code {
        Some(c) => c as i64,
        None => -1,
    };
    push_str(&mut m, i64_to_string(c).as_str());
    if stdout.len() > 0 {
        push_str(&mut m, "\n");
        push_str(&mut m, crate::fmt::decode_lossy(stdout.as_slice()).as_str());
    }
    if stderr.len() > 0 {
        push_str(&mut m, "\n");
        push_str(&mut m, crate::fmt::decode_lossy(stderr.as_slice()).as_str());
    }
    proof {
        assert(m@ =~= "cleanup "@ + name@ + ": "@ + debug_quoted(cmd@) + ": exit status "@ + decimal(
            c as int,
        ) + (if stdout@.len() > 0 {
            "\n"@ + crate::fmt::utf8_lossy(stdout@)
        } else {
            Seq::empty()
        }) + (if stderr@.len() > 0 {
            "\n"@ + crate::fmt::utf8_lossy(stderr@)
        } else {
            Seq::empty()
        }));
    }
    let v = chars_of(m.as_str());
    let t = crate::text::trimmed_end(&v);
    crate::text::string_of(&t)
}


// ---------------------------------------------------------------------
// The OTel collector
// ---------------------------------------------------------------------

/// The port a persisted `otel-port` file names: its trimmed text as a
/// `u16`, or 0 when that does not parse.
pub fn parse_port_file(data: &str) -> (r: u16)
    ensures
        r == (match parse_u16(trim(data@)) {
            Some(p) => p,
            None => 0,
        }),
{
    let v = chars_of(data);
    let t = trimmed(&v);
    match parse_u16_chars(&t) {
        Some(p) => p,
        None => 0,
    }
}

/// Whether a persisted collector port can be used again, given whether it
/// is free to bind now and whether the recorded collector is alive (so that
/// what holds the port is ours).
pub open spec fn reusable_spec(bindable: bool, alive: bool) -> bool {
    bindable || alive
}

/// Whether a persisted collector port can be used again, given both
/// answers.
pub fn port_reusable_given(bindable: bool, alive: bool) -> (r: bool)
    ensures
        r == reusable_spec(bindable, alive),
{
    bindable || alive
}

/// Whether a persisted collector port can be used again: it is free to
/// bind now (`bindable`, asked of the machine by the caller), or the
/// collector recorded in `processes` is alive. Whether its PID is alive is
/// asked of the machine (only when the port is taken); the answer is
/// `port_reusable_given` for what came back.
pub fn saved_port_reusable(bindable: bool, processes: &StrMap<ProcessState>) -> (r: bool)
    ensures
        exists|alive: bool|
            (alive ==> processes@.contains_key(OTEL_TARGET_NAME@) && processes@[OTEL_TARGET_NAME@].pid > 0)
                && r == #[trigger] reusable_spec(bindable, alive),
{
    let alive = if bindable {
        false
    } else {
        is_alive(processes.get(OTEL_TARGET_NAME))
    };
    let r = port_reusable_given(bindable, alive);
    assert(r == reusable_spec(bindable, alive));
    r
}

/// The collector port `set_otel_config` settles on, and whether it is
/// written back to the port file: an explicit port wins; else the
/// previously persisted port, when there is one and it can be reused;
/// else a freshly allocated one; else the protocol's well-known port
/// (4318 for `http`, 4317 otherwise).
pub open spec fn chosen_port(
    requested: u16,
    previous: u16,
    previous_reusable: bool,
    allocated: Option<u16>,
    protocol: Seq<char>,
) -> (u16, bool) {
    if requested != 0 {
        (requested, true)
    } else if previous != 0 && previous_reusable {
        (previous, false)
    } else {
        match allocated {
            Some(p) => (p, true),
            None => (
                if protocol == "http"@ {
                    4318u16
                } else {
                    4317u16
                },
                true,
            ),
        }
    }
}

pub fn choose_otel_port(
    requested: u16,
    previous: u16,
    previous_reusable: bool,
    allocated: Option<u16>,
    protocol: &str,
) -> (r: (u16, bool))
    ensures
        r == chosen_port(requested, previous, previous_reusable, allocated, protocol@),
{
    if requested != 0 {
        (requested, true)
    } else if previous != 0 && previous_reusable {
        (previous, false)
    } else {
        match allocated {
            Some(p) => (p, true),
            None => (
                if str_eq(protocol, "http") {
                    4318
                } else {
                    4317
                },
                true,
            ),
        }
    }
}

/// The virtual `otel-errors` target: the running executable's
/// `otel-collector` subcommand with the configured protocol, severity,
/// port and notify socket.
pub open spec fn otel_target_ok(t: RunTarget, exe: Seq<char>, cfg: OtelConfig, socket: Seq<char>) -> bool {
    &&& t.name@ == OTEL_TARGET_NAME@
    &&& t.description@ == "OpenTelemetry error collector"@
    &&& t.is_virtual
    &&& t.command@ == exe
    &&& views(t.args@) == seq![
        "otel-collector"@,
        "--protocol"@,
        cfg.protocol@,
        "--severity"@,
        cfg.severity@,
        "--port"@,
        decimal_nat(cfg.port as nat),
        "--notify-socket"@,
        socket,
    ]
    &&& t.workdir@.len() == 0
    &&& t.env@ == Map::<Seq<char>, String>::empty()
    &&& t.cleanup@.len() == 0
    &&& !t.otel
    &&& t.autorun
    &&& t.group@.len() == 0
    &&& t.parse_error@.len() == 0
    &&& t.source_file@.len() == 0
}

pub fn build_otel_target(exe: &str, cfg: &OtelConfig, socket: &str) -> (t: RunTarget)
    ensures
        otel_target_ok(t, exe@, *cfg, socket@),
{
    let mut args: Vec<String> = Vec::new();
    args.push("otel-collector".to_owned());
    args.push("--protocol".to_owned());
    args.push(cfg.protocol.clone());
    args.push("--severity".to_owned());
    args.push(cfg.severity.clone());
    args.push("--port".to_owned());
    args.push(u64_to_string(cfg.port as u64));
    args.push("--notify-socket".to_owned());
    args.push(socket.to_owned());
    let mut t = crate::target::named_target(OTEL_TARGET_NAME.to_owned());
    t.description = "OpenTelemetry error collector".to_owned();
    t.is_virtual = true;
    t.command = exe.to_owned();
    t.args = args;
    proof {
        assert(views(t.args@) =~= seq![
            "otel-collector"@,
            "--protocol"@,
            cfg.protocol@,
            "--severity"@,
            cfg.severity@,
            "--port"@,
            decimal_nat(cfg.port as nat),
            "--notify-socket"@,
            socket@,
        ]);
    }
    t
}

/// The `otel-errors` entry for display: the full target when the running
/// executable's path and the OTel configuration are both known, else a
/// stub with no command.
pub fn virtual_otel_target(exe: Option<&str>, cfg: Option<&OtelConfig>, socket: &str) -> (t: RunTarget)
    ensures
        match (exe, cfg) {
            (Some(e), Some(c)) => otel_target_ok(t, e@, *c, socket@),
            _ => {
                &&& t.name@ == OTEL_TARGET_NAME@
                &&& t.description@ == "OpenTelemetry error collector"@
                &&& t.is_virtual
                &&& t.command@.len() == 0
                &&& t.args@.len() == 0
            },
        },
{
    match (exe, cfg) {
        (Some(e), Some(c)) => build_otel_target(e, c, socket),
        _ => {
            let mut t = crate::target::named_target(OTEL_TARGET_NAME.to_owned());
            t.description = "OpenTelemetry error collector".to_owned();
            t.is_virtual = true;
            t
        },
    }
}

/// `targets` with `t` in place of the first target of the same name, or
/// `t` appended when there is none.
pub open spec fn upserted(ts: Seq<RunTarget>, t: RunTarget) -> Seq<RunTarget> {
    match first_target(ts, t.name@, ts.len() as int) {
        Some(i) => ts.update(i, t),
        None => ts.push(t),
    }
}

pub fn upsert_target(targets: &mut Vec<RunTarget>, t: RunTarget)
    ensures
        final(targets)@ == upserted(old(targets)@, t),
{
    match find_target(targets.as_slice(), t.name.as_str()) {
        Some(i) => {
            targets.set(i, t);
        },
        None => {
            targets.push(t);
        },
    }
}

/// The `otel: true` targets (other than the collector) with a `Running`
/// record whose process is alive (`alive[i]` for `ts[i]`): their names in
/// list order.
pub open spec fn otel_restart_names(
    ts: Seq<RunTarget>,
    procs: Map<Seq<char>, ProcessState>,
    alive: Seq<bool>,
) -> Seq<Seq<char>>
    decreases ts.len(),
{
    if ts.len() == 0 {
        Seq::empty()
    } else {
        let k = ts.len() - 1;
        let prev = otel_restart_names(ts.drop_last(), procs, alive.take(k));
        let n = ts[k].name@;
        if ts[k].otel && n != OTEL_TARGET_NAME@ && procs.contains_key(n) && procs[n].status
            == Status::Running && alive[k] {
            prev.push(n)
        } else {
            prev
        }
    }
}

/// The targets that may need a restart to pick up a new collector
/// endpoint, given which of the targets' processes are alive.
pub fn otel_restart_names_given(targets: &[RunTarget], processes: &StrMap<ProcessState>, alive: &Vec<bool>) -> (r:
    Vec<String>)
    requires
        alive@.len() == targets@.len(),
    ensures
        views(r@) == otel_restart_names(targets@, processes@, alive@),
{
    let mut r: Vec<String> = Vec::new();
    let mut i: usize = 0;
    while i < targets.len()
        invariant
            i <= targets.len(),
            alive@.len() == targets@.len(),
            views(r@) == otel_restart_names(targets@.take(i as int), processes@, alive@.take(i as int)),
        decreases targets.len() - i,
    {
        let t = &targets[i];
        let ghost before = r@;
        proof {
            assert(targets@.take(i as int + 1).drop_last() =~= targets@.take(i as int));
            assert(alive@.take(i as int + 1).take(i as int) =~= alive@.take(i as int));
        }
        if t.otel && !str_eq(t.name.as_str(), OTEL_TARGET_NAME) && alive[i] {
            match processes.get(t.name.as_str()) {
                Some(ps) => {
                    if ps.status == Status::Running {
                        r.push(t.name.clone());
                        assert(views(r@) =~= views(before).push(t.name@));
                    }
                },
                None => {},
            }
        }
        i = i + 1;
    }
    proof {
        assert(targets@.take(targets@.len() as int) =~= targets@);
        assert(alive@.take(alive@.len() as int) =~= alive@);
    }
    r
}

/// Whether `alive` could be what the machine reported for `ts`: a process
/// is only ever alive under a record with a positive PID.
pub open spec fn possible_liveness(ts: Seq<RunTarget>, procs: Map<Seq<char>, ProcessState>, alive: Seq<
    bool,
>) -> bool {
    &&& alive.len() == ts.len()
    &&& forall|i: int|
        0 <= i < ts.len() && #[trigger] alive[i] ==> procs.contains_key(ts[i].name@) && procs[ts[i].name@].pid
            > 0
}

/// Running `otel: true` targets (other than the collector) that may need a
/// restart to pick up a new collector endpoint: their names in list order.
/// Which recorded PIDs are alive is asked of the machine; the result is
/// `otel_restart_names` for what it answered.
pub fn running_otel_targets(targets: &[RunTarget], processes: &StrMap<ProcessState>) -> (r: Vec<String>)
    ensures
        exists|alive: Seq<bool>|
            possible_liveness(targets@, processes@, alive) && views(r@) == #[trigger] otel_restart_names(
                targets@,
                processes@,
                alive,
            ),
{
    let mut alive: Vec<bool> = Vec::new();
    let mut i: usize = 0;
    while i < targets.len()
        invariant
            i <= targets.len(),
            alive@.len() == i,
            forall|j: int|
                0 <= j < i && #[trigger] alive@[j] ==> processes@.contains_key(targets@[j].name@)
                    && processes@[targets@[j].name@].pid > 0,
        decreases targets.len() - i,
    {
        let a = is_alive(processes.get(targets[i].name.as_str()));
        alive.push(a);
        i = i + 1;
    }
    let r = otel_restart_names_given(targets, processes, &alive);
    assert(possible_liveness(targets@, processes@, alive@));
    r
}

/// What `ensure_otel_collector` does.
pub enum CollectorStep {
    /// No collector is wanted: no OTel settings, or no `otel: true` target.
    Skip,
    /// The recorded collector still runs: its target is listed again and
    /// it is left alone.
    Reattach,
    /// A collector is started; first on a fresh port when `switch_port`
    /// (the configured one is taken by someone else).
    Start { switch_port: bool },
}

/// The decision `ensure_otel_collector` makes: nothing without OTel
/// settings (`has_cfg`) or an `otel: true` target (`any_otel`); a live
/// recorded collector (`alive`) is kept; otherwise one is started, on a
/// fresh port when the configured one cannot be bound (`bindable`).
pub fn collector_step(has_cfg: bool, any_otel: bool, alive: bool, bindable: bool) -> (r: CollectorStep)
    ensures
        !(has_cfg && any_otel) <==> r is Skip,
        (has_cfg && any_otel && alive) <==> r is Reattach,
        r matches CollectorStep::Start { switch_port } ==> switch_port == !bindable,
{
    if !(has_cfg && any_otel) {
        CollectorStep::Skip
    } else if alive {
        CollectorStep::Reattach
    } else {
        CollectorStep::Start { switch_port: !bindable }
    }
}

/// Whether the running `otel: true` targets must be restarted after the
/// collector started on `effective`: when that differs from the port
/// persisted before (`previous`) or the one configured (`configured`).
pub fn otel_targets_need_restart(previous: u16, configured: u16, effective: u16) -> (r: bool)
    ensures
        r == (previous != effective || configured != effective),
{
    previous != effective || configured != effective
}

/// The note left when the persisted collector port was taken.
pub fn port_switch_note(old_port: u16, new_port: u16) -> (r: String)
    ensures
        r@ == "otel-errors: previous port "@ + decimal_nat(old_port as nat)
            + " is no longer available; switching to "@ + decimal_nat(new_port as nat),
{
    let mut m = "otel-errors: previous port ".to_owned();
    push_str(&mut m, u64_to_string(old_port as u64).as_str());
    push_str(&mut m, " is no longer available; switching to ");
    push_str(&mut m, u64_to_string(new_port as u64).as_str());
    m
}

/// The note left in a target's log when it is restarted for a new
/// collector endpoint.
pub fn restart_note(name: &str) -> (r: String)
    ensures
        r@ == "otel-errors: restarting "@ + name@ + " to pick up new collector endpoint"@,
{
    let mut m = "otel-errors: restarting ".to_owned();
    push_str(&mut m, name);
    push_str(&mut m, " to pick up new collector endpoint");
    m
}

/// The note left when such a restart fails.
pub fn restart_failure_note(name: &str, err: &str) -> (r: String)
    ensures
        r@ == "otel-errors: restart "@ + name@ + ": "@ + err@,
{
    let mut m = "otel-errors: restart ".to_owned();
    push_str(&mut m, name);
    push_str(&mut m, ": ");
    push_str(&mut m, err);
    m
}

// ---------------------------------------------------------------------
// Stopping a target
// ---------------------------------------------------------------------

#[derive(Debug, Clone, Copy, PartialEq, Eq, Structural)]
pub enum Sig {
    Term,
    Kill,
}

/// What sending a signal came to.
#[derive(Debug)]
pub enum SignalOutcome {
    Sent,
    /// `ESRCH`: nothing by that PID.
    NoSuchProcess,
    Failed(String),
}

/// Where a stop stands.
#[derive(Debug, Clone, Copy, PartialEq, Eq, Structural)]
pub enum StopState {
    /// Nothing done yet.
    Begin,
    /// SIGTERM sent to the process group.
    TermToGroup(i32),
    /// The group could not be signalled; SIGTERM sent to the leader.
    TermToLeader(i32),
    /// Waiting up to five seconds for the group to drain.
    Draining(i32),
    KillToGroup(i32),
    KillToLeader(i32),
    /// Waiting up to two seconds for the killed group to go.
    Reaping(i32),
    Finished,
    Failed,
}

/// What the caller observed.
#[derive(Debug)]
pub enum StopEvent {
    /// The recorded PID of the target, if it has a record.
    Recorded(Option<i32>),
    Signalled(SignalOutcome),
    /// Whether the group was gone before the wait ran out.
    Drained(bool),
}

/// What the caller does next.
#[derive(Debug, PartialEq, Eq)]
pub enum StopAction {
    SignalGroup(i32, Sig),
    SignalLeader(i32, Sig),
    /// Poll the group every so often for up to this many seconds.
    AwaitDrain(i32, u64),
    /// Mark the record stopped and run the cleanup commands; the stop
    /// succeeded.
    Finish,
    /// The stop failed with this message.
    Fail(String),
}

/// Whether `ev` answers the action that led to `s`.
pub open spec fn stop_event_fits(s: StopState, ev: StopEvent) -> bool {
    match s {
        StopState::Begin => ev is Recorded,
        StopState::TermToGroup(_) | StopState::TermToLeader(_) | StopState::KillToGroup(_)
        | StopState::KillToLeader(_) => ev is Signalled,
        StopState::Draining(_) | StopState::Reaping(_) => ev is Drained,
        _ => false,
    }
}

pub enum StopActionV {
    SignalGroup(i32, Sig),
    SignalLeader(i32, Sig),
    AwaitDrain(i32, u64),
    Finish,
    Fail(Seq<char>),
}

impl View for StopAction {
    type V = StopActionV;

    open spec fn view(&self) -> StopActionV {
        match self {
            StopAction::SignalGroup(p, s) => StopActionV::SignalGroup(*p, *s),
            StopAction::SignalLeader(p, s) => StopActionV::SignalLeader(*p, *s),
            StopAction::AwaitDrain(p, n) => StopActionV::AwaitDrain(*p, *n),
            StopAction::Finish => StopActionV::Finish,
            StopAction::Fail(m) => StopActionV::Fail(m@),
        }
    }
}

/// One step of a stop: SIGTERM the group (the leader when the group
/// cannot be signalled; a leader that is already gone finishes the stop),
/// wait up to five seconds for the group to drain, then SIGKILL the group
/// (the leader as a fallback) and give it two more seconds. A record with
/// no positive PID finishes at once; no record fails.
pub open spec fn stop_next(name: Seq<char>, s: StopState, ev: StopEvent) -> (StopState, StopActionV) {
    match (s, ev) {
        (StopState::Begin, StopEvent::Recorded(None)) => (
            StopState::Failed,
            StopActionV::Fail("no state for process "@ + debug_quoted(name)),
        ),
        (StopState::Begin, StopEvent::Recorded(Some(pid))) => if pid <= 0 {
            (StopState::Finished, StopActionV::Finish)
        } else {
            (StopState::TermToGroup(pid), StopActionV::SignalGroup(pid, Sig::Term))
        },
        (StopState::TermToGroup(pid), StopEvent::Signalled(o)) => match o {
            SignalOutcome::Sent => (StopState::Draining(pid), StopActionV::AwaitDrain(pid, 5)),
            _ => (StopState::TermToLeader(pid), StopActionV::SignalLeader(pid, Sig::Term)),
        },
        (StopState::TermToLeader(pid), StopEvent::Signalled(o)) => match o {
            SignalOutcome::Sent => (StopState::Draining(pid), StopActionV::AwaitDrain(pid, 5)),
            SignalOutcome::NoSuchProcess => (StopState::Finished, StopActionV::Finish),
            SignalOutcome::Failed(e) => (
                StopState::Failed,
                StopActionV::Fail("SIGTERM"@ + " to "@ + decimal(pid as int) + ": "@ + e@),
            ),
        },
        (StopState::Draining(pid), StopEvent::Drained(gone)) => if gone {
            (StopState::Finished, StopActionV::Finish)
        } else {
            (StopState::KillToGroup(pid), StopActionV::SignalGroup(pid, Sig::Kill))
        },
        (StopState::KillToGroup(pid), StopEvent::Signalled(o)) => match o {
            SignalOutcome::Sent => (StopState::Reaping(pid), StopActionV::AwaitDrain(pid, 2)),
            _ => (StopState::KillToLeader(pid), StopActionV::SignalLeader(pid, Sig::Kill)),
        },
        (StopState::KillToLeader(pid), StopEvent::Signalled(o)) => match o {
            SignalOutcome::Failed(e) => (
                StopState::Failed,
                StopActionV::Fail("SIGKILL"@ + " to "@ + decimal(pid as int) + ": "@ + e@),
            ),
            _ => (StopState::Reaping(pid), StopActionV::AwaitDrain(pid, 2)),
        },
        (StopState::Reaping(_), StopEvent::Drained(_)) => (StopState::Finished, StopActionV::Finish),
        (s, _) => (s, StopActionV::Finish),
    }
}

fn signal_failure(sig: &str, pid: i32, e: &str) -> (r: String)
    ensures
        r@ == sig@ + " to "@ + decimal(pid as int) + ": "@ + e@,
{
    let mut m = sig.to_owned();
    push_str(&mut m, " to ");
    push_str(&mut m, i64_to_string(pid as i64).as_str());
    push_str(&mut m, ": ");
    push_str(&mut m, e);
    m
}

pub fn stop_step(name: &str, s: StopState, ev: StopEvent) -> (r: (StopState, StopAction))
    requires
        stop_event_fits(s, ev),
    ensures
        (r.0, r.1@) == stop_next(name@, s, ev),
{
    match (s, ev) {
        (StopState::Begin, StopEvent::Recorded(None)) => {
            let mut m = "no state for process ".to_owned();
            push_str(&mut m, debug_quote(name).as_str());
            (StopState::Failed, StopAction::Fail(m))
        },
        (StopState::Begin, StopEvent::Recorded(Some(pid))) => if pid <= 0 {
            (StopState::Finished, StopAction::Finish)
        } else {
            (StopState::TermToGroup(pid), StopAction::SignalGroup(pid, Sig::Term))
        },
        (StopState::TermToGroup(pid), StopEvent::Signalled(o)) => match o {
            SignalOutcome::Sent => (StopState::Draining(pid), StopAction::AwaitDrain(pid, 5)),
            _ => (StopState::TermToLeader(pid), StopAction::SignalLeader(pid, Sig::Term)),
        },
        (StopState::TermToLeader(pid), StopEvent::Signalled(o)) => match o {
            SignalOutcome::Sent => (StopState::Draining(pid), StopAction::AwaitDrain(pid, 5)),
            SignalOutcome::NoSuchProcess => (StopState::Finished, StopAction::Finish),
            SignalOutcome::Failed(e) => (
                StopState::Failed,
                StopAction::Fail(signal_failure("SIGTERM", pid, e.as_str())),
            ),
        },
        (StopState::Draining(pid), StopEvent::Drained(gone)) => if gone {
            (StopState::Finished, StopAction::Finish)
        } else {
            (StopState::KillToGroup(pid), StopAction::SignalGroup(pid, Sig::Kill))
        },
        (StopState::KillToGroup(pid), StopEvent::Signalled(o)) => match o {
            SignalOutcome::Sent => (StopState::Reaping(pid), StopAction::AwaitDrain(pid, 2)),
            _ => (StopState::KillToLeader(pid), StopAction::SignalLeader(pid, Sig::Kill)),
        },
        (StopState::KillToLeader(pid), StopEvent::Signalled(o)) => match o {
            SignalOutcome::Failed(e) => (
                StopState::Failed,
                StopAction::Fail(signal_failure("SIGKILL", pid, e.as_str())),
            ),
            _ => (StopState::Reaping(pid), StopAction::AwaitDrain(pid, 2)),
        },
        (StopState::Reaping(_), StopEvent::Drained(_)) => (StopState::Finished, StopAction::Finish),
        (s, _) => (s, StopAction::Finish),
    }
}

/// Every step of a stop either finishes, fails, or moves to a state that
/// still has work to do; a failure is always reported with a message and
/// never marks the record stopped.
pub proof fn lemma_stop_step_settles(name: Seq<char>, s: StopState, ev: StopEvent)
    requires
        stop_event_fits(s, ev),
    ensures
        ({
            let (n, a) = stop_next(name, s, ev);
            &&& (a is Finish <==> n == StopState::Finished)
            &&& (a is Fail <==> n == StopState::Failed)
        }),
{
}


// ---------------------------------------------------------------------
// Laws
// ---------------------------------------------------------------------

proof fn lemma_first_target_found(ts: Seq<RunTarget>, name: Seq<char>, n: int)
    requires
        0 <= n <= ts.len(),
    ensures
        match first_target(ts, name, n) {
            Some(i) => 0 <= i < n && ts[i].name@ == name,
            None => forall|k: int| 0 <= k < n ==> #[trigger] ts[k].name@ != name,
        },
    decreases n,
{
    if n > 0 {
        lemma_first_target_found(ts, name, n - 1);
    }
}

/// No two targets share a name.
pub open spec fn names_unique(ts: Seq<RunTarget>) -> bool {
    forall|i: int, j: int| 0 <= i < j < ts.len() ==> #[trigger] ts[i].name@ != #[trigger] ts[j].name@
}

/// Upserting a target keeps target names unique, and afterwards exactly
/// one target carries its name: the upserted one.
pub proof fn lemma_upsert_keeps_names_unique(ts: Seq<RunTarget>, t: RunTarget)
    requires
        names_unique(ts),
    ensures
        names_unique(upserted(ts, t)),
        exists|i: int| 0 <= i < upserted(ts, t).len() && #[trigger] upserted(ts, t)[i] == t,
{
    lemma_first_target_found(ts, t.name@, ts.len() as int);
    let u = upserted(ts, t);
    match first_target(ts, t.name@, ts.len() as int) {
        Some(i) => {
            assert(u[i] == t);
        },
        None => {
            assert(u[ts.len() as int] == t);
        },
    }
}

/// An explicit collector port is always the one used, and it is saved.
pub proof fn lemma_explicit_port_wins(
    requested: u16,
    previous: u16,
    previous_reusable: bool,
    allocated: Option<u16>,
    protocol: Seq<char>,
)
    requires
        requested != 0,
    ensures
        chosen_port(requested, previous, previous_reusable, allocated, protocol) == (requested, true),
{
}

/// A persisted port that can still be used is kept without rewriting the
/// port file, whatever a fresh allocation would have given.
pub proof fn lemma_reusable_port_kept(previous: u16, allocated: Option<u16>, protocol: Seq<char>)
    requires
        previous != 0,
    ensures
        chosen_port(0, previous, true, allocated, protocol) == (previous, false),
{
}

/// A name that belongs to a target that parsed and takes part in bulk
/// starts.
pub open spec fn bulk_startable(ts: Seq<RunTarget>, n: Seq<char>) -> bool {
    exists|i: int| 0 <= i < ts.len() && #[trigger] ts[i].name@ == n && ts[i].autorun && ts[i].parse_error@.len() == 0
}

/// `start_all` starts only targets that parsed and take part in bulk
/// starts; a target with `autorun: false` is never among them.
pub proof fn lemma_start_all_respects_autorun(ts: Seq<RunTarget>)
    ensures
        forall|k: int|
            0 <= k < start_all_names(ts).len() ==> bulk_startable(ts, #[trigger] start_all_names(ts)[k]),
    decreases ts.len(),
{
    if ts.len() > 0 {
        let p = ts.drop_last();
        lemma_start_all_respects_autorun(p);
        let r = start_all_names(ts);
        assert forall|k: int| 0 <= k < r.len() implies bulk_startable(ts, #[trigger] r[k]) by {
            if k < start_all_names(p).len() {
                assert(bulk_startable(p, start_all_names(p)[k]));
                let i = choose|i: int|
                    0 <= i < p.len() && #[trigger] p[i].name@ == start_all_names(p)[k] && p[i].autorun
                        && p[i].parse_error@.len() == 0;
                assert(ts[i] == p[i]);
            } else {
                assert(ts[ts.len() - 1].name@ == r[k]);
            }
        }
    }
}

} // verus!
