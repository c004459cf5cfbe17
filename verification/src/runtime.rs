//! The command line's rules: the flags and subcommands, how each setting
//! falls through flag → environment → rc file → default, target lookup by
//! name, and the rows and lines the headless subcommands print.

use vstd::prelude::*;

use crate::fmt::{debug_quote, debug_quoted, opt_text};
use crate::manager::{find_target, first_target, OTEL_TARGET_NAME};
use crate::shell::views;
use crate::state::{status_name, status_str, ProcessState, Status};
use crate::strmap::StrMap;
use crate::target::{copy_target, default_beside_name, named_target, RunTarget};
use crate::text::{decimal_nat, push_str, str_eq, u64_to_string};

verus! {

/// The global flags and the subcommand. `run_dir`, `state_dir` and the
/// OTel settings already merge the flag with its environment variable.
#[derive(Debug)]
pub struct Cli {
    pub config: Option<String>,
    pub run_dir: Option<String>,
    pub state_dir: Option<String>,
    pub json: bool,
    pub otel_protocol: Option<String>,
    pub otel_severity: Option<String>,
    pub otel_port: Option<u16>,
    pub command: Option<Command>,
}

#[derive(Debug)]
pub enum Command {
    Version,
    List,
    Status { target: Option<String> },
    Start { target: Option<String> },
    Stop { target: Option<String> },
    Restart { targets: Vec<String> },
    Logs { target: String, follow: bool, tail: usize },
    OtelCollector { protocol: String, severity: String, port: u16, notify_socket: String },
}

/// `.tukitukirc.yaml`: the middle layer of the settings.
#[derive(Debug, Clone)]
pub struct RcFile {
    pub run_dir: Option<String>,
    pub state_dir: Option<String>,
    pub otel_protocol: Option<String>,
    pub otel_severity: Option<String>,
    pub otel_port: Option<u16>,
}

impl Default for RcFile {
    fn default() -> (r: Self)
        ensures
            r.run_dir is None,
            r.state_dir is None,
            r.otel_protocol is None,
            r.otel_severity is None,
            r.otel_port is None,
    {
        RcFile { run_dir: None, state_dir: None, otel_protocol: None, otel_severity: None, otel_port: None }
    }
}

/// The rc file in effect: the one found and parsed, or all defaults when
/// there is none or it did not parse.
pub fn load(found: Option<RcFile>) -> (r: RcFile)
    ensures
        match found {
            Some(f) => r == f,
            None => r.run_dir is None && r.state_dir is None && r.otel_protocol is None
                && r.otel_severity is None && r.otel_port is None,
        },
{
    match found {
        Some(f) => f,
        None => RcFile::default(),
    }
}

/// Which rc file is read: the `--config` path when given and non-empty;
/// else `.tukitukirc.yaml` in the working directory when that file exists;
/// else the one in `$HOME` when it exists; else none.
pub open spec fn rc_choice(
    explicit: Option<Seq<char>>,
    in_cwd: Option<Seq<char>>,
    in_home: Option<Seq<char>>,
) -> Option<Seq<char>> {
    match explicit {
        Some(p) if p.len() > 0 => Some(p),
        _ => match in_cwd {
            Some(c) => Some(c),
            None => in_home,
        },
    }
}

/// A borrowed text, as the contracts see it.
pub open spec fn opt_str(o: Option<&str>) -> Option<Seq<char>> {
    match o {
        Some(s) => Some(s@),
        None => None,
    }
}

/// The rc file to read, given `--config` and the paths of the candidate
/// files that exist (`in_cwd`, `in_home`).
pub fn rc_path(explicit: Option<&str>, in_cwd: Option<String>, in_home: Option<String>) -> (r: Option<String>)
    ensures
        opt_text(r) == rc_choice(opt_str(explicit), opt_text(in_cwd), opt_text(in_home)),
{
    if let Some(p) = explicit {
        if !p.is_empty() {
            return Some(p.to_owned());
        }
    }
    match in_cwd {
        Some(c) => Some(c),
        None => in_home,
    }
}

/// A setting: the flag (or its environment variable) when set and
/// non-empty, else the rc file's when set and non-empty, else `default`.
pub open spec fn layered(flag: Option<String>, rc: Option<String>, default: Seq<char>) -> Seq<char> {
    match flag {
        Some(s) if s@.len() > 0 => s@,
        _ => match rc {
            Some(s) if s@.len() > 0 => s@,
            _ => default,
        },
    }
}

fn pick(flag: &Option<String>, rc: &Option<String>, default: &str) -> (r: String)
    ensures
        r@ == layered(*flag, *rc, default@),
{
    if let Some(s) = flag {
        if !s.as_str().is_empty() {
            return s.clone();
        }
    }
    if let Some(s) = rc {
        if !s.as_str().is_empty() {
            return s.clone();
        }
    }
    default.to_owned()
}

/// Effective `.run/` directory: flag → environment → rc file → `.run`.
pub fn resolve_run_dir(cli: &Cli, rc: &RcFile) -> (r: String)
    ensures
        r@ == layered(cli.run_dir, rc.run_dir, ".run"@),
{
    pick(&cli.run_dir, &rc.run_dir, ".run")
}

/// Effective state directory: flag → environment → rc file → `.tukituki`.
pub fn resolve_state_dir(cli: &Cli, rc: &RcFile) -> (r: String)
    ensures
        r@ == layered(cli.state_dir, rc.state_dir, ".tukituki"@),
{
    pick(&cli.state_dir, &rc.state_dir, ".tukituki")
}

/// Effective OTel protocol: flag → environment → rc file → `grpc`.
pub fn resolve_otel_protocol(cli: &Cli, rc: &RcFile) -> (r: String)
    ensures
        r@ == layered(cli.otel_protocol, rc.otel_protocol, "grpc"@),
{
    pick(&cli.otel_protocol, &rc.otel_protocol, "grpc")
}

/// Effective OTel severity: flag → environment → rc file → `error`.
pub fn resolve_otel_severity(cli: &Cli, rc: &RcFile) -> (r: String)
    ensures
        r@ == layered(cli.otel_severity, rc.otel_severity, "error"@),
{
    pick(&cli.otel_severity, &rc.otel_severity, "error")
}

/// Effective OTel port: flag or environment (even 0) → rc file → 0, which
/// leaves the choice to the manager.
pub fn resolve_otel_port(cli: &Cli, rc: &RcFile) -> (r: u16)
    ensures
        r == (match cli.otel_port {
            Some(p) => p,
            None => match rc.otel_port {
                Some(p) => p,
                None => 0,
            },
        }),
{
    match cli.otel_port {
        Some(p) => p,
        None => match rc.otel_port {
            Some(p) => p,
            None => 0,
        },
    }
}

// ---------------------------------------------------------------------
// Targets by name
// ---------------------------------------------------------------------

/// Two targets agree field for field.
pub open spec fn same_target(a: RunTarget, b: RunTarget) -> bool {
    &&& a.name@ == b.name@
    &&& a.command@ == b.command@
    &&& a.workdir@ == b.workdir@
    &&& a.args@ == b.args@
    &&& a.env@ == b.env@
    &&& a.description@ == b.description@
    &&& a.cleanup@ == b.cleanup@
    &&& a.otel == b.otel
    &&& a.autorun == b.autorun
    &&& a.group@ == b.group@
    &&& a.parse_error@ == b.parse_error@
    &&& a.is_virtual == b.is_virtual
    &&& a.source_file@ == b.source_file@
}

/// A name no target has: the message and the names there are.
#[derive(Debug)]
pub struct TargetNotFound {
    pub message: String,
    pub available: Vec<String>,
}

/// The target called `name`: the first one in the list; the collector's
/// name is known even when no run file declares it; any other name is an
/// error that lists the names there are.
pub fn find_target_named(targets: &[RunTarget], name: &str) -> (r: Result<RunTarget, TargetNotFound>)
    ensures
        match first_target(targets@, name@, targets@.len() as int) {
            Some(i) => r matches Ok(t) && same_target(t, targets@[i]),
            None => if name@ == OTEL_TARGET_NAME@ {
                r matches Ok(t) && t.name@ == name@ && default_beside_name(t)
            } else {
                r matches Err(e) && e.message@ == "target "@ + debug_quoted(name@) + " not found"@
                    && views(e.available@) == targets@.map_values(|t: RunTarget| t.name@)
            },
        },
{
    match find_target(targets, name) {
        Some(i) => Ok(copy_target(&targets[i])),
        None => {
            if str_eq(name, OTEL_TARGET_NAME) {
                Ok(named_target(name.to_owned()))
            } else {
                let mut m = "target ".to_owned();
                push_str(&mut m, debug_quote(name).as_str());
                push_str(&mut m, " not found");
                Err(TargetNotFound { message: m, available: crate::manager::names_of(targets) })
            }
        },
    }
}

/// The error shown when the run directory does not exist.
pub fn missing_run_dir_message(run_dir: &str) -> (r: String)
    ensures
        r@ == "no .run/ directory found at "@ + debug_quoted(run_dir@)
            + " — create .run/*.yaml files to define your processes"@,
{
    let mut m = "no .run/ directory found at ".to_owned();
    push_str(&mut m, debug_quote(run_dir).as_str());
    push_str(&mut m, " — create .run/*.yaml files to define your processes");
    m
}

/// The error shown when `verb` (`start`, `stop`, `restart`) failed on the
/// target called `name` with `err`.
pub fn action_error(verb: &str, name: &str, err: &str) -> (r: String)
    ensures
        r@ == verb@ + " "@ + debug_quoted(name@) + ": "@ + err@,
{
    let mut m = String::new();
    push_str(&mut m, verb);
    push_str(&mut m, " ");
    push_str(&mut m, debug_quote(name).as_str());
    push_str(&mut m, ": ");
    push_str(&mut m, err);
    m
}

// ---------------------------------------------------------------------
// What the headless subcommands print
// ---------------------------------------------------------------------

/// One row of `status`.
#[derive(Debug)]
pub struct StatusRow {
    pub name: String,
    pub status: Status,
    pub description: String,
    /// 0 when there is no record.
    pub pid: i32,
    /// Where the collector listens, for a running collector; else empty.
    pub address: String,
}

pub open spec fn status_of(statuses: Map<Seq<char>, Status>, n: Seq<char>) -> Status {
    if statuses.contains_key(n) {
        statuses[n]
    } else {
        Status::Unknown
    }
}

/// Whether `n` is the running collector on a known port.
pub open spec fn listening(n: Seq<char>, st: Status, port: u16) -> bool {
    n == OTEL_TARGET_NAME@ && port != 0 && st == Status::Running
}

pub open spec fn row_ok(
    row: StatusRow,
    t: RunTarget,
    statuses: Map<Seq<char>, Status>,
    processes: Map<Seq<char>, ProcessState>,
    port: u16,
) -> bool {
    &&& row.name@ == t.name@
    &&& row.status == status_of(statuses, t.name@)
    &&& row.description@ == t.description@
    &&& row.pid == (if processes.contains_key(t.name@) {
        processes[t.name@].pid
    } else {
        0
    })
    &&& row.address@ == (if listening(t.name@, row.status, port) {
        "127.0.0.1:"@ + decimal_nat(port as nat)
    } else {
        Seq::empty()
    })
}

/// The rows of `status`, one per target, in order.
pub fn status_rows(
    targets: &[RunTarget],
    statuses: &StrMap<Status>,
    processes: &StrMap<ProcessState>,
    otel_port: u16,
) -> (r: Vec<StatusRow>)
    ensures
        r@.len() == targets@.len(),
        forall|i: int|
            0 <= i < r@.len() ==> row_ok(#[trigger] r@[i], targets@[i], statuses@, processes@, otel_port),
{
    let mut r: Vec<StatusRow> = Vec::new();
    let mut i: usize = 0;
    while i < targets.len()
        invariant
            i <= targets.len(),
            r@.len() == i,
            forall|j: int|
                0 <= j < i ==> row_ok(#[trigger] r@[j], targets@[j], statuses@, processes@, otel_port),
        decreases targets.len() - i,
    {
        let t = &targets[i];
        let status = match statuses.get(t.name.as_str()) {
            Some(s) => *s,
            None => Status::Unknown,
        };
        let pid = match processes.get(t.name.as_str()) {
            Some(ps) => ps.pid,
            None => 0,
        };
        let address = if str_eq(t.name.as_str(), OTEL_TARGET_NAME) && otel_port != 0 && status
            == Status::Running {
            let mut a = "127.0.0.1:".to_owned();
            push_str(&mut a, u64_to_string(otel_port as u64).as_str());
            a
        } else {
            String::new()
        };
        r.push(StatusRow { name: t.name.clone(), status, description: t.description.clone(), pid, address });
        i = i + 1;
    }
    r
}

/// The description column of `status`'s table: `-` when there is none,
/// and where the collector listens when it runs.
pub fn status_description(row: &StatusRow, otel_port: u16) -> (r: String)
    ensures
        r@ == (if row.description@.len() == 0 {
            "-"@
        } else {
            row.description@
        }) + (if listening(row.name@, row.status, otel_port) {
            " (listening on :"@ + decimal_nat(otel_port as nat) + ")"@
        } else {
            Seq::empty()
        }),
{
    let mut d = if row.description.as_str().is_empty() {
        "-".to_owned()
    } else {
        row.description.clone()
    };
    let ghost d0 = d@;
    if str_eq(row.name.as_str(), OTEL_TARGET_NAME) && otel_port != 0 && row.status == Status::Running {
        push_str(&mut d, " (listening on :");
        push_str(&mut d, u64_to_string(otel_port as u64).as_str());
        push_str(&mut d, ")");
    } else {
        proof {
            assert(d0 + Seq::<char>::empty() =~= d0);
        }
    }
    d
}

/// One line of `list`'s table: name, command, and the description or `-`.
pub fn list_row(t: &RunTarget) -> (r: (String, String, String))
    ensures
        r.0@ == t.name@,
        r.1@ == t.command@,
        r.2@ == (if t.description@.len() == 0 {
            "-"@
        } else {
            t.description@
        }),
{
    (
        t.name.clone(),
        t.command.clone(),
        if t.description.as_str().is_empty() {
            "-".to_owned()
        } else {
            t.description.clone()
        },
    )
}

/// `<verb>: <name> (status: <status>)`, or `<verb>: <name>` when the
/// target has no recorded status.
pub fn action_line(verb: &str, name: &str, status: Option<Status>) -> (r: String)
    ensures
        r@ == verb@ + ": "@ + name@ + (match status {
            Some(s) => " (status: "@ + status_name(s) + ")"@,
            None => Seq::empty(),
        }),
{
    let mut s = verb.to_owned();
    push_str(&mut s, ": ");
    push_str(&mut s, name);
    let ghost s0 = s@;
    match status {
        Some(st) => {
            push_str(&mut s, " (status: ");
            push_str(&mut s, status_str(st));
            push_str(&mut s, ")");
        },
        None => {
            proof {
                assert(s0 + Seq::<char>::empty() =~= s0);
            }
        },
    }
    s
}

/// The names `restart` acts on: those given, or every target's.
pub fn restart_names(targets: &[RunTarget], args: &Vec<String>) -> (r: Vec<String>)
    ensures
        views(r@) == (if args@.len() == 0 {
            targets@.map_values(|t: RunTarget| t.name@)
        } else {
            views(args@)
        }),
{
    if args.len() == 0 {
        crate::manager::names_of(targets)
    } else {
        crate::target::copy_strings(args)
    }
}

// ---------------------------------------------------------------------
// Version and invocation name
// ---------------------------------------------------------------------

/// The name `version` prints for an operating system (`darwin` for
/// macOS).
pub open spec fn os_label(os: Seq<char>) -> Seq<char> {
    if os == "macos"@ {
        "darwin"@
    } else {
        os
    }
}

/// The name `version` prints for an architecture (`amd64`, `arm64`).
pub open spec fn arch_label(arch: Seq<char>) -> Seq<char> {
    if arch == "x86_64"@ {
        "amd64"@
    } else if arch == "aarch64"@ {
        "arm64"@
    } else {
        arch
    }
}

pub fn platform_os(os: &str) -> (r: String)
    ensures
        r@ == os_label(os@),
{
    if str_eq(os, "macos") {
        "darwin".to_owned()
    } else {
        os.to_owned()
    }
}

pub fn platform_arch(arch: &str) -> (r: String)
    ensures
        r@ == arch_label(arch@),
{
    if str_eq(arch, "x86_64") {
        "amd64".to_owned()
    } else if str_eq(arch, "aarch64") {
        "arm64".to_owned()
    } else {
        arch.to_owned()
    }
}

/// `tukituki <version> (<os>/<arch>, <runtime>)`.
pub fn version_line(version: &str, os: &str, arch: &str, runtime: &str) -> (r: String)
    ensures
        r@ == "tukituki "@ + version@ + " ("@ + os@ + "/"@ + arch@ + ", "@ + runtime@ + ")"@,
{
    let mut s = "tukituki ".to_owned();
    push_str(&mut s, version);
    push_str(&mut s, " (");
    push_str(&mut s, os);
    push_str(&mut s, "/");
    push_str(&mut s, arch);
    push_str(&mut s, ", ");
    push_str(&mut s, runtime);
    push_str(&mut s, ")");
    s
}

/// `Path::file_name` of `p`: its last normal component, if it has one.
pub uninterp spec fn path_file_name(p: Seq<char>) -> Option<Seq<char>>;

/// `Path::new(p).file_name()`, as text. The result is a function of `p`
/// alone; std's component rules are not restated here.
#[verifier::external_body]
fn file_name_of(p: &str) -> (r: Option<String>)
    ensures
        opt_text(r) == path_file_name(p@),
{
    match std::path::Path::new(p).file_name() {
        Some(n) => Some(n.to_string_lossy().into_owned()),
        None => None,
    }
}

/// The name the program was invoked under, for help text: the file name
/// of `argv0`, unless that is missing, empty, `.` or `/`.
pub fn invocation_name(argv0: &str) -> (r: String)
    ensures
        r@ == (match path_file_name(argv0@) {
            Some(n) => if n.len() > 0 && n != "."@ && n != "/"@ {
                n
            } else {
                "tukituki"@
            },
            None => "tukituki"@,
        }),
{
    match file_name_of(argv0) {
        Some(n) => {
            if !n.as_str().is_empty() && !str_eq(n.as_str(), ".") && !str_eq(n.as_str(), "/") {
                n
            } else {
                "tukituki".to_owned()
            }
        },
        None => "tukituki".to_owned(),
    }
}

} // verus!
