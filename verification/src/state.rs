//! The persisted process state and the process-liveness check.
//!
//! Reading and writing `.tukituki/state.json` happen at the program's
//! edge; this module holds the records, the status rules and the probe.

use vstd::prelude::*;

use crate::strmap::StrMap;

verus! {

/// Lifecycle status of a managed process.
#[derive(Debug, Clone, Copy, PartialEq, Eq, Structural)]
pub enum Status {
    Running,
    Stopped,
    Failed,
    Unknown,
}

impl Default for Status {
    fn default() -> (s: Status)
        ensures
            s == Status::Unknown,
    {
        Status::Unknown
    }
}

/// The lower-case name of a status, as the state file and `--json`
/// output spell it.
pub open spec fn status_name(s: Status) -> Seq<char> {
    match s {
        Status::Running => "running"@,
        Status::Stopped => "stopped"@,
        Status::Failed => "failed"@,
        Status::Unknown => "unknown"@,
    }
}

/// Lower-snake status string.
pub fn status_str(s: Status) -> (r: &'static str)
    ensures
        r@ == status_name(s),
{
    match s {
        Status::Running => "running",
        Status::Stopped => "stopped",
        Status::Failed => "failed",
        Status::Unknown => "unknown",
    }
}

/// A point in time: seconds and nanoseconds since the Unix epoch (UTC).
#[derive(Debug, Clone, Copy, PartialEq, Eq, Structural)]
pub struct Timestamp {
    pub secs: i64,
    pub nanos: u32,
}

/// Runtime information for a single managed process.
#[derive(Debug, Clone)]
pub struct ProcessState {
    pub name: String,
    pub pid: i32,
    pub log_file: String,
    pub started_at: Timestamp,
    pub status: Status,
    pub exit_code: Option<i32>,
}

/// Top-level persisted document: one record per process, by name.
#[derive(Debug)]
pub struct State {
    pub processes: StrMap<ProcessState>,
    pub updated_at: Timestamp,
}

impl State {
    /// An empty state, stamped at the epoch.
    pub fn new() -> (s: State)
        ensures
            s.processes@ == Map::<Seq<char>, ProcessState>::empty(),
            s.updated_at == (Timestamp { secs: 0, nanos: 0 }),
    {
        State { processes: StrMap::new(), updated_at: Timestamp { secs: 0, nanos: 0 } }
    }

    /// Flip every `Running` process to `Stopped` when its PID is gone.
    /// `alive` answers, for each process in name order, whether its PID is
    /// alive.
    pub fn reconcile_alive(&mut self, alive: &Vec<bool>)
        requires
            alive@.len() == old(self).processes.entries_view().len(),
        ensures
            final(self).processes@.dom() == old(self).processes@.dom(),
            final(self).updated_at == old(self).updated_at,
            forall|i: int|
                0 <= i < alive@.len() ==> {
                    let (k, ps) = #[trigger] old(self).processes.entries_view()[i];
                    final(self).processes@[k] == (if ps.status == Status::Running && !alive@[i] {
                        ProcessState { status: Status::Stopped, ..ps }
                    } else {
                        ps
                    })
                },
    {
        let ghost old_entries = self.processes.entries_view();
        let ghost old_map = self.processes@;
        proof {
            use_type_invariant(&self.processes);
            self.processes.lemma_entries();
        }
        let mut i: usize = 0;
        while i < self.processes.len()
            invariant
                i <= self.processes.entries_view().len(),
                alive@.len() == old_entries.len(),
                self.processes.entries_view().len() == old_entries.len(),
                forall|j: int|
                    0 <= j < old_entries.len() ==> (#[trigger] self.processes.entries_view()[j]).0
                        == old_entries[j].0,
                forall|j: int|
                    i <= j < old_entries.len() ==> #[trigger] self.processes.entries_view()[j]
                        == old_entries[j],
                forall|j: int|
                    0 <= j < i ==> (#[trigger] self.processes.entries_view()[j]).1 == (if old_entries[j].1.status
                        == Status::Running && !alive@[j] {
                        ProcessState { status: Status::Stopped, ..old_entries[j].1 }
                    } else {
                        old_entries[j].1
                    }),
                self.updated_at == old(self).updated_at,
                crate::strmap::keys_sorted(old_entries),
                old_map == crate::strmap::map_of(old_entries),
            decreases old_entries.len() - i,
        {
            let ps = self.processes.value_at(i);
            if ps.status == Status::Running && !alive[i] {
                let updated = ProcessState {
                    name: ps.name.clone(),
                    pid: ps.pid,
                    log_file: ps.log_file.clone(),
                    started_at: ps.started_at,
                    status: Status::Stopped,
                    exit_code: ps.exit_code,
                };
                proof {
                    assert(updated == ProcessState { status: Status::Stopped, ..old_entries[i as int].1 });
                }
                self.processes.set_value_at(i, updated);
            }
            i = i + 1;
        }
        proof {
            use_type_invariant(&self.processes);
            self.processes.lemma_entries();
            assert forall|k: Seq<char>| #[trigger] self.processes@.contains_key(k) <==> old_map.contains_key(k) by {
                crate::strmap::lemma_map_of(old_entries);
                if self.processes@.contains_key(k) {
                    let j = choose|j: int| 0 <= j < self.processes.entries_view().len() && self.processes.entries_view()[j].0 == k;
                    assert(old_entries[j].0 == k);
                }
                if old_map.contains_key(k) {
                    let j = choose|j: int| 0 <= j < old_entries.len() && old_entries[j].0 == k;
                    assert(self.processes.entries_view()[j].0 == k);
                }
            }
            assert(self.processes@.dom() =~= old_map.dom());
            assert forall|i: int| 0 <= i < alive@.len() implies {
                let (k, ps) = #[trigger] old_entries[i];
                self.processes@[k] == (if ps.status == Status::Running && !alive@[i] {
                    ProcessState { status: Status::Stopped, ..ps }
                } else {
                    ps
                })
            } by {
                assert(self.processes@[self.processes.entries_view()[i].0] == self.processes.entries_view()[i].1);
            }
        }
    }
}

/// A record's status as shown to the user: `Running` becomes `Stopped`
/// when its PID is gone; no record is `Unknown`.
pub open spec fn effective_status(ps: Option<ProcessState>, alive: bool) -> Status {
    match ps {
        None => Status::Unknown,
        Some(p) => if p.status == Status::Running && !alive {
            Status::Stopped
        } else {
            p.status
        },
    }
}

pub fn reconcile_status(ps: Option<&ProcessState>, alive: bool) -> (r: Status)
    ensures
        r == effective_status(
            match ps {
                Some(p) => Some(*p),
                None => None,
            },
            alive,
        ),
{
    match ps {
        None => Status::Unknown,
        Some(p) => if p.status == Status::Running && !alive {
            Status::Stopped
        } else {
            p.status
        },
    }
}

/// What `kill(pid, 0)` (or `kill(-pid, 0)` for a process group) reported.
#[derive(Debug, Clone, Copy, PartialEq, Eq, Structural)]
pub enum Probe {
    /// The signal could be delivered.
    Delivered,
    /// `EPERM`: the process exists but belongs to someone else.
    PermissionDenied,
    /// `ESRCH`: no such process.
    NoSuchProcess,
    /// Any other error.
    OtherError,
}

/// Whether a process with a positive PID is alive, given the probe.
pub open spec fn alive_from(pid: i32, p: Probe) -> bool {
    pid > 0 && (p == Probe::Delivered || p == Probe::PermissionDenied)
}

/// `kill(pid, None)`: probe a single process without signalling it. The
/// outcome depends on the machine's process table at the moment of the
/// call, so nothing is stated of it.
#[verifier::external_body]
fn probe_process(pid: i32) -> (r: Probe)
    requires
        pid > 0,
{
    match nix::sys::signal::kill(nix::unistd::Pid::from_raw(pid), None) {
        Ok(_) => Probe::Delivered,
        Err(nix::errno::Errno::EPERM) => Probe::PermissionDenied,
        Err(nix::errno::Errno::ESRCH) => Probe::NoSuchProcess,
        Err(_) => Probe::OtherError,
    }
}

/// `kill(-pid, None)`: probe every member of the process group led by
/// `pid`. As above, the outcome depends on the machine.
#[verifier::external_body]
fn probe_group(pid: i32) -> (r: Probe)
    requires
        pid > 0,
{
    match nix::sys::signal::kill(nix::unistd::Pid::from_raw(-pid), None) {
        Ok(_) => Probe::Delivered,
        Err(nix::errno::Errno::EPERM) => Probe::PermissionDenied,
        Err(nix::errno::Errno::ESRCH) => Probe::NoSuchProcess,
        Err(_) => Probe::OtherError,
    }
}

/// Liveness from a probe's outcome: a delivered signal or `EPERM` means
/// the PID exists; a PID of zero or less is always dead.
pub fn alive_from_probe(pid: i32, p: Probe) -> (r: bool)
    ensures
        r == alive_from(pid, p),
{
    pid > 0 && (p == Probe::Delivered || p == Probe::PermissionDenied)
}

/// Whether the process `pid` is alive. `pid <= 0` is always dead — never
/// probed, since `kill(-1, 0)` would broadcast.
pub fn is_alive_pid(pid: i32) -> (r: bool)
    ensures
        r ==> pid > 0,
{
    if pid <= 0 {
        return false;
    }
    let p = probe_process(pid);
    alive_from_probe(pid, p)
}

/// Whether the process a record names is alive; no record is dead.
pub fn is_alive(ps: Option<&ProcessState>) -> (r: bool)
    ensures
        r ==> (ps matches Some(p) && p.pid > 0),
{
    match ps {
        None => false,
        Some(p) => is_alive_pid(p.pid),
    }
}

/// Whether any member of the process group led by `leader_pid` is still
/// around.
pub fn group_alive(leader_pid: i32) -> (r: bool)
    ensures
        r ==> leader_pid > 0,
{
    if leader_pid <= 0 {
        return false;
    }
    let p = probe_group(leader_pid);
    alive_from_probe(leader_pid, p)
}


/// Reconciling with the machine only ever turns `Running` into
/// `Stopped`: a live process keeps its recorded status, and no other
/// status changes.
pub proof fn lemma_reconcile_only_stops(p: ProcessState, alive: bool)
    ensures
        alive ==> effective_status(Some(p), alive) == p.status,
        p.status != Status::Running ==> effective_status(Some(p), alive) == p.status,
        effective_status(Some(p), alive) != p.status ==> (p.status == Status::Running
            && effective_status(Some(p), alive) == Status::Stopped),
{
}

} // verus!
