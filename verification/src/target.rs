//! One managed process, as declared in a `.run/*.yaml` file.

use vstd::prelude::*;

use crate::strmap::StrMap;
use crate::text::copy_string;

verus! {

/// One managed process, as declared in a `.run/*.yaml` file, plus the
/// runtime-only fields (`group`, `parse_error`, `is_virtual`,
/// `source_file`) that are never read from YAML. `env` iterates in key
/// order, so output built from it is deterministic.
#[derive(Debug, Clone)]
pub struct RunTarget {
    pub name: String,
    pub command: String,
    pub workdir: String,
    pub args: Vec<String>,
    pub env: StrMap<String>,
    pub description: String,
    pub cleanup: Vec<String>,
    pub otel: bool,
    /// Default `true`. When `false`, the target is loaded and visible in
    /// the TUI but is excluded from bulk auto-start (`StartAll`, TUI
    /// startup, restart-all). Single-target start/restart/stop still
    /// work.
    pub autorun: bool,
    pub group: String,
    pub parse_error: String,
    pub is_virtual: bool,
    pub source_file: String,
}

/// A target with every field at its default: empty text and lists,
/// `otel` off and `autorun` on.
pub open spec fn is_default_target(t: RunTarget) -> bool {
    &&& t.name@ == Seq::<char>::empty()
    &&& t.command@ == Seq::<char>::empty()
    &&& t.workdir@ == Seq::<char>::empty()
    &&& t.args@ == Seq::<String>::empty()
    &&& t.env@ == Map::<Seq<char>, String>::empty()
    &&& t.description@ == Seq::<char>::empty()
    &&& t.cleanup@ == Seq::<String>::empty()
    &&& !t.otel
    &&& t.autorun
    &&& t.group@ == Seq::<char>::empty()
    &&& t.parse_error@ == Seq::<char>::empty()
    &&& !t.is_virtual
    &&& t.source_file@ == Seq::<char>::empty()
}

/// Every field but the name at its default.
pub open spec fn default_beside_name(t: RunTarget) -> bool {
    &&& t.command@ == Seq::<char>::empty()
    &&& t.workdir@ == Seq::<char>::empty()
    &&& t.args@ == Seq::<String>::empty()
    &&& t.env@ == Map::<Seq<char>, String>::empty()
    &&& t.description@ == Seq::<char>::empty()
    &&& t.cleanup@ == Seq::<String>::empty()
    &&& !t.otel
    &&& t.autorun
    &&& t.group@ == Seq::<char>::empty()
    &&& t.parse_error@ == Seq::<char>::empty()
    &&& !t.is_virtual
    &&& t.source_file@ == Seq::<char>::empty()
}

impl Default for RunTarget {
    fn default() -> (t: Self)
        ensures
            is_default_target(t),
    {
        RunTarget {
            name: String::new(),
            command: String::new(),
            workdir: String::new(),
            args: Vec::new(),
            env: StrMap::new(),
            description: String::new(),
            cleanup: Vec::new(),
            otel: false,
            autorun: true,
            group: String::new(),
            parse_error: String::new(),
            is_virtual: false,
            source_file: String::new(),
        }
    }
}

/// A target with the given name and every other field at its default.
pub fn named_target(name: String) -> (t: RunTarget)
    ensures
        t.name@ == name@,
        t.command@ == Seq::<char>::empty(),
        t.workdir@ == Seq::<char>::empty(),
        t.args@ == Seq::<String>::empty(),
        t.env@ == Map::<Seq<char>, String>::empty(),
        t.description@ == Seq::<char>::empty(),
        t.cleanup@ == Seq::<String>::empty(),
        !t.otel,
        t.autorun,
        t.group@ == Seq::<char>::empty(),
        t.parse_error@ == Seq::<char>::empty(),
        !t.is_virtual,
        t.source_file@ == Seq::<char>::empty(),
{
    let mut t = RunTarget::default();
    t.name = name;
    t
}

/// A copy of a list of strings.
pub fn copy_strings(v: &Vec<String>) -> (r: Vec<String>)
    ensures
        r@ == v@,
{
    let mut r: Vec<String> = Vec::new();
    let mut i: usize = 0;
    while i < v.len()
        invariant
            i <= v.len(),
            r@ == v@.take(i as int),
        decreases v.len() - i,
    {
        r.push(v[i].clone());
        proof {
            assert(v@.take(i as int + 1) == v@.take(i as int).push(v@[i as int]));
        }
        i = i + 1;
    }
    proof {
        assert(v@.take(v.len() as int) == v@);
    }
    r
}

/// A copy of a string table.
pub fn copy_env(m: &StrMap<String>) -> (r: StrMap<String>)
    ensures
        r@ == m@,
{
    let mut r = StrMap::new();
    let mut i: usize = 0;
    proof {
        use_type_invariant(m);
        m.lemma_entries();
        crate::strmap::lemma_map_of(m.entries_view().take(0));
        assert(m.entries_view().take(0) =~= Seq::<(Seq<char>, String)>::empty());
    }
    while i < m.len()
        invariant
            i <= m.entries_view().len(),
            m.wf(),
            crate::strmap::keys_sorted(m.entries_view()),
            r@ == crate::strmap::map_of(m.entries_view().take(i as int)),
        decreases m.entries_view().len() - i,
    {
        let k = copy_string(m.key_at(i));
        let v = m.value_at(i).clone();
        r.insert(k, v);
        proof {
            let t = m.entries_view().take(i as int + 1);
            assert(t.drop_last() == m.entries_view().take(i as int));
            assert(t.last() == m.entries_view()[i as int]);
        }
        i = i + 1;
    }
    proof {
        assert(m.entries_view().take(m.entries_view().len() as int) == m.entries_view());
        m.lemma_entries();
    }
    r
}

/// A copy of a target, field for field.
pub fn copy_target(t: &RunTarget) -> (r: RunTarget)
    ensures
        r.name@ == t.name@,
        r.command@ == t.command@,
        r.workdir@ == t.workdir@,
        r.args@ == t.args@,
        r.env@ == t.env@,
        r.description@ == t.description@,
        r.cleanup@ == t.cleanup@,
        r.otel == t.otel,
        r.autorun == t.autorun,
        r.group@ == t.group@,
        r.parse_error@ == t.parse_error@,
        r.is_virtual == t.is_virtual,
        r.source_file@ == t.source_file@,
{
    RunTarget {
        name: copy_string(&t.name),
        command: copy_string(&t.command),
        workdir: copy_string(&t.workdir),
        args: copy_strings(&t.args),
        env: copy_env(&t.env),
        description: copy_string(&t.description),
        cleanup: copy_strings(&t.cleanup),
        otel: t.otel,
        autorun: t.autorun,
        group: copy_string(&t.group),
        parse_error: copy_string(&t.parse_error),
        is_virtual: t.is_virtual,
        source_file: copy_string(&t.source_file),
    }
}

/// Reports whether any target in the list has `otel: true`.
pub fn has_otel_target(targets: &[RunTarget]) -> (r: bool)
    ensures
        r == exists|i: int| 0 <= i < targets@.len() && (#[trigger] targets@[i]).otel,
{
    let mut i: usize = 0;
    while i < targets.len()
        invariant
            i <= targets.len(),
            forall|j: int| 0 <= j < i ==> !(#[trigger] targets@[j]).otel,
        decreases targets.len() - i,
    {
        if targets[i].otel {
            return true;
        }
        i = i + 1;
    }
    false
}

} // verus!
