//! Assembling the target list from a `.run/` tree: which files count,
//! which directories are folders, what a file that did not parse becomes,
//! and the order the list comes in. Walking the directory and parsing the
//! YAML belong to the caller, which hands each file's outcome in.

use vstd::prelude::*;

use crate::target::{named_target, RunTarget};
use crate::text::{chars_of, lemma_lt_total, lemma_lt_transitive, push_str, seq_lt, string_of_range, Cmp, compare};

verus! {

// ---------------------------------------------------------------------
// File names
// ---------------------------------------------------------------------

/// The position of the last `.` in `s`.
pub open spec fn last_dot(s: Seq<char>, n: int) -> Option<int>
    decreases n,
{
    if n <= 0 {
        None
    } else if s[n - 1] == '.' {
        Some(n - 1)
    } else {
        last_dot(s, n - 1)
    }
}

/// `Path::extension` of a bare file name: what follows the last `.`,
/// unless there is none, it opens the name, or the name is `..`.
pub open spec fn extension_of(name: Seq<char>) -> Option<Seq<char>> {
    if name == ".."@ {
        None
    } else {
        match last_dot(name, name.len() as int) {
            Some(i) => if i == 0 {
                None
            } else {
                Some(name.skip(i + 1))
            },
            None => None,
        }
    }
}

/// `Path::file_stem` of a bare file name: what precedes the last `.`, or
/// the whole name where `extension_of` finds no extension.
pub open spec fn stem_of(name: Seq<char>) -> Seq<char> {
    if name == ".."@ {
        name
    } else {
        match last_dot(name, name.len() as int) {
            Some(i) => if i == 0 {
                name
            } else {
                name.take(i)
            },
            None => name,
        }
    }
}

fn find_last_dot(v: &Vec<char>) -> (r: Option<usize>)
    ensures
        match r {
            Some(i) => i < v.len() && last_dot(v@, v@.len() as int) == Some(i as int),
            None => last_dot(v@, v@.len() as int) is None,
        },
{
    let mut n: usize = v.len();
    while n > 0
        invariant
            n <= v.len(),
            last_dot(v@, v@.len() as int) == last_dot(v@, n as int),
        decreases n,
    {
        if v[n - 1] == '.' {
            return Some(n - 1);
        }
        n = n - 1;
    }
    None
}

fn is_dot_dot(v: &Vec<char>) -> (r: bool)
    ensures
        r == (v@ == ".."@),
{
    crate::text::str_eq(crate::text::string_of(v).as_str(), "..")
}

/// Whether a file name has the `.yaml` or `.yml` extension.
pub open spec fn is_yaml_name(name: Seq<char>) -> bool {
    extension_of(name) == Some("yaml"@) || extension_of(name) == Some("yml"@)
}

pub fn is_yaml_file(name: &str) -> (r: bool)
    ensures
        r == is_yaml_name(name@),
{
    let v = chars_of(name);
    if is_dot_dot(&v) {
        return false;
    }
    match find_last_dot(&v) {
        Some(i) => {
            if i == 0 {
                return false;
            }
            let ext = string_of_range(&v, i + 1, v.len());
            proof {
                assert(v@.subrange(i + 1, v@.len() as int) =~= v@.skip(i + 1));
            }
            crate::text::str_eq(ext.as_str(), "yaml") || crate::text::str_eq(ext.as_str(), "yml")
        },
        None => false,
    }
}

pub fn file_stem(name: &str) -> (r: String)
    ensures
        r@ == stem_of(name@),
{
    let v = chars_of(name);
    if is_dot_dot(&v) {
        return name.to_owned();
    }
    match find_last_dot(&v) {
        Some(i) => {
            if i == 0 {
                name.to_owned()
            } else {
                let s = string_of_range(&v, 0, i);
                proof {
                    assert(v@.subrange(0, i as int) =~= v@.take(i as int));
                }
                s
            }
        },
        None => name.to_owned(),
    }
}

/// Directories whose names start with `.` (such as `.git`) are not
/// folders of targets.
pub fn is_hidden_dir(name: &str) -> (r: bool)
    ensures
        r == (name@.len() > 0 && name@[0] == '.'),
{
    let v = chars_of(name);
    v.len() > 0 && v[0] == '.'
}

// ---------------------------------------------------------------------
// Assembling the list
// ---------------------------------------------------------------------

/// One run file as the caller found it: its base name, the folder it sits
/// in (`""` at the top level), its absolute path, and what parsing it
/// gave.
pub struct LoadedFile {
    pub file_name: String,
    pub group: String,
    pub source_file: String,
    pub parsed: Result<RunTarget, String>,
}

/// The target a run file stands for: the parsed target in its folder,
/// or, when the file did not parse, a target named after the file that
/// carries the error.
pub open spec fn file_target_ok(f: LoadedFile, t: RunTarget) -> bool {
    &&& t.group@ == f.group@
    &&& t.source_file@ == f.source_file@
    &&& match f.parsed {
        Ok(p) => {
            &&& t.name == p.name
            &&& t.command == p.command
            &&& t.workdir == p.workdir
            &&& t.args == p.args
            &&& t.env == p.env
            &&& t.description == p.description
            &&& t.cleanup == p.cleanup
            &&& t.otel == p.otel
            &&& t.autorun == p.autorun
            &&& t.parse_error == p.parse_error
            &&& t.is_virtual == p.is_virtual
        },
        Err(e) => {
            &&& t.name@ == stem_of(f.file_name@)
            &&& t.parse_error@ == f.file_name@ + ": "@ + e@
            &&& t.command@.len() == 0
            &&& t.workdir@.len() == 0
            &&& t.args@.len() == 0
            &&& t.env@ == Map::<Seq<char>, String>::empty()
            &&& t.description@.len() == 0
            &&& t.cleanup@.len() == 0
            &&& !t.otel
            &&& t.autorun
            &&& !t.is_virtual
        },
    }
}

pub fn file_target(f: LoadedFile) -> (t: RunTarget)
    ensures
        file_target_ok(f, t),
{
    match f.parsed {
        Ok(p) => {
            let mut t = p;
            t.group = f.group;
            t.source_file = f.source_file;
            t
        },
        Err(e) => {
            let mut t = named_target(file_stem(f.file_name.as_str()));
            let mut msg = f.file_name.clone();
            push_str(&mut msg, ": ");
            push_str(&mut msg, e.as_str());
            t.group = f.group;
            t.parse_error = msg;
            t.source_file = f.source_file;
            t
        },
    }
}

/// `s` with `t` placed after every target whose name does not sort after
/// `t`'s: one step of a stable sort by name.
pub open spec fn insert_by_name(s: Seq<RunTarget>, t: RunTarget) -> Seq<RunTarget>
    decreases s.len(),
{
    if s.len() == 0 {
        seq![t]
    } else if seq_lt(t.name@, s.last().name@) {
        insert_by_name(s.drop_last(), t).push(s.last())
    } else {
        s.push(t)
    }
}

/// `s` sorted by name; targets with equal names keep their order.
pub open spec fn sort_by_name(s: Seq<RunTarget>) -> Seq<RunTarget>
    decreases s.len(),
{
    if s.len() == 0 {
        Seq::empty()
    } else {
        insert_by_name(sort_by_name(s.drop_last()), s.last())
    }
}

/// Sorted by name: no target's name sorts before an earlier one's.
pub open spec fn name_sorted(s: Seq<RunTarget>) -> bool {
    forall|i: int, j: int| 0 <= i < j < s.len() ==> !seq_lt(#[trigger] s[j].name@, #[trigger] s[i].name@)
}

fn insert_target(out: &mut Vec<RunTarget>, t: RunTarget)
    ensures
        final(out)@ == insert_by_name(old(out)@, t),
{
    let ghost s = out@;
    let mut j: usize = out.len();
    proof {
        assert(s.take(j as int) =~= s);
        assert(s.skip(j as int) =~= Seq::<RunTarget>::empty());
    }
    while j > 0 && compare(t.name.as_str(), out[j - 1].name.as_str()) == Cmp::Less
        invariant
            j <= out.len(),
            out@ == s,
            insert_by_name(s, t) == insert_by_name(s.take(j as int), t) + s.skip(j as int),
        decreases j,
    {
        proof {
            let p = s.take(j as int);
            assert(p.drop_last() =~= s.take(j as int - 1));
            assert(p.last() == s[j as int - 1]);
            assert(insert_by_name(p, t) == insert_by_name(s.take(j as int - 1), t).push(s[j as int - 1]));
            assert(insert_by_name(s.take(j as int - 1), t).push(s[j as int - 1]) + s.skip(j as int)
                =~= insert_by_name(s.take(j as int - 1), t) + s.skip(j as int - 1));
        }
        j = j - 1;
    }
    proof {
        let p = s.take(j as int);
        if j == 0 {
            assert(insert_by_name(p, t) == seq![t]);
        } else {
            assert(p.last() == s[j as int - 1]);
            assert(insert_by_name(p, t) == p.push(t));
        }
        assert(p.push(t) + s.skip(j as int) =~= s.insert(j as int, t));
    }
    out.insert(j, t);
}

/// The target list for a `.run/` tree: one target per file, in name
/// order (files sharing a name keep the order they were found in).
pub open spec fn assembled(files: Seq<LoadedFile>, ts: Seq<RunTarget>) -> bool {
    exists|unsorted: Seq<RunTarget>|
        unsorted.len() == files.len() && (forall|i: int|
            0 <= i < files.len() ==> file_target_ok(#[trigger] files[i], unsorted[i])) && ts
            == sort_by_name(unsorted)
}

pub fn assemble_targets(files: Vec<LoadedFile>) -> (r: Vec<RunTarget>)
    ensures
        assembled(files@, r@),
{
    let ghost fs = files@;
    let ghost mut unsorted: Seq<RunTarget> = Seq::empty();
    let mut out: Vec<RunTarget> = Vec::new();
    let mut files = files;
    let mut rest: Vec<LoadedFile> = Vec::new();
    // Take the files in their original order.
    let n = files.len();
    let mut k: usize = 0;
    while k < n
        invariant
            k <= n,
            n == fs.len(),
            files@ == fs.take(n - k),
            rest@ == fs.skip(n - k).reverse(),
        decreases n - k,
    {
        let f = files.pop().unwrap();
        let ghost before = rest@;
        rest.push(f);
        proof {
            assert(fs.take(n - k - 1) =~= fs.take(n - k).drop_last());
            assert(fs.skip(n - k - 1).reverse() =~= before.push(fs[n - k - 1]));
        }
        k = k + 1;
    }
    proof {
        assert(fs.skip(0) =~= fs);
    }
    let mut i: usize = 0;
    while i < n
        invariant
            i <= n,
            n == fs.len(),
            rest@.len() == n - i,
            forall|m: int| 0 <= m < n - i ==> #[trigger] rest@[m] == fs[n - 1 - m],
            unsorted.len() == i,
            forall|m: int| 0 <= m < i ==> file_target_ok(#[trigger] fs[m], unsorted[m]),
            out@ == sort_by_name(unsorted),
        decreases n - i,
    {
        let f = rest.pop().unwrap();
        proof {
            assert(f == fs[i as int]);
        }
        let t = file_target(f);
        proof {
            let u2 = unsorted.push(t);
            assert(u2.drop_last() =~= unsorted);
            assert(sort_by_name(u2) == insert_by_name(sort_by_name(unsorted), t));
            unsorted = u2;
        }
        insert_target(&mut out, t);
        i = i + 1;
    }
    proof {
        assert(forall|m: int| 0 <= m < fs.len() ==> file_target_ok(#[trigger] fs[m], unsorted[m]));
    }
    out
}

/// Inserting into a sorted list keeps it sorted.
proof fn lemma_insert_sorted(s: Seq<RunTarget>, t: RunTarget)
    requires
        name_sorted(s),
    ensures
        name_sorted(insert_by_name(s, t)),
        insert_by_name(s, t).len() == s.len() + 1,
        forall|k: int| 0 <= k < insert_by_name(s, t).len() ==> (#[trigger] insert_by_name(s, t)[k] == t
            || s.contains(insert_by_name(s, t)[k])),
    decreases s.len(),
{
    let r = insert_by_name(s, t);
    if s.len() == 0 {
    } else if seq_lt(t.name@, s.last().name@) {
        let p = s.drop_last();
        assert(name_sorted(p));
        lemma_insert_sorted(p, t);
        let q = insert_by_name(p, t);
        assert forall|i: int, j: int| 0 <= i < j < r.len() implies !seq_lt(
            #[trigger] r[j].name@,
            #[trigger] r[i].name@,
        ) by {
            if j == r.len() - 1 {
                // r[j] is s.last(); r[i] is t or an element of p.
                if q[i] == t {
                    lemma_lt_asymmetric_names(t.name@, s.last().name@);
                } else {
                    let m = choose|m: int| 0 <= m < p.len() && p[m] == q[i];
                    assert(s[m] == p[m]);
                    assert(!seq_lt(s[s.len() - 1].name@, s[m].name@));
                }
            }
        }
        assert forall|k: int| 0 <= k < r.len() implies (#[trigger] r[k] == t || s.contains(r[k])) by {
            if k < r.len() - 1 {
                if q[k] != t {
                    let m = choose|m: int| 0 <= m < p.len() && p[m] == q[k];
                    assert(s[m] == q[k]);
                }
            } else {
                assert(s[s.len() - 1] == r[k]);
            }
        }
    } else {
        assert forall|i: int, j: int| 0 <= i < j < r.len() implies !seq_lt(
            #[trigger] r[j].name@,
            #[trigger] r[i].name@,
        ) by {
            if j == r.len() - 1 && i < s.len() {
                // r[j] is t, and t does not sort before s.last() >= s[i].
                if seq_lt(t.name@, s[i].name@) {
                    if i < s.len() - 1 {
                        assert(!seq_lt(s[s.len() - 1].name@, s[i].name@));
                        lemma_lt_total(s[s.len() - 1].name@, s[i].name@);
                        if seq_lt(s[i].name@, s[s.len() - 1].name@) {
                            lemma_lt_transitive(t.name@, s[i].name@, s[s.len() - 1].name@);
                        }
                    }
                }
            }
        }
        assert forall|k: int| 0 <= k < r.len() implies (#[trigger] r[k] == t || s.contains(r[k])) by {
            if k < s.len() {
                assert(s[k] == r[k]);
            }
        }
    }
}

proof fn lemma_lt_asymmetric_names(a: Seq<char>, b: Seq<char>)
    requires
        seq_lt(a, b),
    ensures
        !seq_lt(b, a),
{
    crate::text::lemma_lt_asymmetric(a, b);
}

/// The assembled list is in name order.
pub proof fn lemma_sorted_by_name(s: Seq<RunTarget>)
    ensures
        name_sorted(sort_by_name(s)),
        sort_by_name(s).len() == s.len(),
    decreases s.len(),
{
    if s.len() > 0 {
        lemma_sort_len(s.drop_last());
        lemma_sorted_by_name(s.drop_last());
        lemma_insert_sorted(sort_by_name(s.drop_last()), s.last());
    }
}

proof fn lemma_sort_len(s: Seq<RunTarget>)
    ensures
        sort_by_name(s).len() == s.len(),
    decreases s.len(),
{
    if s.len() > 0 {
        lemma_sort_len(s.drop_last());
        lemma_insert_len(sort_by_name(s.drop_last()), s.last());
    }
}

proof fn lemma_insert_len(s: Seq<RunTarget>, t: RunTarget)
    ensures
        insert_by_name(s, t).len() == s.len() + 1,
    decreases s.len(),
{
    if s.len() > 0 && seq_lt(t.name@, s.last().name@) {
        lemma_insert_len(s.drop_last(), t);
    }
}

// ---------------------------------------------------------------------
// Errors
// ---------------------------------------------------------------------

/// What was wrong with the run directory.
pub enum RunDirProblem {
    Missing,
    /// Looking at it failed with this error.
    Unreadable(String),
    NotADirectory,
}

pub fn run_dir_error(dir: &str, p: &RunDirProblem) -> (r: String)
    ensures
        r@ == (match p {
            RunDirProblem::Missing => "run directory does not exist: "@ + dir@,
            RunDirProblem::Unreadable(e) => "stat run directory: "@ + e@,
            RunDirProblem::NotADirectory => "run directory path is not a directory: "@ + dir@,
        }),
{
    match p {
        RunDirProblem::Missing => {
            let mut s = "run directory does not exist: ".to_owned();
            push_str(&mut s, dir);
            s
        },
        RunDirProblem::Unreadable(e) => {
            let mut s = "stat run directory: ".to_owned();
            push_str(&mut s, e.as_str());
            s
        },
        RunDirProblem::NotADirectory => {
            let mut s = "run directory path is not a directory: ".to_owned();
            push_str(&mut s, dir);
            s
        },
    }
}

} // verus!
