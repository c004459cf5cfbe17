//! `${VAR}` / `$VAR` expansion across run-target fields.
//!
//! Text outside variable references is copied unchanged, non-ASCII
//! characters included; a field without `$` is returned as it is.

use vstd::prelude::*;

use crate::dotenv::{index_of, lemma_index_of, texts};
use crate::strmap::StrMap;
use crate::target::{copy_env, copy_strings, copy_target, RunTarget};
use crate::text::{chars_of, copy_string, push_char};

verus! {

/// Single-character shell special variables (`*`, `#`, `$`, `@`, `!`, `?`,
/// `-`, `0`–`9`).
pub open spec fn is_special(c: char) -> bool {
    c == '*' || c == '#' || c == '$' || c == '@' || c == '!' || c == '?' || c == '-' || ('0' <= c
        && c <= '9')
}

/// `[A-Za-z0-9_]`.
pub open spec fn is_name_char(c: char) -> bool {
    c == '_' || ('0' <= c && c <= '9') || ('a' <= c && c <= 'z') || ('A' <= c && c <= 'Z')
}

/// How many leading characters of `s` are name characters.
pub open spec fn name_len(s: Seq<char>) -> int
    decreases s.len(),
{
    if s.len() > 0 && is_name_char(s[0]) {
        1 + name_len(s.drop_first())
    } else {
        0
    }
}

pub proof fn lemma_name_len(s: Seq<char>)
    ensures
        0 <= name_len(s) <= s.len(),
        forall|j: int| 0 <= j < name_len(s) ==> is_name_char(#[trigger] s[j]),
        name_len(s) < s.len() ==> !is_name_char(s[name_len(s)]),
    decreases s.len(),
{
    if s.len() > 0 && is_name_char(s[0]) {
        lemma_name_len(s.drop_first());
        assert forall|j: int| 0 <= j < name_len(s) implies is_name_char(#[trigger] s[j]) by {
            if j > 0 {
                assert(s[j] == s.drop_first()[j - 1]);
            }
        }
    }
}

/// The variable name that follows a `$`, and how many characters after
/// the `$` the reference takes. An empty name that takes characters
/// (`${}`, or `${` without a closing brace) is invalid syntax, which is
/// dropped; an empty name that takes nothing leaves the `$` as it is.
pub open spec fn shell_name(s: Seq<char>) -> (Seq<char>, int) {
    if s.len() == 0 {
        (Seq::empty(), 0)
    } else if s[0] == '{' {
        if s.len() > 2 && is_special(s[1]) && s[2] == '}' {
            (seq![s[1]], 3)
        } else {
            match index_of(s.drop_first(), '}') {
                Some(j) => if j == 0 {
                    (Seq::empty(), 2)
                } else {
                    (s.subrange(1, j + 1), j + 2)
                },
                None => (Seq::empty(), 1),
            }
        }
    } else if is_special(s[0]) {
        (seq![s[0]], 1)
    } else {
        (s.take(name_len(s)), name_len(s))
    }
}

pub proof fn lemma_shell_name_width(s: Seq<char>)
    ensures
        0 <= shell_name(s).1 <= s.len(),
{
    lemma_name_len(s);
    if s.len() > 0 {
        lemma_index_of(s.drop_first(), '}');
    }
}

/// The value a variable reads as: the `.env` table first, then the process
/// environment, else empty text.
pub open spec fn lookup(
    vars: Map<Seq<char>, Seq<char>>,
    os: Map<Seq<char>, Seq<char>>,
    name: Seq<char>,
) -> Seq<char> {
    if vars.contains_key(name) {
        vars[name]
    } else if os.contains_key(name) {
        os[name]
    } else {
        Seq::empty()
    }
}

/// The expansion of `s`, scanned from its start.
pub open spec fn expand_chars(
    s: Seq<char>,
    vars: Map<Seq<char>, Seq<char>>,
    os: Map<Seq<char>, Seq<char>>,
) -> Seq<char>
    decreases s.len(),
{
    if s.len() == 0 {
        Seq::empty()
    } else if s[0] == '$' && s.len() >= 2 {
        let (name, w) = shell_name(s.drop_first());
        proof {
            lemma_shell_name_width(s.drop_first());
        }
        let piece = if name.len() == 0 && w > 0 {
            Seq::empty()
        } else if name.len() == 0 {
            seq!['$']
        } else {
            lookup(vars, os, name)
        };
        piece + expand_chars(s.skip(1 + w), vars, os)
    } else {
        seq![s[0]] + expand_chars(s.drop_first(), vars, os)
    }
}

/// What `expand` returns for `s`.
pub open spec fn expanded(
    s: Seq<char>,
    vars: Map<Seq<char>, Seq<char>>,
    os: Map<Seq<char>, Seq<char>>,
) -> Seq<char> {
    if s.contains('$') {
        expand_chars(s, vars, os)
    } else {
        s
    }
}

fn is_special_char(c: char) -> (r: bool)
    ensures
        r == is_special(c),
{
    c == '*' || c == '#' || c == '$' || c == '@' || c == '!' || c == '?' || c == '-' || ('0' <= c
        && c <= '9')
}

fn is_alpha_num(c: char) -> (r: bool)
    ensures
        r == is_name_char(c),
{
    c == '_' || ('0' <= c && c <= '9') || ('a' <= c && c <= 'z') || ('A' <= c && c <= 'Z')
}

/// The name after a `$` at position `at`: `(from, to, consumed)`, the
/// name being `v[from..to]` and `consumed` counting characters after the
/// `$`.
fn get_shell_name(v: &Vec<char>, at: usize) -> (r: (usize, usize, usize))
    requires
        at <= v.len(),
    ensures
        at <= r.0 <= r.1 <= v.len(),
        r.2 <= v.len() - at,
        v@.subrange(r.0 as int, r.1 as int) == shell_name(v@.skip(at as int)).0,
        r.2 == shell_name(v@.skip(at as int)).1,
{
    let ghost s = v@.skip(at as int);
    proof {
        lemma_shell_name_width(s);
    }
    if at == v.len() {
        return (at, at, 0);
    }
    if v[at] == '{' {
        if v.len() - at > 2 && is_special_char(v[at + 1]) && v[at + 2] == '}' {
            proof {
                assert(v@.subrange(at + 1, at + 2) =~= seq![s[1]]);
            }
            return (at + 1, at + 2, 3);
        }
        let mut j: usize = at + 1;
        proof {
            assert(s.drop_first() == v@.skip(at + 1));
        }
        while j < v.len() && v[j] != '}'
            invariant
                at + 1 <= j <= v.len(),
                s == v@.skip(at as int),
                index_of(s.drop_first(), '}') == (match index_of(v@.skip(j as int), '}') {
                    Some(k) => Some(k + (j - at - 1)),
                    None => None,
                }),
            decreases v.len() - j,
        {
            proof {
                assert(v@.skip(j as int)[0] == v@[j as int]);
                assert(v@.skip(j as int).drop_first() == v@.skip(j as int + 1));
            }
            j = j + 1;
        }
        if j == v.len() {
            proof {
                assert(v@.skip(j as int).len() == 0);
                assert(v@.subrange(at as int, at as int) =~= Seq::<char>::empty());
            }
            return (at, at, 1);
        }
        proof {
            assert(v@.skip(j as int)[0] == v@[j as int]);
        }
        if j == at + 1 {
            proof {
                assert(v@.subrange(at as int, at as int) =~= Seq::<char>::empty());
            }
            return (at, at, 2);
        }
        proof {
            assert(v@.subrange(at + 1, j as int) =~= s.subrange(1, j - at));
        }
        return (at + 1, j, j - at + 1);
    }
    if is_special_char(v[at]) {
        proof {
            assert(v@.subrange(at as int, at + 1) =~= seq![s[0]]);
        }
        return (at, at + 1, 1);
    }
    let mut k: usize = at;
    proof {
        lemma_name_len(s);
        assert(s == v@.skip(k as int));
    }
    while k < v.len() && is_alpha_num(v[k])
        invariant
            at <= k <= v.len(),
            s == v@.skip(at as int),
            name_len(s) == (k - at) + name_len(v@.skip(k as int)),
        decreases v.len() - k,
    {
        proof {
            assert(v@.skip(k as int)[0] == v@[k as int]);
            assert(v@.skip(k as int).drop_first() == v@.skip(k as int + 1));
        }
        k = k + 1;
    }
    proof {
        if k < v.len() {
            assert(v@.skip(k as int)[0] == v@[k as int]);
        }
        assert(v@.subrange(at as int, k as int) =~= s.take(k - at));
    }
    (at, k, k - at)
}

/// The value `name` reads as (`.env` table first, then the process
/// environment, else empty).
fn lookup_value(vars: &StrMap<String>, os: &StrMap<String>, name: &str) -> (r: String)
    ensures
        r@ == lookup(texts(vars@), texts(os@), name@),
{
    match vars.get(name) {
        Some(v) => copy_string(v),
        None => match os.get(name) {
            Some(v) => copy_string(v),
            None => String::new(),
        },
    }
}

fn contains_dollar(v: &Vec<char>) -> (r: bool)
    ensures
        r == v@.contains('$'),
{
    let mut i: usize = 0;
    while i < v.len()
        invariant
            i <= v.len(),
            forall|j: int| 0 <= j < i ==> v@[j] != '$',
        decreases v.len() - i,
    {
        if v[i] == '$' {
            proof {
                assert(v@[i as int] == '$');
            }
            return true;
        }
        i = i + 1;
    }
    false
}

/// Replaces `${NAME}` and `$NAME` references in `s`:
///
/// - `${NAME}` → the value of `NAME` (empty text when unset)
/// - `$NAME`  → the value of `NAME`, where NAME is `[A-Za-z0-9_]+`
/// - `$<special>` → a single-character shell special variable
/// - `$` with no usable name after it stays as it is; `${}` is dropped.
pub fn expand(s: &str, vars: &StrMap<String>, os: &StrMap<String>) -> (r: String)
    ensures
        r@ == expanded(s@, texts(vars@), texts(os@)),
{
    let v = chars_of(s);
    if !contains_dollar(&v) {
        return copy_string(&crate::text::string_of(&v));
    }
    let ghost vm = texts(vars@);
    let ghost om = texts(os@);
    let mut out = String::new();
    let mut i: usize = 0;
    proof {
        assert(v@.skip(0) == v@);
    }
    while i < v.len()
        invariant
            v@ == s@,
            i <= v.len(),
            vm == texts(vars@),
            om == texts(os@),
            expand_chars(v@, vm, om) == out@ + expand_chars(v@.skip(i as int), vm, om),
        decreases v.len() - i,
    {
        let ghost rest = v@.skip(i as int);
        proof {
            assert(rest[0] == v@[i as int]);
        }
        if v[i] == '$' && i + 1 < v.len() {
            let (from, to, w) = get_shell_name(&v, i + 1);
            proof {
                assert(rest.drop_first() == v@.skip(i + 1));
                assert(rest.skip(1 + w) == v@.skip(i + 1 + w));
            }
            let ghost before = out@;
            if from == to && w > 0 {
                proof {
                    assert(before + Seq::<char>::empty() =~= before);
                }
            } else if from == to {
                push_char(&mut out, '$');
            } else {
                let name = crate::text::string_of_range(&v, from, to);
                let val = lookup_value(vars, os, name.as_str());
                crate::text::push_str(&mut out, val.as_str());
            }
            proof {
                let (nm, ww) = shell_name(rest.drop_first());
                assert(nm.len() == to - from);
                let piece = if nm.len() == 0 && ww > 0 {
                    Seq::empty()
                } else if nm.len() == 0 {
                    seq!['$']
                } else {
                    lookup(vm, om, nm)
                };
                assert(out@ == before + piece);
                assert(expand_chars(rest, vm, om) == piece + expand_chars(
                    v@.skip(i + 1 + w),
                    vm,
                    om,
                ));
                assert(before + (piece + expand_chars(v@.skip(i + 1 + w), vm, om)) =~= out@
                    + expand_chars(v@.skip(i + 1 + w), vm, om));
            }
            i = i + 1 + w;
        } else {
            let ghost before = out@;
            push_char(&mut out, v[i]);
            proof {
                assert(rest.drop_first() == v@.skip(i as int + 1));
                assert(before + (seq![v@[i as int]] + expand_chars(
                    v@.skip(i as int + 1),
                    vm,
                    om,
                )) =~= out@ + expand_chars(v@.skip(i as int + 1), vm, om));
            }
            i = i + 1;
        }
    }
    proof {
        assert(v@.skip(i as int).len() == 0);
        assert(out@ + Seq::<char>::empty() =~= out@);
    }
    out
}

/// Each string of a list, expanded.
pub open spec fn expanded_all(
    v: Seq<String>,
    vars: Map<Seq<char>, Seq<char>>,
    os: Map<Seq<char>, Seq<char>>,
    r: Seq<String>,
) -> bool {
    &&& r.len() == v.len()
    &&& forall|i: int| 0 <= i < v.len() ==> (#[trigger] r[i])@ == expanded(v[i]@, vars, os)
}

fn expand_list(v: &Vec<String>, vars: &StrMap<String>, os: &StrMap<String>) -> (r: Vec<String>)
    ensures
        expanded_all(v@, texts(vars@), texts(os@), r@),
{
    let mut r: Vec<String> = Vec::new();
    let mut i: usize = 0;
    while i < v.len()
        invariant
            i <= v.len(),
            r@.len() == i,
            forall|j: int| 0 <= j < i ==> (#[trigger] r@[j])@ == expanded(
                v@[j]@,
                texts(vars@),
                texts(os@),
            ),
        decreases v.len() - i,
    {
        r.push(expand(v[i].as_str(), vars, os));
        i = i + 1;
    }
    r
}

/// The table with each value expanded.
fn expand_table(m: &StrMap<String>, vars: &StrMap<String>, os: &StrMap<String>) -> (r: StrMap<
    String,
>)
    ensures
        r@.dom() == m@.dom(),
        forall|k: Seq<char>| #[trigger]
            m@.contains_key(k) ==> r@[k]@ == expanded(m@[k]@, texts(vars@), texts(os@)),
{
    let mut r: StrMap<String> = StrMap::new();
    let mut i: usize = 0;
    proof {
        use_type_invariant(m);
        m.lemma_entries();
    }
    while i < m.len()
        invariant
            i <= m.entries_view().len(),
            m.wf(),
            forall|k: Seq<char>| #[trigger]
                r@.contains_key(k) <==> exists|j: int|
                    0 <= j < i && m.entries_view()[j].0 == k,
            forall|j: int|
                0 <= j < i ==> #[trigger] r@[m.entries_view()[j].0]@ == expanded(
                    m.entries_view()[j].1@,
                    texts(vars@),
                    texts(os@),
                ),
        decreases m.entries_view().len() - i,
    {
        let k = copy_string(m.key_at(i));
        let val = expand(m.value_at(i).as_str(), vars, os);
        let ghost kk = k@;
        let ghost prev = r@;
        r.insert(k, val);
        proof {
            m.lemma_entries();
            assert forall|j: int| 0 <= j < i implies #[trigger] r@[m.entries_view()[j].0]@
                == expanded(m.entries_view()[j].1@, texts(vars@), texts(os@)) by {
                crate::text::lemma_lt_irreflexive(kk);
                assert(crate::text::seq_lt(m.entries_view()[j].0, m.entries_view()[i as int].0));
            }
            assert forall|k2: Seq<char>| #[trigger] r@.contains_key(k2) <==> exists|j: int|
                0 <= j < i + 1 && m.entries_view()[j].0 == k2 by {
                if r@.contains_key(k2) && k2 != kk {
                    assert(prev.contains_key(k2));
                }
                if k2 == kk {
                    assert(m.entries_view()[i as int].0 == k2);
                }
            }
        }
        i = i + 1;
    }
    proof {
        m.lemma_entries();
        assert(r@.dom() =~= m@.dom());
        assert forall|k: Seq<char>| #[trigger] m@.contains_key(k) implies r@[k]@ == expanded(
            m@[k]@,
            texts(vars@),
            texts(os@),
        ) by {
            let j = choose|j: int| 0 <= j < m.entries_view().len() && m.entries_view()[j].0 == k;
            assert(m@[m.entries_view()[j].0] == m.entries_view()[j].1);
        }
    }
    r
}

/// Target `t` with its `command`, `workdir`, `args`, `cleanup` and `env`
/// values expanded, and every other field kept.
pub open spec fn expanded_target(
    t: RunTarget,
    vars: Map<Seq<char>, Seq<char>>,
    os: Map<Seq<char>, Seq<char>>,
    r: RunTarget,
) -> bool {
    &&& r.name@ == t.name@
    &&& r.command@ == expanded(t.command@, vars, os)
    &&& r.workdir@ == expanded(t.workdir@, vars, os)
    &&& expanded_all(t.args@, vars, os, r.args@)
    &&& r.env@.dom() == t.env@.dom()
    &&& forall|k: Seq<char>| #[trigger]
        t.env@.contains_key(k) ==> r.env@[k]@ == expanded(t.env@[k]@, vars, os)
    &&& r.description@ == t.description@
    &&& expanded_all(t.cleanup@, vars, os, r.cleanup@)
    &&& r.otel == t.otel
    &&& r.autorun == t.autorun
    &&& r.group@ == t.group@
    &&& r.parse_error@ == t.parse_error@
    &&& r.is_virtual == t.is_virtual
    &&& r.source_file@ == t.source_file@
}

/// Walk every target's `command`, `workdir`, `args`, `cleanup`, and `env`
/// values and replace `${VAR}` / `$VAR` references.
///
/// Lookup precedence: `.env`-loaded `vars` first, then `os_env`, the
/// running process's environment. When `vars` is absent or empty, the
/// targets are returned *unchanged*.
pub fn expand_env(
    targets: Vec<RunTarget>,
    vars: Option<&StrMap<String>>,
    os_env: &StrMap<String>,
) -> (r: Vec<RunTarget>)
    ensures
        match vars {
            Some(m) if m@.len() > 0 => r@.len() == targets@.len() && forall|i: int|
                0 <= i < targets@.len() ==> expanded_target(
                    #[trigger] targets@[i],
                    texts(m@),
                    texts(os_env@),
                    r@[i],
                ),
            _ => r == targets,
        },
{
    let vars = match vars {
        Some(m) => {
            proof {
                use_type_invariant(m);
                m.lemma_entries();
            }
            if m.len() == 0 {
                return targets;
            }
            m
        },
        None => {
            return targets;
        },
    };
    let mut out: Vec<RunTarget> = Vec::new();
    let mut i: usize = 0;
    while i < targets.len()
        invariant
            i <= targets.len(),
            out@.len() == i,
            forall|j: int|
                0 <= j < i ==> expanded_target(
                    #[trigger] targets@[j],
                    texts(vars@),
                    texts(os_env@),
                    out@[j],
                ),
        decreases targets.len() - i,
    {
        let t = &targets[i];
        let mut n = copy_target(t);
        n.command = expand(t.command.as_str(), vars, os_env);
        n.workdir = expand(t.workdir.as_str(), vars, os_env);
        n.args = expand_list(&t.args, vars, os_env);
        n.cleanup = expand_list(&t.cleanup, vars, os_env);
        n.env = expand_table(&t.env, vars, os_env);
        out.push(n);
        i = i + 1;
    }
    out
}

/// A name made of name characters reaches up to the first character that
/// is not one.
proof fn lemma_name_len_of_prefix(n: Seq<char>, rest: Seq<char>)
    requires
        forall|i: int| 0 <= i < n.len() ==> is_name_char(#[trigger] n[i]),
        rest.len() > 0 ==> !is_name_char(rest[0]),
    ensures
        name_len(n + rest) == n.len(),
    decreases n.len(),
{
    if n.len() == 0 {
        assert(n + rest =~= rest);
    } else {
        assert((n + rest).drop_first() =~= n.drop_first() + rest);
        assert((n + rest)[0] == n[0]);
        assert forall|i: int| 0 <= i < n.drop_first().len() implies is_name_char(#[trigger] n.drop_first()[i]) by {
            assert(n.drop_first()[i] == n[i + 1]);
        }
        lemma_name_len_of_prefix(n.drop_first(), rest);
    }
}

/// `$NAME` reads the whole name: for a name of ASCII letters, digits and
/// underscores that starts with a letter or an underscore, `$NAME`
/// followed by a character outside that set expands to the variable's
/// value followed by that character.
pub proof fn lemma_dollar_name_reads_whole_name(
    n: Seq<char>,
    vars: Map<Seq<char>, Seq<char>>,
    os: Map<Seq<char>, Seq<char>>,
)
    requires
        n.len() > 0,
        ('a' <= n[0] && n[0] <= 'z') || ('A' <= n[0] && n[0] <= 'Z') || n[0] == '_',
        forall|i: int|
            0 <= i < n.len() ==> #[trigger] n[i] == '_' || ('0' <= n[i] && n[i] <= '9') || ('a' <= n[i]
                && n[i] <= 'z') || ('A' <= n[i] && n[i] <= 'Z'),
        vars.contains_key(n),
    ensures
        expanded(seq!['$'] + n + seq![':'], vars, os) == vars[n] + seq![':'],
{
    let s = seq!['$'] + n + seq![':'];
    assert(s[0] == '$');
    assert(s.contains('$'));
    let t = s.drop_first();
    assert(t =~= n + seq![':']);
    assert forall|i: int| 0 <= i < n.len() implies is_name_char(#[trigger] n[i]) by {}
    lemma_name_len_of_prefix(n, seq![':']);
    assert(t[0] == n[0]);
    assert(!is_special(t[0]));
    assert(t[0] != '{');
    assert(t.take(n.len() as int) =~= n);
    assert(shell_name(t) == (n, n.len() as int));
    lemma_shell_name_width(t);
    assert(s.skip(1 + n.len() as int) =~= seq![':']);
    let tail = seq![':'];
    assert(tail.drop_first() =~= Seq::<char>::empty());
    assert(expand_chars(Seq::<char>::empty(), vars, os) == Seq::<char>::empty());
    assert(tail[0] == ':');
    assert(expand_chars(tail, vars, os) == seq![tail[0]] + expand_chars(tail.drop_first(), vars, os));
    assert(expand_chars(tail, vars, os) =~= seq![':']);
    assert(expand_chars(s, vars, os) == lookup(vars, os, n) + expand_chars(s.skip(1 + n.len() as int), vars, os));
}

} // verus!
