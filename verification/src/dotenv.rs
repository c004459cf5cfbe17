//! `.env` parsing.
//!
//! - blank lines and `#`-prefixed lines are ignored
//! - optional `export ` prefix is stripped
//! - values may be unquoted, double-quoted, or single-quoted
//! - unquoted values: inline `#` starts a comment; trailing whitespace trimmed
//! - double-quoted values: `\"` unescapes to `"`; no other escapes processed
//! - single-quoted values: no escape processing at all
//! - a later line for the same key overrides an earlier one
//!
//! Reading the file (a missing file is not an error) and seeding the
//! process environment happen at the program's edge; this module parses
//! the text.

use vstd::prelude::*;

use crate::manager::pair_views;
use crate::strmap::StrMap;
use crate::text::{
    chars_of, lemma_split_nl_nonempty, push_char, split_nl, string_of, string_of_range, sub_vec,
    is_ws, trim, trim_end, trim_start, trimmed,
};

verus! {

/// The position of the first `c` in `s`.
pub open spec fn index_of(s: Seq<char>, c: char) -> Option<int>
    decreases s.len(),
{
    if s.len() == 0 {
        None
    } else if s[0] == c {
        Some(0)
    } else {
        match index_of(s.drop_first(), c) {
            Some(i) => Some(i + 1),
            None => None,
        }
    }
}

pub proof fn lemma_index_of(s: Seq<char>, c: char)
    ensures
        match index_of(s, c) {
            Some(i) => 0 <= i < s.len() && s[i] == c && forall|j: int| 0 <= j < i ==> s[j] != c,
            None => forall|j: int| 0 <= j < s.len() ==> s[j] != c,
        },
    decreases s.len(),
{
    if s.len() > 0 {
        lemma_index_of(s.drop_first(), c);
        if s[0] != c {
            match index_of(s.drop_first(), c) {
                Some(i) => {
                    assert forall|j: int| 0 <= j < i + 1 implies s[j] != c by {
                        if j > 0 {
                            assert(s[j] == s.drop_first()[j - 1]);
                        }
                    }
                },
                None => {
                    assert forall|j: int| 0 <= j < s.len() implies s[j] != c by {
                        if j > 0 {
                            assert(s[j] == s.drop_first()[j - 1]);
                        }
                    }
                },
            }
        }
    }
}

/// The first position at or after `from` that holds `c`.
pub fn find_char(v: &Vec<char>, c: char, from: usize) -> (r: Option<usize>)
    requires
        from <= v.len(),
    ensures
        match r {
            Some(i) => from <= i < v.len() && v@[i as int] == c && index_of(v@.skip(from as int), c)
                == Some(i - from),
            None => index_of(v@.skip(from as int), c) is None,
        },
{
    proof {
        lemma_index_of(v@.skip(from as int), c);
    }
    let mut i: usize = from;
    while i < v.len()
        invariant
            from <= i <= v.len(),
            index_of(v@.skip(from as int), c) == (match index_of(v@.skip(i as int), c) {
                Some(k) => Some(k + (i - from)),
                None => None,
            }),
        decreases v.len() - i,
    {
        proof {
            assert(v@.skip(i as int)[0] == v@[i as int]);
            assert(v@.skip(i as int).drop_first() == v@.skip(i as int + 1));
        }
        if v[i] == c {
            return Some(i);
        }
        i = i + 1;
    }
    proof {
        assert(v@.skip(i as int).len() == 0);
    }
    None
}

/// The text of a double-quoted value (after the opening quote): `\"`
/// gives `"`, an unescaped `"` ends the value, and every other character
/// is kept as it is.
pub open spec fn dq_value(s: Seq<char>) -> Seq<char>
    decreases s.len(),
{
    if s.len() == 0 {
        Seq::empty()
    } else if s[0] == '\\' && s.len() >= 2 && s[1] == '"' {
        seq!['"'] + dq_value(s.subrange(2, s.len() as int))
    } else if s[0] == '"' {
        Seq::empty()
    } else {
        seq![s[0]] + dq_value(s.drop_first())
    }
}

/// The value part of a `KEY=VALUE` line.
pub open spec fn value_of(raw: Seq<char>) -> Seq<char> {
    let v = trim(raw);
    if v.len() == 0 {
        Seq::empty()
    } else if v[0] == '"' {
        dq_value(v.drop_first())
    } else if v[0] == '\'' {
        let r = v.drop_first();
        match index_of(r, '\'') {
            Some(e) => r.take(e),
            None => r,
        }
    } else {
        trim(
            match index_of(v, '#') {
                Some(i) => v.take(i),
                None => v,
            },
        )
    }
}

fn dq_unescape(b: &Vec<char>) -> (r: String)
    requires
        b@.len() >= 1,
    ensures
        r@ == dq_value(b@.drop_first()),
{
    let mut out = String::new();
    let mut i: usize = 1;
    proof {
        assert(b@.skip(1) == b@.drop_first());
    }
    while i < b.len()
        invariant
            1 <= i <= b.len() + 1,
            i <= b.len() ==> dq_value(b@.drop_first()) == out@ + dq_value(b@.skip(i as int)),
            i > b.len() ==> dq_value(b@.drop_first()) == out@,
        decreases b.len() + 1 - i,
    {
        let ghost rest = b@.skip(i as int);
        proof {
            assert(rest[0] == b@[i as int]);
        }
        if b[i] == '\\' && i + 1 < b.len() && b[i + 1] == '"' {
            proof {
                assert(rest[1] == b@[i as int + 1]);
                assert(rest.subrange(2, rest.len() as int) == b@.skip(i as int + 2));
                assert(out@.push('"') + dq_value(b@.skip(i as int + 2)) =~= out@ + (seq!['"']
                    + dq_value(b@.skip(i as int + 2))));
            }
            push_char(&mut out, '"');
            i = i + 2;
        } else if b[i] == '"' {
            proof {
                assert(out@ + Seq::<char>::empty() =~= out@);
            }
            return out;
        } else {
            let c = b[i];
            proof {
                assert(rest.drop_first() == b@.skip(i as int + 1));
                assert(out@.push(c) + dq_value(b@.skip(i as int + 1)) =~= out@ + (seq![c]
                    + dq_value(b@.skip(i as int + 1))));
            }
            push_char(&mut out, c);
            i = i + 1;
        }
    }
    proof {
        if i == b.len() {
            assert(b@.skip(i as int).len() == 0);
            assert(out@ + Seq::<char>::empty() =~= out@);
        }
    }
    out
}

/// Extract the value portion of a `KEY=VALUE` line.
fn parse_value(raw: &Vec<char>) -> (r: String)
    ensures
        r@ == value_of(raw@),
{
    let v = trimmed(raw);
    if v.len() == 0 {
        return String::new();
    }
    if v[0] == '"' {
        let r = dq_unescape(&v);
        proof {
            assert(v@ == trim(raw@));
        }
        r
    } else if v[0] == '\'' {
        match find_char(&v, '\'', 1) {
            Some(end) => {
                proof {
                    assert(v@.skip(1) == v@.drop_first());
                    assert(v@.drop_first().take(end - 1) == v@.subrange(1, end as int));
                }
                string_of_range(&v, 1, end)
            },
            None => {
                proof {
                    assert(v@.skip(1) == v@.drop_first());
                    assert(v@.drop_first() == v@.subrange(1, v.len() as int));
                }
                string_of_range(&v, 1, v.len())
            },
        }
    } else {
        proof {
            assert(v@.skip(0) == v@);
        }
        let cut = match find_char(&v, '#', 0) {
            Some(i) => {
                proof {
                    assert(index_of(v@, '#') == Some(i as int));
                    assert(v@.take(i as int) == v@.subrange(0, i as int));
                }
                sub_vec(&v, 0, i)
            },
            None => {
                proof {
                    assert(index_of(v@, '#') is None);
                    assert(v@ == v@.subrange(0, v.len() as int));
                }
                sub_vec(&v, 0, v.len())
            },
        };
        let r = string_of(&trimmed(&cut));
        proof {
            assert(v@ == trim(raw@));
            assert(r@ == value_of(raw@));
        }
        r
    }
}

/// `line` without a leading `export `.
pub open spec fn strip_export(line: Seq<char>) -> Seq<char> {
    if line.len() >= 7 && line.take(7) == "export "@ {
        line.skip(7)
    } else {
        line
    }
}

/// The key and value that one raw line of a `.env` file sets, if any.
pub open spec fn dotenv_line(raw: Seq<char>) -> Option<(Seq<char>, Seq<char>)> {
    let line = trim(raw);
    if line.len() == 0 || line[0] == '#' {
        None
    } else {
        let l = trim(strip_export(line));
        match index_of(l, '=') {
            None => None,
            Some(idx) => {
                let key = trim(l.take(idx));
                if key.len() == 0 {
                    None
                } else {
                    Some((key, value_of(l.skip(idx + 1))))
                }
            },
        }
    }
}

/// The table the lines set, later lines overriding earlier ones.
pub open spec fn dotenv_table(lines: Seq<Seq<char>>) -> Map<Seq<char>, Seq<char>>
    decreases lines.len(),
{
    if lines.len() == 0 {
        Map::empty()
    } else {
        let t = dotenv_table(lines.drop_last());
        match dotenv_line(lines.last()) {
            Some((k, v)) => t.insert(k, v),
            None => t,
        }
    }
}

/// The table a `.env` text sets.
pub open spec fn dotenv_vars(data: Seq<char>) -> Map<Seq<char>, Seq<char>> {
    dotenv_table(split_nl(data))
}

/// The values of a string table, as text.
pub open spec fn texts(m: Map<Seq<char>, String>) -> Map<Seq<char>, Seq<char>> {
    m.map_values(|s: String| s@)
}

fn starts_with_export(line: &Vec<char>) -> (r: bool)
    ensures
        r == (line@.len() >= 7 && line@.take(7) == "export "@),
{
    let p = chars_of("export ");
    if line.len() < 7 || p.len() != 7 {
        proof {
            if line@.len() >= 7 {
                assert(line@.take(7).len() == 7);
            }
        }
        return false;
    }
    let mut i: usize = 0;
    while i < 7
        invariant
            p@ == "export "@,
            p.len() == 7,
            line.len() >= 7,
            i <= 7,
            forall|k: int| 0 <= k < i ==> line@[k] == p@[k],
        decreases 7 - i,
    {
        if line[i] != p[i] {
            proof {
                assert(line@.take(7)[i as int] != p@[i as int]);
            }
            return false;
        }
        i = i + 1;
    }
    proof {
        assert(line@.take(7) =~= p@);
    }
    true
}

/// The key and value that one raw line sets, if any.
fn parse_line(raw: &Vec<char>) -> (r: Option<(String, String)>)
    ensures
        match r {
            Some((k, v)) => dotenv_line(raw@) == Some((k@, v@)),
            None => dotenv_line(raw@) is None,
        },
{
    let line = trimmed(raw);
    if line.len() == 0 || line[0] == '#' {
        return None;
    }
    let stripped = if starts_with_export(&line) {
        proof {
            assert(line@.skip(7) == line@.subrange(7, line.len() as int));
        }
        sub_vec(&line, 7, line.len())
    } else {
        proof {
            assert(line@ == line@.subrange(0, line.len() as int));
        }
        sub_vec(&line, 0, line.len())
    };
    let l = trimmed(&stripped);
    proof {
        assert(l@.skip(0) == l@);
    }
    let idx = match find_char(&l, '=', 0) {
        Some(i) => i,
        None => {
            return None;
        },
    };
    proof {
        assert(l@.take(idx as int) == l@.subrange(0, idx as int));
        assert(l@.skip(idx + 1) == l@.subrange(idx + 1, l.len() as int));
    }
    let key = trimmed(&sub_vec(&l, 0, idx));
    if key.len() == 0 {
        return None;
    }
    let value = parse_value(&sub_vec(&l, idx + 1, l.len()));
    Some((string_of(&key), value))
}

/// Parse the text of a `.env` file into its key/value table.
pub fn parse_dotenv_str(data: &str) -> (r: StrMap<String>)
    ensures
        texts(r@) == dotenv_vars(data@),
{
    let v = chars_of(data);
    let mut out: StrMap<String> = StrMap::new();
    let mut cur: Vec<char> = Vec::new();
    let mut i: usize = 0;
    proof {
        assert(v@.take(0) =~= Seq::<char>::empty());
        assert(texts(out@) =~= Map::<Seq<char>, Seq<char>>::empty());
    }
    while i < v.len()
        invariant
            v@ == data@,
            i <= v.len(),
            split_nl(v@.take(i as int)).len() >= 1,
            cur@ == split_nl(v@.take(i as int)).last(),
            texts(out@) == dotenv_table(split_nl(v@.take(i as int)).drop_last()),
        decreases v.len() - i,
    {
        let ghost pre = v@.take(i as int);
        proof {
            assert(v@.take(i as int + 1).drop_last() == pre);
            assert(v@.take(i as int + 1).last() == v@[i as int]);
        }
        if v[i] == '\n' {
            let ghost p = split_nl(pre);
            let ghost prev = out@;
            match parse_line(&cur) {
                Some((k, val)) => {
                    let ghost kv = k@;
                    let ghost vv = val@;
                    out.insert(k, val);
                    proof {
                        assert(texts(out@) =~= texts(prev).insert(kv, vv));
                    }
                },
                None => {},
            }
            proof {
                assert(p.push(Seq::empty()).drop_last() == p);
                assert(p == p.drop_last().push(p.last()));
            }
            cur = Vec::new();
        } else {
            cur.push(v[i]);
            proof {
                let p = split_nl(pre);
                assert(p.update(p.len() - 1, p.last().push(v@[i as int])).drop_last()
                    =~= p.drop_last());
            }
        }
        proof {
            lemma_split_nl_nonempty(v@.take(i as int + 1));
        }
        i = i + 1;
    }
    proof {
        assert(v@.take(v.len() as int) == v@);
        let p = split_nl(v@);
        assert(p == p.drop_last().push(p.last()));
    }
    let ghost prev = out@;
    match parse_line(&cur) {
        Some((k, val)) => {
            let ghost kv = k@;
            let ghost vv = val@;
            out.insert(k, val);
            proof {
                assert(texts(out@) =~= texts(prev).insert(kv, vv));
            }
        },
        None => {},
    }
    out
}

/// The `.env` pairs that take effect in an environment holding the keys of
/// `os`: the environment wins, so only the keys it lacks are added, in
/// the table's order.
pub open spec fn unset_pairs(d: Seq<(Seq<char>, String)>, os: Map<Seq<char>, String>) -> Seq<
    (Seq<char>, Seq<char>),
>
    decreases d.len(),
{
    if d.len() == 0 {
        Seq::empty()
    } else {
        let prev = unset_pairs(d.drop_last(), os);
        let e = d.last();
        if os.contains_key(e.0) {
            prev
        } else {
            prev.push((e.0, e.1@))
        }
    }
}

/// The `.env` pairs to set on top of the environment `os`: those whose key
/// `os` does not already hold.
pub fn dotenv_additions(dotenv: &StrMap<String>, os: &StrMap<String>) -> (r: Vec<(String, String)>)
    ensures
        pair_views(r@) == unset_pairs(dotenv.entries_view(), os@),
{
    let mut r: Vec<(String, String)> = Vec::new();
    let mut i: usize = 0;
    while i < dotenv.len()
        invariant
            i <= dotenv.entries_view().len(),
            pair_views(r@) == unset_pairs(dotenv.entries_view().take(i as int), os@),
        decreases dotenv.entries_view().len() - i,
    {
        let k = dotenv.key_at(i);
        let ghost before = r@;
        proof {
            assert(dotenv.entries_view().take(i as int + 1).drop_last() =~= dotenv.entries_view().take(
                i as int,
            ));
        }
        if !os.contains_key(k.as_str()) {
            let v = dotenv.value_at(i);
            r.push((k.clone(), v.clone()));
            proof {
                assert(pair_views(r@) =~= pair_views(before).push((k@, v@)));
            }
        }
        i = i + 1;
    }
    proof {
        assert(dotenv.entries_view().take(dotenv.entries_view().len() as int) =~= dotenv.entries_view());
    }
    r
}

/// In `x` followed by `c`, where `x` holds no `c`, the first `c` is the
/// last character.
proof fn lemma_index_of_end(x: Seq<char>, c: char)
    requires
        forall|i: int| 0 <= i < x.len() ==> #[trigger] x[i] != c,
    ensures
        index_of(x + seq![c], c) == Some(x.len() as int),
    decreases x.len(),
{
    if x.len() == 0 {
        assert(x + seq![c] =~= seq![c]);
    } else {
        assert((x + seq![c]).drop_first() =~= x.drop_first() + seq![c]);
        assert((x + seq![c])[0] == x[0]);
        assert forall|i: int| 0 <= i < x.drop_first().len() implies #[trigger] x.drop_first()[i] != c by {
            assert(x.drop_first()[i] == x[i + 1]);
        }
        lemma_index_of_end(x.drop_first(), c);
    }
}

/// A single-quoted value is taken literally: `'x'`, where `x` holds no
/// single quote, reads as `x` itself, whatever else (`#`, `"`, `\`,
/// spaces) it holds.
pub proof fn lemma_single_quoted_is_literal(x: Seq<char>)
    requires
        forall|i: int| 0 <= i < x.len() ==> #[trigger] x[i] != '\'',
    ensures
        value_of(seq!['\''] + x + seq!['\'']) == x,
{
    let raw = seq!['\''] + x + seq!['\''];
    assert(raw[0] == '\'');
    assert(raw.last() == '\'');
    assert(!is_ws('\'')) by {
        assert(('\'' as u32) == 39);
    }
    assert(trim_start(raw) == raw);
    assert(trim_end(raw) == raw);
    assert(trim(raw) == raw);
    assert(raw.drop_first() =~= x + seq!['\'']);
    lemma_index_of_end(x, '\'');
    assert((x + seq!['\'']).take(x.len() as int) =~= x);
}

} // verus!
