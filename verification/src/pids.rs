//! Ledger of every OTel collector a project has spawned.
//!
//! `<state-dir>/otel-pids` is an append-only list of decimal PIDs, one per
//! line: it remembers what was spawned even after `state.json` has moved
//! on, so a sweep can still signal a superseded collector. This module
//! holds the ledger's text format: reading it (`load`), adding a PID
//! (`record`) and writing it (`render`).

use vstd::prelude::*;

use crate::text::{
    lemma_split_nl_nonempty, split_nl,
    all_digits, chars_of, decimal, decimal_nat, digit_char, digit_value, digits_value, i64_to_string, is_digit,
    is_ws, parse_i32, parse_i32_chars, push_char, push_str, trim, trim_start, trimmed,
};

verus! {

/// The PIDs a list of ledger lines holds: each line trimmed and parsed as
/// an `i32`; lines that do not parse, and non-positive numbers, skipped.
pub open spec fn pids_of(lines: Seq<Seq<char>>) -> Seq<i32>
    decreases lines.len(),
{
    if lines.len() == 0 {
        Seq::empty()
    } else {
        let rest = pids_of(lines.drop_last());
        match parse_i32(trim(lines.last())) {
            Some(p) => if p > 0 {
                rest.push(p)
            } else {
                rest
            },
            None => rest,
        }
    }
}

/// The PIDs the ledger text `s` records.
pub open spec fn ledger_pids(s: Seq<char>) -> Seq<i32> {
    pids_of(split_nl(s))
}

/// The ledger text for `pids`: one decimal PID per line.
pub open spec fn ledger_text(pids: Seq<i32>) -> Seq<char>
    decreases pids.len(),
{
    if pids.len() == 0 {
        Seq::empty()
    } else {
        ledger_text(pids.drop_last()) + decimal(pids.last() as int) + seq!['\n']
    }
}

fn take_pid(piece: &Vec<char>, pids: &mut Vec<i32>)
    ensures
        final(pids)@ == (match parse_i32(trim(piece@)) {
            Some(p) => if p > 0 {
                old(pids)@.push(p)
            } else {
                old(pids)@
            },
            None => old(pids)@,
        }),
{
    let t = trimmed(piece);
    match parse_i32_chars(&t) {
        Some(p) => {
            if p > 0 {
                pids.push(p);
            }
        },
        None => {},
    }
}

/// Read the recorded PIDs. Missing or unparseable entries are skipped
/// rather than failing the caller — a corrupt ledger must never block
/// stopping the collector we *can* account for.
pub fn load(text: &str) -> (r: Vec<i32>)
    ensures
        r@ == ledger_pids(text@),
{
    let v = chars_of(text);
    let mut pids: Vec<i32> = Vec::new();
    let mut cur: Vec<char> = Vec::new();
    let mut i: usize = 0;
    proof {
        assert(v@.take(0) =~= Seq::<char>::empty());
    }
    while i < v.len()
        invariant
            v@ == text@,
            i <= v.len(),
            split_nl(v@.take(i as int)).len() >= 1,
            cur@ == split_nl(v@.take(i as int)).last(),
            pids@ == pids_of(split_nl(v@.take(i as int)).drop_last()),
        decreases v.len() - i,
    {
        let ghost pre = v@.take(i as int);
        proof {
            assert(v@.take(i as int + 1).drop_last() == pre);
            assert(v@.take(i as int + 1).last() == v@[i as int]);
        }
        if v[i] == '\n' {
            take_pid(&cur, &mut pids);
            proof {
                let p = split_nl(pre);
                assert(p.push(Seq::empty()).drop_last() == p);
                assert(p == p.drop_last().push(p.last()));
            }
            cur = Vec::new();
        } else {
            cur.push(v[i]);
            proof {
                let p = split_nl(pre);
                assert(p.update(p.len() - 1, p.last().push(v@[i as int])).drop_last() =~= p.drop_last());
            }
        }
        i = i + 1;
    }
    proof {
        assert(v@.take(v.len() as int) == v@);
        let p = split_nl(v@);
        assert(p == p.drop_last().push(p.last()));
    }
    take_pid(&cur, &mut pids);
    pids
}

/// The ledger text for `pids`, one decimal PID per line.
pub fn render(pids: &Vec<i32>) -> (r: String)
    ensures
        r@ == ledger_text(pids@),
{
    let mut out = String::new();
    let mut i: usize = 0;
    while i < pids.len()
        invariant
            i <= pids.len(),
            out@ == ledger_text(pids@.take(i as int)),
        decreases pids.len() - i,
    {
        let d = i64_to_string(pids[i] as i64);
        push_str(&mut out, d.as_str());
        push_char(&mut out, '\n');
        proof {
            assert(pids@.take(i as int + 1).drop_last() == pids@.take(i as int));
            assert(pids@.take(i as int + 1).last() == pids@[i as int]);
        }
        i = i + 1;
    }
    proof {
        assert(pids@.take(pids.len() as int) == pids@);
    }
    out
}

pub open spec fn strictly_increasing(s: Seq<i32>) -> bool {
    forall|i: int, j: int| 0 <= i < j < s.len() ==> s[i] < s[j]
}

/// Inserts `x` into the strictly increasing `v`, unless already there.
fn insert_sorted(v: &mut Vec<i32>, x: i32)
    requires
        strictly_increasing(old(v)@),
    ensures
        strictly_increasing(final(v)@),
        forall|y: i32| final(v)@.contains(y) <==> (old(v)@.contains(y) || y == x),
{
    let mut k: usize = 0;
    while k < v.len() && v[k] < x
        invariant
            v@ == old(v)@,
            strictly_increasing(v@),
            k <= v.len(),
            forall|j: int| 0 <= j < k ==> v@[j] < x,
        decreases v.len() - k,
    {
        k = k + 1;
    }
    if k < v.len() && v[k] == x {
        proof {
            assert(v@[k as int] == x);
            assert(old(v)@.contains(x));
            assert(forall|y: i32| v@.contains(y) <==> (old(v)@.contains(y) || y == x));
        }
        return;
    }
    let ghost old_v = v@;
    v.insert(k, x);
    proof {
        assert(old_v == old(v)@);
        assert(v@ == old_v.insert(k as int, x));
        assert forall|y: i32| v@.contains(y) <==> (old_v.contains(y) || y == x) by {
            if v@.contains(y) {
                let j = choose|j: int| 0 <= j < v@.len() && v@[j] == y;
                if j < k {
                    assert(old_v[j] == y);
                } else if j > k {
                    assert(old_v[j - 1] == y);
                }
            }
            if old_v.contains(y) {
                let j = choose|j: int| 0 <= j < old_v.len() && old_v[j] == y;
                if j < k {
                    assert(v@[j] == y);
                } else {
                    assert(v@[j + 1] == y);
                }
            }
            if y == x {
                assert(v@[k as int] == x);
            }
        }
        assert(forall|y: i32| v@.contains(y) <==> (old(v)@.contains(y) || y == x));
    }
}

/// Record `pid` as a collector belonging to this project: the new ledger
/// (sorted, without duplicates) when `pid` is positive and not yet
/// recorded, `None` when nothing needs writing.
pub fn record(pids: &Vec<i32>, pid: i32) -> (r: Option<Vec<i32>>)
    ensures
        match r {
            None => pid <= 0 || pids@.contains(pid),
            Some(v) => pid > 0 && !pids@.contains(pid) && strictly_increasing(v@) && (forall|
                y: i32,
            | v@.contains(y) <==> (pids@.contains(y) || y == pid)),
        },
{
    if pid <= 0 {
        return None;
    }
    let mut out: Vec<i32> = Vec::new();
    let mut i: usize = 0;
    let mut seen = false;
    while i < pids.len()
        invariant
            i <= pids.len(),
            strictly_increasing(out@),
            forall|y: i32| out@.contains(y) <==> pids@.take(i as int).contains(y),
            seen == pids@.take(i as int).contains(pid),
        decreases pids.len() - i,
    {
        proof {
            let t = pids@.take(i as int);
            let t1 = pids@.take(i as int + 1);
            assert(t1 == t.push(pids@[i as int]));
            assert forall|y: i32| t1.contains(y) <==> (t.contains(y) || y == pids@[i as int]) by {
                if t1.contains(y) {
                    let j = choose|j: int| 0 <= j < t1.len() && t1[j] == y;
                    if j < i {
                        assert(t[j] == y);
                    }
                }
                if t.contains(y) {
                    let j = choose|j: int| 0 <= j < t.len() && t[j] == y;
                    assert(t1[j] == y);
                }
                if y == pids@[i as int] {
                    assert(t1[i as int] == y);
                }
            }
        }
        if pids[i] == pid {
            seen = true;
        }
        insert_sorted(&mut out, pids[i]);
        i = i + 1;
    }
    proof {
        assert(pids@.take(pids.len() as int) == pids@);
    }
    if seen {
        return None;
    }
    insert_sorted(&mut out, pid);
    Some(out)
}

// ---------------------------------------------------------------------
// Writing a ledger and reading it back gives the same PIDs.
// ---------------------------------------------------------------------

proof fn lemma_split_append_plain(s: Seq<char>, t: Seq<char>)
    requires
        forall|i: int| 0 <= i < t.len() ==> t[i] != '\n',
    ensures
        split_nl(s + t) == split_nl(s).drop_last().push(split_nl(s).last() + t),
    decreases t.len(),
{
    lemma_split_nl_nonempty(s);
    if t.len() == 0 {
        assert(s + t == s);
        let p = split_nl(s);
        assert(p.drop_last().push(p.last() + t) =~= p);
    } else {
        let t0 = t.drop_last();
        lemma_split_append_plain(s, t0);
        assert((s + t).drop_last() == s + t0);
        assert((s + t).last() == t.last());
        let p = split_nl(s);
        let q = split_nl(s + t0);
        lemma_split_nl_nonempty(s + t0);
        assert(t[t.len() - 1] != '\n');
        assert((p.last() + t0).push(t.last()) =~= p.last() + t);
        assert(q.update(q.len() - 1, q.last().push(t.last())) =~= p.drop_last().push(p.last() + t));
    }
}

proof fn lemma_split_append_nl(s: Seq<char>)
    ensures
        split_nl(s + seq!['\n']) == split_nl(s).push(Seq::empty()),
{
    assert((s + seq!['\n']).drop_last() == s);
}

proof fn lemma_decimal_nat_digits(n: nat)
    ensures
        all_digits(decimal_nat(n)),
        digits_value(decimal_nat(n)) == n,
        decimal_nat(n).len() >= 1,
    decreases n,
{
    lemma_digit_char_value(n % 10);
    if n >= 10 {
        lemma_decimal_nat_digits(n / 10);
        let d = decimal_nat(n / 10);
        let e = d.push(digit_char(n % 10));
        assert(e.drop_last() == d);
        assert(digits_value(e) == 10 * digits_value(d) + digit_value(e.last()));
        assert(n == 10 * (n / 10) + n % 10);
        assert(decimal_nat(n) == e);
        assert forall|i: int| 0 <= i < e.len() implies is_digit(#[trigger] e[i]) by {
            if i < d.len() {
                assert(e[i] == d[i]);
            }
        }
    } else {
        let e = seq![digit_char(n)];
        assert(decimal_nat(n) == e);
        assert(e.drop_last() =~= Seq::<char>::empty());
        assert(e.last() == digit_char(n));
        assert(digits_value(e) == 10 * digits_value(e.drop_last()) + digit_value(e.last()));
        assert(is_digit(e[0]));
    }
}

proof fn lemma_digit_char_value(d: nat)
    requires
        d < 10,
    ensures
        digit_value(digit_char(d)) == d,
        is_digit(digit_char(d)),
{
}

proof fn lemma_digits_no_ws(s: Seq<char>)
    requires
        all_digits(s),
        s.len() >= 1,
    ensures
        trim(s) == s,
{
    assert(!is_ws(s[0]));
    assert(trim_start(s) == s);
    assert(!is_ws(s.last()));
}

/// A positive PID's numeral reads back as the PID.
proof fn lemma_parse_decimal(p: i32)
    requires
        p > 0,
    ensures
        parse_i32(trim(decimal(p as int))) == Some(p),
        forall|i: int| 0 <= i < decimal(p as int).len() ==> #[trigger] decimal(p as int)[i] != '\n',
{
    lemma_decimal_nat_digits(p as nat);
    let d = decimal(p as int);
    assert(d == decimal_nat(p as nat));
    lemma_digits_no_ws(d);
    assert(!(d[0] == '-') && !(d[0] == '+'));
}

proof fn lemma_empty_line_holds_no_pid()
    ensures
        parse_i32(trim(Seq::<char>::empty())) is None,
{
    assert(trim_start(Seq::<char>::empty()) == Seq::<char>::empty());
    assert(trim(Seq::<char>::empty()) == Seq::<char>::empty());
}

/// The lines of a ledger that ends in a newline, less the final empty
/// piece, carry its PIDs.
proof fn lemma_pids_of_trailing_empty(lines: Seq<Seq<char>>)
    requires
        lines.len() >= 1,
        lines.last() == Seq::<char>::empty(),
    ensures
        pids_of(lines) == pids_of(lines.drop_last()),
{
    lemma_empty_line_holds_no_pid();
}

proof fn lemma_pids_of_push_pid(lines: Seq<Seq<char>>, d: Seq<char>, p: i32)
    requires
        p > 0,
        parse_i32(trim(d)) == Some(p),
    ensures
        pids_of(lines.push(d)) == pids_of(lines).push(p),
{
    assert(lines.push(d).drop_last() == lines);
}

/// Writing a ledger of positive PIDs and reading it back gives the same
/// PIDs, in the same order.
pub proof fn lemma_ledger_roundtrip(pids: Seq<i32>)
    requires
        forall|i: int| 0 <= i < pids.len() ==> pids[i] > 0,
    ensures
        ledger_pids(ledger_text(pids)) == pids,
        split_nl(ledger_text(pids)).last() == Seq::<char>::empty(),
    decreases pids.len(),
{
    if pids.len() == 0 {
        let lines = split_nl(Seq::<char>::empty());
        assert(lines == seq![Seq::<char>::empty()]);
        lemma_pids_of_trailing_empty(lines);
        assert(lines.drop_last() =~= Seq::<Seq<char>>::empty());
    } else {
        let rest = pids.drop_last();
        let p = pids.last();
        lemma_ledger_roundtrip(rest);
        let s = ledger_text(rest);
        let d = decimal(p as int);
        lemma_parse_decimal(p);
        lemma_split_append_plain(s, d);
        lemma_split_append_nl(s + d);
        let q = split_nl(s);
        lemma_split_nl_nonempty(s);
        let lines = q.drop_last().push(q.last() + d).push(Seq::<char>::empty());
        assert(split_nl(ledger_text(pids)) == lines);
        assert(q.last() + d =~= d);
        lemma_pids_of_trailing_empty(lines);
        assert(lines.drop_last() == q.drop_last().push(d));
        lemma_pids_of_push_pid(q.drop_last(), d, p);
        lemma_pids_of_trailing_empty(q);
        assert(pids =~= rest.push(p));
    }
}

} // verus!
