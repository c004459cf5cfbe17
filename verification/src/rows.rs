//! Sidebar row computation.
//!
//! The sidebar shows a flat list of folder headers + target rows. Targets
//! grouped under a folder (`RunTarget.group != ""`) collapse under a `▶`
//! header; the user toggles individual folders open. Virtual targets (the
//! OTel collector) sit at the bottom, below a separator row that the
//! selection never lands on.

use vstd::prelude::*;

use crate::strmap::{keys_of, StrMap};
use crate::target::RunTarget;
use crate::text::{copy_string, lemma_lt_irreflexive, lemma_lt_total, lemma_lt_transitive, seq_lt};

verus! {

/// One sidebar row.
#[derive(Debug, Clone, PartialEq, Eq)]
pub enum Row {
    /// A folder header. `group` is the directory name, `expanded` picks the
    /// glyph (▶ vs ▼), `count` is the number of targets in the folder.
    Folder { group: String, expanded: bool, count: usize },
    /// A target row. `target_idx` indexes into the target list; `group` is
    /// the folder the target belongs to (`""` = top level).
    Target { target_idx: usize, group: String },
    /// The unselectable line above the virtual targets.
    Separator,
}

/// A row as the contracts see it.
pub enum RowV {
    Folder(Seq<char>, bool, nat),
    Target(nat, Seq<char>),
    Separator,
}

impl View for Row {
    type V = RowV;

    open spec fn view(&self) -> RowV {
        match self {
            Row::Folder { group, expanded, count } => RowV::Folder(group@, *expanded, *count as nat),
            Row::Target { target_idx, group } => RowV::Target(*target_idx as nat, group@),
            Row::Separator => RowV::Separator,
        }
    }
}

pub open spec fn row_views(rows: Seq<Row>) -> Seq<RowV> {
    rows.map_values(|r: Row| r@)
}

/// A top-level (ungrouped, non-virtual) target.
pub open spec fn is_top(t: RunTarget) -> bool {
    !t.is_virtual && t.group@.len() == 0
}

/// A non-virtual target in folder `g`.
pub open spec fn in_group(t: RunTarget, g: Seq<char>) -> bool {
    !t.is_virtual && g.len() > 0 && t.group@ == g
}

/// Rows for the top-level targets, in list order.
pub open spec fn top_rows(ts: Seq<RunTarget>) -> Seq<RowV>
    decreases ts.len(),
{
    if ts.len() == 0 {
        Seq::empty()
    } else if is_top(ts.last()) {
        top_rows(ts.drop_last()).push(RowV::Target((ts.len() - 1) as nat, Seq::empty()))
    } else {
        top_rows(ts.drop_last())
    }
}

/// The positions of the targets in folder `g`, in list order.
pub open spec fn member_indices(ts: Seq<RunTarget>, g: Seq<char>) -> Seq<nat>
    decreases ts.len(),
{
    if ts.len() == 0 {
        Seq::empty()
    } else if in_group(ts.last(), g) {
        member_indices(ts.drop_last(), g).push((ts.len() - 1) as nat)
    } else {
        member_indices(ts.drop_last(), g)
    }
}

/// Rows for the members of folder `g`.
pub open spec fn member_rows(ts: Seq<RunTarget>, g: Seq<char>) -> Seq<RowV> {
    member_indices(ts, g).map_values(|i: nat| RowV::Target(i, g))
}

/// Rows for the virtual targets, in list order.
pub open spec fn virtual_rows(ts: Seq<RunTarget>) -> Seq<RowV>
    decreases ts.len(),
{
    if ts.len() == 0 {
        Seq::empty()
    } else if ts.last().is_virtual {
        virtual_rows(ts.drop_last()).push(RowV::Target((ts.len() - 1) as nat, Seq::empty()))
    } else {
        virtual_rows(ts.drop_last())
    }
}

/// The folders, without repeats.
pub open spec fn has_group(ts: Seq<RunTarget>, g: Seq<char>) -> bool {
    exists|i: int| 0 <= i < ts.len() && in_group(#[trigger] ts[i], g)
}

pub open spec fn strictly_sorted(gs: Seq<Seq<char>>) -> bool {
    forall|i: int, j: int| 0 <= i < j < gs.len() ==> seq_lt(#[trigger] gs[i], #[trigger] gs[j])
}

/// The folders in alphabetical order.
pub open spec fn group_order(ts: Seq<RunTarget>) -> Seq<Seq<char>> {
    choose|gs: Seq<Seq<char>>|
        strictly_sorted(gs) && forall|g: Seq<char>| #[trigger] gs.contains(g) <==> has_group(ts, g)
}

/// Whether folder `g` is open (closed unless set).
pub open spec fn is_open(exp: Map<Seq<char>, bool>, g: Seq<char>) -> bool {
    exp.contains_key(g) && exp[g]
}

/// A folder header followed, when open, by its members.
pub open spec fn folder_block(ts: Seq<RunTarget>, g: Seq<char>, open: bool) -> Seq<RowV> {
    seq![RowV::Folder(g, open, member_indices(ts, g).len())] + if open {
        member_rows(ts, g)
    } else {
        Seq::empty()
    }
}

pub open spec fn folder_rows(
    ts: Seq<RunTarget>,
    gs: Seq<Seq<char>>,
    exp: Map<Seq<char>, bool>,
) -> Seq<RowV>
    decreases gs.len(),
{
    if gs.len() == 0 {
        Seq::empty()
    } else {
        folder_rows(ts, gs.drop_last(), exp) + folder_block(ts, gs.last(), is_open(exp, gs.last()))
    }
}

/// The separator and virtual targets, when there are any.
pub open spec fn bottom_rows(ts: Seq<RunTarget>) -> Seq<RowV> {
    if virtual_rows(ts).len() == 0 {
        Seq::empty()
    } else {
        seq![RowV::Separator] + virtual_rows(ts)
    }
}

/// The sidebar: top-level targets in list order, then each folder in
/// alphabetical order (members in list order when open), then the
/// virtual targets below a separator.
pub open spec fn layout(ts: Seq<RunTarget>, exp: Map<Seq<char>, bool>) -> Seq<RowV> {
    top_rows(ts) + folder_rows(ts, group_order(ts), exp) + bottom_rows(ts)
}

/// Two strictly sorted lists with the same elements are equal.
pub proof fn lemma_sorted_unique(a: Seq<Seq<char>>, b: Seq<Seq<char>>)
    requires
        strictly_sorted(a),
        strictly_sorted(b),
        forall|g: Seq<char>| #[trigger] a.contains(g) <==> b.contains(g),
    ensures
        a == b,
    decreases a.len(),
{
    if a.len() == 0 {
        if b.len() > 0 {
            let x = b[0];
            assert(b.contains(x));
            assert(a.contains(x));
            assert(false);
        }
        assert(a =~= b);
    } else if b.len() == 0 {
        let x = a[0];
        assert(a.contains(x));
        assert(false);
    } else {
        // The largest elements agree.
        let la = a.last();
        let lb = b.last();
        assert(a.contains(la));
        assert(b.contains(lb));
        assert(a.contains(lb));
        assert(b.contains(la));
        let ib = choose|i: int| 0 <= i < b.len() && b[i] == la;
        let ia = choose|i: int| 0 <= i < a.len() && a[i] == lb;
        if la != lb {
            lemma_lt_total(la, lb);
            if seq_lt(la, lb) {
                // lb occurs in a at ia <= a.len()-1, so lb <= la.
                if ia < a.len() - 1 {
                    assert(seq_lt(a[ia], a[a.len() - 1]));
                    crate::text::lemma_lt_asymmetric(la, lb);
                } else {
                    assert(a[ia] == la);
                }
            } else {
                if ib < b.len() - 1 {
                    assert(seq_lt(b[ib], b[b.len() - 1]));
                    crate::text::lemma_lt_asymmetric(lb, la);
                } else {
                    assert(b[ib] == lb);
                }
            }
        }
        assert(la == lb);
        let a0 = a.drop_last();
        let b0 = b.drop_last();
        assert(strictly_sorted(a0));
        assert(strictly_sorted(b0));
        assert forall|g: Seq<char>| #[trigger] a0.contains(g) <==> b0.contains(g) by {
            if a0.contains(g) {
                let i = choose|i: int| 0 <= i < a0.len() && a0[i] == g;
                assert(a0[i] == a[i]);
                assert(a.contains(g));
                assert(b.contains(g));
                assert(seq_lt(a[i], a[a.len() - 1]));
                let j = choose|j: int| 0 <= j < b.len() && b[j] == g;
                if j == b.len() - 1 {
                    lemma_lt_irreflexive(g);
                }
                assert(b0[j] == g);
            }
            if b0.contains(g) {
                let i = choose|i: int| 0 <= i < b0.len() && b0[i] == g;
                assert(b0[i] == b[i]);
                assert(b.contains(g));
                assert(a.contains(g));
                assert(seq_lt(b[i], b[b.len() - 1]));
                let j = choose|j: int| 0 <= j < a.len() && a[j] == g;
                if j == a.len() - 1 {
                    lemma_lt_irreflexive(g);
                }
                assert(a0[j] == g);
            }
        }
        lemma_sorted_unique(a0, b0);
        assert(a =~= a0.push(la));
        assert(b =~= b0.push(lb));
    }
}

fn copy_indices(v: &Vec<usize>) -> (r: Vec<usize>)
    ensures
        r@ == v@,
{
    let mut r: Vec<usize> = Vec::new();
    let mut i: usize = 0;
    while i < v.len()
        invariant
            i <= v.len(),
            r@ == v@.take(i as int),
        decreases v.len() - i,
    {
        r.push(v[i]);
        proof {
            assert(v@.take(i as int + 1) == v@.take(i as int).push(v@[i as int]));
        }
        i = i + 1;
    }
    proof {
        assert(v@.take(v.len() as int) == v@);
    }
    r
}

pub open spec fn nat_indices(v: Seq<usize>) -> Seq<nat> {
    v.map_values(|i: usize| i as nat)
}

/// The folders of `ts`, each with the positions of its members.
fn group_members(ts: &[RunTarget]) -> (m: StrMap<Vec<usize>>)
    ensures
        m.wf(),
        forall|g: Seq<char>| #[trigger] m@.contains_key(g) <==> has_group(ts@, g),
        forall|g: Seq<char>| #[trigger]
            m@.contains_key(g) ==> nat_indices(m@[g]@) == member_indices(ts@, g),
{
    let mut m: StrMap<Vec<usize>> = StrMap::new();
    let mut i: usize = 0;
    while i < ts.len()
        invariant
            i <= ts.len(),
            forall|g: Seq<char>| #[trigger] m@.contains_key(g) <==> has_group(ts@.take(i as int), g),
            forall|g: Seq<char>| #[trigger]
                m@.contains_key(g) ==> nat_indices(m@[g]@) == member_indices(ts@.take(i as int), g),
        decreases ts.len() - i,
    {
        let ghost pre = ts@.take(i as int);
        let ghost post = ts@.take(i as int + 1);
        proof {
            assert(post.drop_last() == pre);
            assert(post.last() == ts@[i as int]);
        }
        let t = &ts[i];
        let ghost prev = m@;
        if !t.is_virtual && !crate::text::is_blank(&t.group) {
            let ghost g = t.group@;
            let mut idxs = match m.get(t.group.as_str()) {
                Some(v) => copy_indices(v),
                None => Vec::new(),
            };
            idxs.push(i);
            m.insert(copy_string(&t.group), idxs);
            proof {
                assert forall|h: Seq<char>| #[trigger] m@.contains_key(h) <==> has_group(post, h) by {
                    if has_group(pre, h) {
                        let j = choose|j: int| 0 <= j < pre.len() && in_group(pre[j], h);
                        assert(post[j] == pre[j]);
                    }
                    if has_group(post, h) && h != g {
                        let j = choose|j: int| 0 <= j < post.len() && in_group(post[j], h);
                        assert(j < pre.len());
                        assert(pre[j] == post[j]);
                    }
                    if h == g {
                        assert(in_group(post[i as int], h));
                    }
                }
                assert forall|h: Seq<char>| #[trigger] m@.contains_key(h) implies nat_indices(m@[h]@)
                    == member_indices(post, h) by {
                    if h == g {
                        if !prev.contains_key(g) {
                            assert(!has_group(pre, g));
                            lemma_no_members(pre, g);
                        }
                        assert(nat_indices(m@[h]@) =~= member_indices(pre, h).push(i as nat));
                    }
                }
            }
        } else {
            proof {
                assert forall|h: Seq<char>| #[trigger] m@.contains_key(h) <==> has_group(post, h) by {
                    if has_group(pre, h) {
                        let j = choose|j: int| 0 <= j < pre.len() && in_group(pre[j], h);
                        assert(post[j] == pre[j]);
                    }
                    if has_group(post, h) {
                        let j = choose|j: int| 0 <= j < post.len() && in_group(post[j], h);
                        assert(j < pre.len());
                        assert(pre[j] == post[j]);
                    }
                }
            }
        }
        i = i + 1;
    }
    proof {
        assert(ts@.take(ts.len() as int) == ts@);
        use_type_invariant(&m);
    }
    m
}

proof fn lemma_no_members(ts: Seq<RunTarget>, g: Seq<char>)
    requires
        !has_group(ts, g),
    ensures
        member_indices(ts, g) == Seq::<nat>::empty(),
    decreases ts.len(),
{
    if ts.len() > 0 {
        assert(!in_group(ts[ts.len() - 1], g));
        assert forall|i: int| 0 <= i < ts.drop_last().len() implies !in_group(
            #[trigger] ts.drop_last()[i],
            g,
        ) by {
            assert(ts.drop_last()[i] == ts[i]);
        }
        lemma_no_members(ts.drop_last(), g);
    }
}

fn folder_open(expanded: &StrMap<bool>, g: &str) -> (r: bool)
    ensures
        r == is_open(expanded@, g@),
{
    match expanded.get(g) {
        Some(b) => *b,
        None => false,
    }
}

/// Compute the visible row list for the current target set + folder
/// expansion state.
pub fn compute(targets: &[RunTarget], expanded: &StrMap<bool>) -> (rows: Vec<Row>)
    ensures
        row_views(rows@) == layout(targets@, expanded@),
{
    let ghost ts = targets@;
    let mut out: Vec<Row> = Vec::new();
    // Top-level first.
    let mut i: usize = 0;
    while i < targets.len()
        invariant
            ts == targets@,
            i <= targets.len(),
            row_views(out@) == top_rows(ts.take(i as int)),
        decreases targets.len() - i,
    {
        proof {
            assert(ts.take(i as int + 1).drop_last() == ts.take(i as int));
            assert(ts.take(i as int + 1).last() == ts[i as int]);
        }
        let ghost before = out@;
        if !targets[i].is_virtual && crate::text::is_blank(&targets[i].group) {
            out.push(Row::Target { target_idx: i, group: String::new() });
            proof {
                assert(row_views(out@) =~= row_views(before).push(RowV::Target(i as nat, Seq::empty())));
            }
        }
        i = i + 1;
    }
    proof {
        assert(ts.take(ts.len() as int) == ts);
    }
    // Then each folder, in alphabetical order.
    let groups = group_members(targets);
    let ghost order = keys_of(groups.entries_view());
    proof {
        groups.lemma_entries();
        assert(strictly_sorted(order));
        assert forall|g: Seq<char>| #[trigger] order.contains(g) <==> has_group(ts, g) by {
            if order.contains(g) {
                let j = choose|j: int| 0 <= j < order.len() && order[j] == g;
                assert(groups.entries_view()[j].0 == g);
                assert(groups@.contains_key(g));
            }
            if has_group(ts, g) {
                assert(groups@.contains_key(g));
                let j = choose|j: int| 0 <= j < groups.entries_view().len() && groups.entries_view()[j].0 == g;
                assert(order[j] == g);
            }
        }
        let go = group_order(ts);
        assert(strictly_sorted(go) && forall|g: Seq<char>| #[trigger] go.contains(g) <==> has_group(ts, g));
        lemma_sorted_unique(order, go);
    }
    let ghost top = row_views(out@);
    let mut k: usize = 0;
    while k < groups.len()
        invariant
            ts == targets@,
            groups.wf(),
            order == keys_of(groups.entries_view()),
            k <= order.len(),
            forall|g: Seq<char>| #[trigger]
                groups@.contains_key(g) ==> nat_indices(groups@[g]@) == member_indices(ts, g),
            row_views(out@) == top + folder_rows(ts, order.take(k as int), expanded@),
        decreases order.len() - k,
    {
        let g = groups.key_at(k);
        let idxs = groups.value_at(k);
        let open = folder_open(expanded, g.as_str());
        let ghost gv = g@;
        proof {
            groups.lemma_entries();
            assert(groups@.contains_key(gv));
            assert(groups@[gv] == *idxs);
            assert(order[k as int] == gv);
            assert(nat_indices(idxs@).len() == idxs@.len());
        }
        let ghost before = row_views(out@);
        out.push(Row::Folder { group: copy_string(g), expanded: open, count: idxs.len() });
        if open {
            let mut j: usize = 0;
            while j < idxs.len()
                invariant
                    j <= idxs.len(),
                    row_views(out@) == before.push(RowV::Folder(gv, open, idxs@.len() as nat)) + nat_indices(idxs@).take(j as int).map_values(|i: nat| RowV::Target(i, gv)),
                    g@ == gv,
                decreases idxs.len() - j,
            {
                let ghost b2 = row_views(out@);
                out.push(Row::Target { target_idx: idxs[j], group: copy_string(g) });
                proof {
                    assert(nat_indices(idxs@).take(j as int + 1).map_values(|i: nat| RowV::Target(i, gv))
                        =~= nat_indices(idxs@).take(j as int).map_values(|i: nat| RowV::Target(i, gv)).push(RowV::Target(idxs@[j as int] as nat, gv)));
                    assert(row_views(out@) =~= b2.push(RowV::Target(idxs@[j as int] as nat, gv)));
                }
                j = j + 1;
            }
            proof {
                assert(nat_indices(idxs@).take(idxs.len() as int) == nat_indices(idxs@));
            }
        }
        proof {
            let ok = order.take(k as int + 1);
            assert(ok.drop_last() == order.take(k as int));
            assert(ok.last() == gv);
            assert(member_rows(ts, gv) == nat_indices(idxs@).map_values(|i: nat| RowV::Target(i, gv)));
            if open {
                assert(row_views(out@) =~= before + folder_block(ts, gv, open));
            } else {
                assert(row_views(out@) =~= before + folder_block(ts, gv, open));
            }
        }
        k = k + 1;
    }
    proof {
        assert(order.take(order.len() as int) == order);
    }
    // Then the virtual targets, below a separator.
    let ghost mid = row_views(out@);
    let mut any_virtual = false;
    let mut v: usize = 0;
    while v < targets.len()
        invariant
            ts == targets@,
            v <= targets.len(),
            any_virtual == (virtual_rows(ts.take(v as int)).len() > 0),
        decreases targets.len() - v,
    {
        proof {
            assert(ts.take(v as int + 1).drop_last() == ts.take(v as int));
        }
        if targets[v].is_virtual {
            any_virtual = true;
        }
        v = v + 1;
    }
    proof {
        assert(ts.take(ts.len() as int) == ts);
    }
    if any_virtual {
        out.push(Row::Separator);
        let ghost with_sep = row_views(out@);
        let mut w: usize = 0;
        while w < targets.len()
            invariant
                ts == targets@,
                w <= targets.len(),
                row_views(out@) == with_sep + virtual_rows(ts.take(w as int)),
            decreases targets.len() - w,
        {
            proof {
                assert(ts.take(w as int + 1).drop_last() == ts.take(w as int));
                assert(ts.take(w as int + 1).last() == ts[w as int]);
            }
            let ghost b3 = row_views(out@);
            if targets[w].is_virtual {
                out.push(Row::Target { target_idx: w, group: String::new() });
                proof {
                    assert(row_views(out@) =~= b3.push(RowV::Target(w as nat, Seq::empty())));
                }
            }
            w = w + 1;
        }
        proof {
            assert(ts.take(ts.len() as int) == ts);
            assert(row_views(out@) =~= mid + bottom_rows(ts));
        }
    } else {
        proof {
            assert(row_views(out@) =~= mid + bottom_rows(ts));
        }
    }
    out
}

} // verus!
