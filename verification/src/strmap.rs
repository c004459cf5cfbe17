//! A map keyed by strings that iterates in key order, as `BTreeMap<String,
//! _>` does: environment tables, folder states, per-target buffers.

use vstd::prelude::*;

use crate::text::{compare, lemma_lt_asymmetric, lemma_lt_irreflexive, lemma_lt_total, lemma_lt_transitive, seq_lt, Cmp};

verus! {

/// The map that a list of entries denotes (a later entry for a key wins;
/// in a `StrMap` every key occurs once).
pub open spec fn map_of<V>(s: Seq<(Seq<char>, V)>) -> Map<Seq<char>, V>
    decreases s.len(),
{
    if s.len() == 0 {
        Map::empty()
    } else {
        map_of(s.drop_last()).insert(s.last().0, s.last().1)
    }
}

/// Keys strictly increase along the list.
pub open spec fn keys_sorted<V>(s: Seq<(Seq<char>, V)>) -> bool {
    forall|i: int, j: int| 0 <= i < j < s.len() ==> seq_lt(#[trigger] s[i].0, #[trigger] s[j].0)
}

/// What a sorted entry list maps each key to.
pub proof fn lemma_map_of<V>(s: Seq<(Seq<char>, V)>)
    requires
        keys_sorted(s),
    ensures
        forall|k: Seq<char>| #[trigger]
            map_of(s).contains_key(k) <==> exists|i: int| 0 <= i < s.len() && s[i].0 == k,
        forall|i: int| 0 <= i < s.len() ==> #[trigger] map_of(s)[s[i].0] == s[i].1,
    decreases s.len(),
{
    if s.len() > 0 {
        let t = s.drop_last();
        assert(keys_sorted(t));
        lemma_map_of(t);
        assert forall|k: Seq<char>| #[trigger]
            map_of(s).contains_key(k) <==> exists|i: int| 0 <= i < s.len() && s[i].0 == k by {
            if map_of(s).contains_key(k) {
                if k != s.last().0 {
                    assert(map_of(t).contains_key(k));
                    let i = choose|i: int| 0 <= i < t.len() && t[i].0 == k;
                    assert(s[i] == t[i]);
                    assert(s[i].0 == k);
                } else {
                    assert(s[s.len() - 1].0 == k);
                }
            }
            if exists|i: int| 0 <= i < s.len() && s[i].0 == k {
                let i = choose|i: int| 0 <= i < s.len() && s[i].0 == k;
                if i < t.len() {
                    assert(t[i] == s[i]);
                    assert(t[i].0 == k);
                    assert(map_of(t).contains_key(k));
                }
                assert(map_of(s) == map_of(t).insert(s.last().0, s.last().1));
            }
        }
        assert forall|i: int| 0 <= i < s.len() implies #[trigger] map_of(s)[s[i].0] == s[i].1 by {
            assert(map_of(s) == map_of(t).insert(s.last().0, s.last().1));
            if i < s.len() - 1 {
                assert(seq_lt(s[i].0, s[s.len() - 1].0));
                lemma_lt_irreflexive(s[i].0);
                assert(t[i] == s[i]);
                assert(map_of(t)[t[i].0] == t[i].1);
            }
        }
    }
}

/// A map from strings to `V`, kept in key order.
#[derive(Debug)]
pub struct StrMap<V> {
    entries: Vec<(String, V)>,
}

impl<V> View for StrMap<V> {
    type V = Map<Seq<char>, V>;

    closed spec fn view(&self) -> Map<Seq<char>, V> {
        map_of(self.entries_view())
    }
}

impl<V> StrMap<V> {
    /// The entries, in key order.
    pub closed spec fn entries_view(self) -> Seq<(Seq<char>, V)> {
        self.entries@.map_values(|e: (String, V)| (e.0@, e.1))
    }

    /// Keys strictly increase along the entries (kept by every method).
    #[verifier::type_invariant]
    pub closed spec fn wf(self) -> bool {
        keys_sorted(self.entries_view())
    }

    /// The entries are in strictly increasing key order and denote the map.
    pub proof fn lemma_entries(&self)
        requires
            self.wf(),
        ensures
            keys_sorted(self.entries_view()),
            self@ == map_of(self.entries_view()),
            self@.dom().finite(),
            self@.len() == self.entries_view().len(),
            forall|k: Seq<char>| #[trigger]
                self@.contains_key(k) <==> exists|i: int|
                    0 <= i < self.entries_view().len() && self.entries_view()[i].0 == k,
            forall|i: int|
                0 <= i < self.entries_view().len() ==> #[trigger] self@[self.entries_view()[i].0]
                    == self.entries_view()[i].1,
    {
        lemma_map_of(self.entries_view());
        lemma_map_of_len(self.entries_view());
    }

    pub fn new() -> (m: Self)
        ensures
            m@ == Map::<Seq<char>, V>::empty(),
            m.entries_view() == Seq::<(Seq<char>, V)>::empty(),
    {
        let m = StrMap { entries: Vec::new() };
        proof {
            assert(m.entries_view() =~= Seq::<(Seq<char>, V)>::empty());
        }
        m
    }

    pub fn len(&self) -> (n: usize)
        ensures
            n == self.entries_view().len(),
    {
        self.entries.len()
    }

    pub fn key_at(&self, i: usize) -> (k: &String)
        requires
            i < self.entries_view().len(),
        ensures
            k@ == self.entries_view()[i as int].0,
    {
        &self.entries[i].0
    }

    pub fn value_at(&self, i: usize) -> (v: &V)
        requires
            i < self.entries_view().len(),
        ensures
            *v == self.entries_view()[i as int].1,
    {
        &self.entries[i].1
    }

    /// The position of `key`, if present.
    pub fn find(&self, key: &str) -> (r: Option<usize>)
        ensures
            match r {
                Some(i) => i < self.entries_view().len() && self.entries_view()[i as int].0
                    == key@,
                None => !self@.contains_key(key@),
            },
    {
        proof {
            use_type_invariant(&*self);
            self.lemma_entries();
        }
        let mut i: usize = 0;
        while i < self.entries.len()
            invariant
                i <= self.entries_view().len(),
                forall|j: int| 0 <= j < i ==> self.entries_view()[j].0 != key@,
            decreases self.entries.len() - i,
        {
            if compare(self.entries[i].0.as_str(), key) == Cmp::Equal {
                return Some(i);
            }
            i = i + 1;
        }
        None
    }

    pub fn get(&self, key: &str) -> (r: Option<&V>)
        ensures
            match r {
                Some(v) => self@.contains_key(key@) && *v == self@[key@],
                None => !self@.contains_key(key@),
            },
    {
        proof {
            use_type_invariant(&*self);
            self.lemma_entries();
        }
        match self.find(key) {
            Some(i) => Some(&self.entries[i].1),
            None => None,
        }
    }

    pub fn contains_key(&self, key: &str) -> (r: bool)
        ensures
            r == self@.contains_key(key@),
    {
        proof {
            use_type_invariant(&*self);
            self.lemma_entries();
        }
        self.find(key).is_some()
    }

    /// Sets `key` to `value`.
    pub fn insert(&mut self, key: String, value: V)
        ensures
            final(self)@ == old(self)@.insert(key@, value),
    {
        proof {
            use_type_invariant(&*self);
            self.lemma_entries();
        }
        let ghost kv = key@;
        let ghost old_entries = self.entries_view();
        let mut k: usize = 0;
        while k < self.entries.len() && compare(self.entries[k].0.as_str(), key.as_str()) == Cmp::Less
            invariant
                self.entries_view() == old_entries,
                keys_sorted(old_entries),
                kv == key@,
                k <= old_entries.len(),
                forall|j: int| 0 <= j < k ==> seq_lt(#[trigger] old_entries[j].0, kv),
            decreases self.entries.len() - k,
        {
            k = k + 1;
        }
        let mut entries = Vec::new();
        std::mem::swap(&mut entries, &mut self.entries);
        let found = k < entries.len() && compare(entries[k].0.as_str(), key.as_str()) == Cmp::Equal;
        if found {
            entries.set(k, (key, value));
        } else {
            entries.insert(k, (key, value));
        }
        let ghost new_entries = entries@.map_values(|e: (String, V)| (e.0@, e.1));
        proof {
            if found {
                assert(new_entries =~= old_entries.update(k as int, (kv, value)));
            } else {
                assert(new_entries =~= old_entries.insert(k as int, (kv, value)));
            }
            lemma_insert_sorted(old_entries, k as int, kv, value, found);
        }
        self.entries = entries;
        proof {
            assert(self.entries_view() == new_entries);
        }
    }

    /// Puts `value` at position `i` and returns the value that was there.
    pub fn swap_value_at(&mut self, i: usize, value: V) -> (r: V)
        requires
            i < old(self).entries_view().len(),
        ensures
            r == old(self).entries_view()[i as int].1,
            final(self).entries_view() == old(self).entries_view().update(
                i as int,
                (old(self).entries_view()[i as int].0, value),
            ),
            final(self)@ == old(self)@.insert(old(self).entries_view()[i as int].0, value),
    {
        proof {
            use_type_invariant(&*self);
            self.lemma_entries();
        }
        let ghost old_entries = self.entries_view();
        let mut entries = Vec::new();
        std::mem::swap(&mut entries, &mut self.entries);
        let (key, old_value) = entries.remove(i);
        entries.insert(i, (key, value));
        let ghost new_entries = entries@.map_values(|e: (String, V)| (e.0@, e.1));
        proof {
            assert(new_entries =~= old_entries.update(i as int, (old_entries[i as int].0, value)));
            lemma_insert_sorted(old_entries, i as int, old_entries[i as int].0, value, true);
        }
        self.entries = entries;
        proof {
            assert(self.entries_view() == new_entries);
        }
        old_value
    }

    /// Replaces the value at position `i`, keeping its key.
    pub fn set_value_at(&mut self, i: usize, value: V)
        requires
            i < old(self).entries_view().len(),
        ensures
            final(self).entries_view() == old(self).entries_view().update(
                i as int,
                (old(self).entries_view()[i as int].0, value),
            ),
            final(self)@ == old(self)@.insert(old(self).entries_view()[i as int].0, value),
    {
        proof {
            use_type_invariant(&*self);
            self.lemma_entries();
        }
        let ghost old_entries = self.entries_view();
        let mut entries = Vec::new();
        std::mem::swap(&mut entries, &mut self.entries);
        let key = copy_key(&entries[i].0);
        entries.set(i, (key, value));
        let ghost new_entries = entries@.map_values(|e: (String, V)| (e.0@, e.1));
        proof {
            assert(new_entries =~= old_entries.update(i as int, (old_entries[i as int].0, value)));
            lemma_insert_sorted(old_entries, i as int, old_entries[i as int].0, value, true);
        }
        self.entries = entries;
        proof {
            assert(self.entries_view() == new_entries);
        }
    }
}

/// The keys of an entry list.
pub open spec fn keys_of<V>(s: Seq<(Seq<char>, V)>) -> Seq<Seq<char>> {
    s.map_values(|e: (Seq<char>, V)| e.0)
}

impl<V: Clone> Clone for StrMap<V> {
    /// A copy with the same keys in the same order; each value is copied
    /// by `V::clone`.
    fn clone(&self) -> (r: Self)
        ensures
            keys_of(r.entries_view()) == keys_of(self.entries_view()),
    {
        proof {
            use_type_invariant(self);
        }
        let mut entries: Vec<(String, V)> = Vec::new();
        let mut i: usize = 0;
        while i < self.entries.len()
            invariant
                i <= self.entries.len(),
                entries@.len() == i,
                forall|j: int| 0 <= j < i ==> (#[trigger] entries@[j]).0@ == self.entries@[j].0@,
            decreases self.entries.len() - i,
        {
            let k = copy_key(&self.entries[i].0);
            let v = self.entries[i].1.clone();
            entries.push((k, v));
            i = i + 1;
        }
        let ghost ev = entries@.map_values(|e: (String, V)| (e.0@, e.1));
        proof {
            assert(keys_of(ev) =~= keys_of(self.entries_view()));
            assert forall|a: int, b: int| 0 <= a < b < ev.len() implies seq_lt(
                #[trigger] ev[a].0,
                #[trigger] ev[b].0,
            ) by {
                assert(ev[a].0 == self.entries_view()[a].0);
                assert(ev[b].0 == self.entries_view()[b].0);
            }
        }
        let r = StrMap { entries };
        proof {
            assert(r.entries_view() == ev);
        }
        r
    }
}

fn copy_key(s: &String) -> (r: String)
    ensures
        r@ == s@,
{
    s.clone()
}

proof fn lemma_map_of_len<V>(s: Seq<(Seq<char>, V)>)
    requires
        keys_sorted(s),
    ensures
        map_of(s).dom().finite(),
        map_of(s).len() == s.len(),
    decreases s.len(),
{
    if s.len() > 0 {
        let t = s.drop_last();
        assert(keys_sorted(t));
        lemma_map_of_len(t);
        lemma_map_of(t);
        if map_of(t).contains_key(s.last().0) {
            let i = choose|i: int| 0 <= i < t.len() && t[i].0 == s.last().0;
            assert(seq_lt(s[i].0, s[s.len() - 1].0));
            lemma_lt_irreflexive(s.last().0);
        }
    }
}

/// Inserting at the position that sorted search finds (or overwriting an
/// entry with the same key) keeps the keys sorted and inserts into the map.
proof fn lemma_insert_keeps_sorted<V>(s: Seq<(Seq<char>, V)>, k: int, key: Seq<char>, value: V, found: bool)
    requires
        keys_sorted(s),
        0 <= k <= s.len(),
        forall|j: int| 0 <= j < k ==> seq_lt(#[trigger] s[j].0, key),
        found ==> k < s.len() && s[k].0 == key,
        !found ==> k == s.len() || (s[k].0 != key && !seq_lt(s[k].0, key)),
    ensures
        keys_sorted(if found { s.update(k, (key, value)) } else { s.insert(k, (key, value)) }),
{
    let t = if found { s.update(k, (key, value)) } else { s.insert(k, (key, value)) };
    if !found && k < s.len() {
        lemma_lt_total(key, s[k].0);
    }
    assert forall|i: int, j: int| 0 <= i < j < t.len() implies seq_lt(#[trigger] t[i].0, #[trigger] t[j].0) by {
        if found {
            if i == k {
                assert(seq_lt(s[i].0, s[j].0));
            } else if j == k {
                assert(seq_lt(s[i].0, s[j].0));
            }
        } else {
            if i < k && j == k {
            } else if i < k && j > k {
                assert(t[j] == s[j - 1]);
                assert(seq_lt(s[i].0, s[j - 1].0));
            } else if i == k {
                assert(t[j] == s[j - 1]);
                if j - 1 > k {
                    assert(seq_lt(s[k].0, s[j - 1].0));
                    lemma_lt_transitive(key, s[k].0, s[j - 1].0);
                }
            } else if i > k {
                assert(t[i] == s[i - 1]);
                assert(t[j] == s[j - 1]);
            }
        }
    }
}

#[verifier::rlimit(40)]
proof fn lemma_insert_sorted<V>(s: Seq<(Seq<char>, V)>, k: int, key: Seq<char>, value: V, found: bool)
    requires
        keys_sorted(s),
        0 <= k <= s.len(),
        forall|j: int| 0 <= j < k ==> seq_lt(#[trigger] s[j].0, key),
        found ==> k < s.len() && s[k].0 == key,
        !found ==> k == s.len() || (s[k].0 != key && !seq_lt(s[k].0, key)),
    ensures
        keys_sorted(if found { s.update(k, (key, value)) } else { s.insert(k, (key, value)) }),
        map_of(if found { s.update(k, (key, value)) } else { s.insert(k, (key, value)) }) == map_of(s).insert(key, value),
{
    lemma_insert_keeps_sorted(s, k, key, value, found);
    let t = if found { s.update(k, (key, value)) } else { s.insert(k, (key, value)) };
    lemma_map_of(s);
    lemma_map_of(t);
    assert forall|kk: Seq<char>| #[trigger] map_of(t).contains_key(kk) <==> map_of(s).insert(key, value).contains_key(kk) by {
        if map_of(t).contains_key(kk) {
            let i = choose|i: int| 0 <= i < t.len() && t[i].0 == kk;
            if kk != key {
                if found {
                    assert(s[i].0 == kk);
                } else if i < k {
                    assert(s[i].0 == kk);
                } else if i > k {
                    assert(s[i - 1].0 == kk);
                }
            }
        }
        if map_of(s).contains_key(kk) && kk != key {
            let i = choose|i: int| 0 <= i < s.len() && s[i].0 == kk;
            if found {
                assert(t[i].0 == kk);
            } else if i < k {
                assert(t[i].0 == kk);
            } else {
                assert(t[i + 1].0 == kk);
            }
        }
        if kk == key {
            assert(t[k].0 == key);
        }
    }
    assert forall|kk: Seq<char>| #[trigger] map_of(t).contains_key(kk) implies map_of(t)[kk] == map_of(s).insert(key, value)[kk] by {
        let i = choose|i: int| 0 <= i < t.len() && t[i].0 == kk;
        if kk == key {
            assert(t[k].0 == key);
            assert(map_of(t)[t[k].0] == t[k].1);
            if i != k {
                if i < k {
                    assert(seq_lt(t[i].0, t[k].0));
                } else {
                    assert(seq_lt(t[k].0, t[i].0));
                }
                lemma_lt_irreflexive(key);
            }
        } else {
            assert(map_of(t)[t[i].0] == t[i].1);
            if found {
                assert(s[i] == t[i]);
                assert(map_of(s)[s[i].0] == s[i].1);
            } else if i < k {
                assert(s[i] == t[i]);
                assert(map_of(s)[s[i].0] == s[i].1);
            } else {
                assert(s[i - 1] == t[i]);
                assert(map_of(s)[s[i - 1].0] == s[i - 1].1);
            }
        }
    }
    assert(map_of(t) =~= map_of(s).insert(key, value));
}

} // verus!
