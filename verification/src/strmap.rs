use vstd::prelude::*;
use crate::text::eq_str;

verus! {

/// A map keyed by strings: at most one entry per key, in insertion order.
#[derive(Debug, PartialEq, Eq)]
pub struct StringMap<V> {
    entries: Vec<(String, V)>,
}

/// The map that a list of distinct-keyed entries stands for.
pub open spec fn entries_map<V: View>(e: Seq<(String, V)>) -> Map<Seq<char>, V::V>
    decreases e.len(),
{
    if e.len() == 0 {
        Map::empty()
    } else {
        entries_map(e.drop_last()).insert(e.last().0@, e.last().1@)
    }
}

/// No two entries share a key.
pub open spec fn distinct_keys<V>(e: Seq<(String, V)>) -> bool {
    forall|i: int, j: int| 0 <= i < j < e.len() ==> e[i].0@ != e[j].0@
}

proof fn lemma_entries_contains<V: View>(e: Seq<(String, V)>, k: Seq<char>)
    ensures
        entries_map(e).contains_key(k) <==> exists|i: int| 0 <= i < e.len() && e[i].0@ == k,
    decreases e.len(),
{
    if e.len() > 0 {
        lemma_entries_contains(e.drop_last(), k);
        if entries_map(e.drop_last()).contains_key(k) {
            let i = choose|i: int| 0 <= i < e.drop_last().len() && e.drop_last()[i].0@ == k;
            assert(e[i].0@ == k);
        }
        if exists|i: int| 0 <= i < e.len() && e[i].0@ == k {
            let i = choose|i: int| 0 <= i < e.len() && e[i].0@ == k;
            if i < e.len() - 1 {
                assert(e.drop_last()[i].0@ == k);
            }
        }
    }
}

proof fn lemma_entries_value<V: View>(e: Seq<(String, V)>, i: int)
    requires
        distinct_keys(e),
        0 <= i < e.len(),
    ensures
        entries_map(e).contains_key(e[i].0@),
        entries_map(e)[e[i].0@] == e[i].1@,
    decreases e.len(),
{
    if i < e.len() - 1 {
        assert(e.drop_last()[i] == e[i]);
        lemma_entries_value(e.drop_last(), i);
        assert(e.last().0@ != e[i].0@);
    }
}

proof fn lemma_entries_len<V: View>(e: Seq<(String, V)>)
    requires
        distinct_keys(e),
    ensures
        entries_map(e).dom().finite(),
        entries_map(e).dom().len() == e.len(),
    decreases e.len(),
{
    if e.len() > 0 {
        let d = e.drop_last();
        assert(distinct_keys(d));
        lemma_entries_len(d);
        lemma_entries_contains(d, e.last().0@);
        if entries_map(d).contains_key(e.last().0@) {
            let i = choose|i: int| 0 <= i < d.len() && d[i].0@ == e.last().0@;
            assert(e[i].0@ != e[e.len() - 1].0@);
        }
        assert(entries_map(e).dom() == entries_map(d).dom().insert(e.last().0@));
    }
}

/// The keys of a list of entries, in order.
pub open spec fn entry_keys<V>(e: Seq<(String, V)>) -> Seq<Seq<char>> {
    e.map_values(|p: (String, V)| p.0@)
}

fn find_key<V>(entries: &Vec<(String, V)>, key: &str) -> (r: Option<usize>)
    ensures
        match r {
            Some(i) => i < entries@.len() && entries@[i as int].0@ == key@,
            None => forall|i: int| 0 <= i < entries@.len() ==> entries@[i].0@ != key@,
        },
{
    let mut i: usize = 0;
    while i < entries.len()
        invariant
            i <= entries@.len(),
            forall|j: int| 0 <= j < i ==> entries@[j].0@ != key@,
        decreases entries.len() - i,
    {
        if eq_str(entries[i].0.as_str(), key) {
            return Some(i);
        }
        i = i + 1;
    }
    None
}

impl<V: View> View for StringMap<V> {
    type V = Map<Seq<char>, V::V>;

    closed spec fn view(&self) -> Map<Seq<char>, V::V> {
        entries_map(self.entries@)
    }
}

impl<V> StringMap<V> {
    /// No two entries share a key.
    #[verifier::type_invariant]
    spec fn wf(&self) -> bool {
        distinct_keys(self.entries@)
    }
}

impl<V: View> StringMap<V> {

    /// The number of keys.
    pub closed spec fn spec_len(&self) -> nat {
        self.entries@.len()
    }

    /// The keys in the order they were first inserted.
    pub closed spec fn key_order(&self) -> Seq<Seq<char>> {
        entry_keys(self.entries@)
    }

    /// An empty map.
    pub fn new() -> (m: Self)
        ensures
            m@ == Map::<Seq<char>, V::V>::empty(),
            m.spec_len() == 0,
            m.key_order() == Seq::<Seq<char>>::empty(),
    {
        let m = StringMap { entries: Vec::new() };
        assert(m.key_order() =~= Seq::<Seq<char>>::empty());
        m
    }

    /// The number of keys. The keys listed in insertion order are the keys
    /// of the map, each exactly once.
    pub fn len(&self) -> (n: usize)
        ensures
            n == self.spec_len(),
            n == self@.dom().len(),
            n == self.key_order().len(),
            self.key_order().no_duplicates(),
            forall|k: Seq<char>| self@.contains_key(k) <==> self.key_order().contains(k),
    {
        proof {
            use_type_invariant(self);
            let e = self.entries@;
            lemma_entries_len(e);
            assert forall|k: Seq<char>| self@.contains_key(k) <==> self.key_order().contains(k) by {
                lemma_entries_contains(e, k);
                if self@.contains_key(k) {
                    let i = choose|i: int| 0 <= i < e.len() && e[i].0@ == k;
                    assert(self.key_order()[i] == k);
                }
                if self.key_order().contains(k) {
                    let i = choose|i: int|
                        0 <= i < self.key_order().len() && self.key_order()[i] == k;
                    assert(e[i].0@ == k);
                }
            }
            assert forall|i: int, j: int|
                0 <= i < self.key_order().len() && 0 <= j < self.key_order().len() && i != j implies
                self.key_order()[i] != self.key_order()[j] by {
                if i < j {
                    assert(e[i].0@ != e[j].0@);
                } else {
                    assert(e[j].0@ != e[i].0@);
                }
            }
        }
        self.entries.len()
    }

    /// The value stored under `key`, if any.
    pub fn get(&self, key: &str) -> (r: Option<&V>)
        ensures
            match r {
                Some(v) => self@.contains_key(key@) && self@[key@] == v@,
                None => !self@.contains_key(key@),
            },
    {
        proof {
            use_type_invariant(self);
            lemma_entries_contains(self.entries@, key@);
        }
        match find_key(&self.entries, key) {
            Some(i) => {
                proof {
                    lemma_entries_value(self.entries@, i as int);
                }
                Some(&self.entries[i].1)
            },
            None => None,
        }
    }

    /// The key and value of the `i`-th entry in insertion order; as `i` runs
    /// from 0 to `len()`, each key comes exactly once (see `len`).
    pub fn entry(&self, i: usize) -> (r: (&String, &V))
        requires
            i < self.spec_len(),
        ensures
            r.0@ == self.key_order()[i as int],
            self@.contains_key(r.0@),
            self@[r.0@] == r.1@,
    {
        proof {
            use_type_invariant(self);
            lemma_entries_value(self.entries@, i as int);
        }
        (&self.entries[i].0, &self.entries[i].1)
    }

    /// Stores `value` under `key`, replacing what was stored there. A new
    /// key comes last in insertion order; a key already there keeps its place.
    pub fn insert(&mut self, key: String, value: V)
        ensures
            final(self)@ == old(self)@.insert(key@, value@),
            final(self).key_order() == if old(self)@.contains_key(key@) {
                old(self).key_order()
            } else {
                old(self).key_order().push(key@)
            },
    {
        proof {
            use_type_invariant(&*self);
        }
        let ghost old_entries = self.entries@;
        let mut entries = Vec::new();
        std::mem::swap(&mut entries, &mut self.entries);
        match find_key(&entries, key.as_str()) {
            Some(i) => {
                let ghost kv = key@;
                let ghost vv = value@;
                entries.set(i, (key, value));
                proof {
                    let e = entries@;
                    assert forall|a: int, b: int| 0 <= a < b < e.len() implies e[a].0@
                        != e[b].0@ by {
                        assert(old_entries[a].0@ != old_entries[b].0@);
                    }
                    assert forall|k: Seq<char>| #[trigger] entries_map(e).contains_key(k)
                        <==> entries_map(old_entries).insert(kv, vv).contains_key(k) by {
                        lemma_entries_contains(e, k);
                        lemma_entries_contains(old_entries, k);
                        if k != kv {
                            if exists|j: int| 0 <= j < e.len() && e[j].0@ == k {
                                let j = choose|j: int| 0 <= j < e.len() && e[j].0@ == k;
                                assert(old_entries[j].0@ == k);
                            }
                            if exists|j: int| 0 <= j < old_entries.len() && old_entries[j].0@ == k {
                                let j = choose|j: int|
                                    0 <= j < old_entries.len() && old_entries[j].0@ == k;
                                assert(e[j].0@ == k);
                            }
                        } else {
                            assert(e[i as int].0@ == k);
                        }
                    }
                    assert forall|k: Seq<char>| #[trigger] entries_map(e).contains_key(k)
                        implies entries_map(e)[k] == entries_map(old_entries).insert(kv, vv)[k] by {
                        lemma_entries_contains(e, k);
                        let j = choose|j: int| 0 <= j < e.len() && e[j].0@ == k;
                        lemma_entries_value(e, j);
                        if j != i {
                            lemma_entries_value(old_entries, j);
                        }
                    }
                    assert(entries_map(e) =~= entries_map(old_entries).insert(kv, vv));
                    lemma_entries_contains(old_entries, kv);
                    assert(entry_keys(e) =~= entry_keys(old_entries));
                }
            },
            None => {
                entries.push((key, value));
                proof {
                    let e = entries@;
                    assert(e.drop_last() == old_entries);
                    assert forall|a: int, b: int| 0 <= a < b < e.len() implies e[a].0@
                        != e[b].0@ by {
                        if b < e.len() - 1 {
                            assert(old_entries[a].0@ != old_entries[b].0@);
                        } else {
                            assert(old_entries[a].0@ != e[b].0@);
                        }
                    }
                    lemma_entries_contains(old_entries, e.last().0@);
                    assert(entry_keys(e) =~= entry_keys(old_entries).push(e.last().0@));
                }
            },
        }
        self.entries = entries;
    }
}

impl<V: Clone> Clone for StringMap<V> {
    /// A copy with the same keys, in the same order.
    fn clone(&self) -> (r: Self) {
        proof {
            use_type_invariant(self);
        }
        let mut entries: Vec<(String, V)> = Vec::new();
        let mut i: usize = 0;
        while i < self.entries.len()
            invariant
                i <= self.entries@.len(),
                distinct_keys(self.entries@),
                entries@.len() == i,
                forall|j: int| 0 <= j < i ==> #[trigger] entries@[j].0@ == self.entries@[j].0@,
            decreases self.entries.len() - i,
        {
            entries.push((self.entries[i].0.clone(), self.entries[i].1.clone()));
            i = i + 1;
        }
        assert(distinct_keys(entries@)) by {
            assert forall|a: int, b: int| 0 <= a < b < entries@.len() implies entries@[a].0@
                != entries@[b].0@ by {
                assert(entries@[a].0@ == self.entries@[a].0@);
                assert(entries@[b].0@ == self.entries@[b].0@);
            }
        }
        StringMap { entries }
    }
}

} // verus!
