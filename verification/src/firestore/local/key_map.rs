//! A map from document keys to values, kept as a list of distinct keys in
//! insertion order.
use vstd::prelude::*;

use crate::firestore::model::DocumentKey;

verus! {

/// The map held by a list of entries: later entries win.
pub open spec fn entries_map<V>(es: Seq<(DocumentKey, V)>) -> Map<Seq<Seq<char>>, V>
    decreases es.len(),
{
    if es.len() == 0 {
        Map::empty()
    } else {
        entries_map(es.drop_last()).insert(es.last().0@, es.last().1)
    }
}

/// The keys of a list of entries are distinct.
pub open spec fn distinct_keys<V>(es: Seq<(DocumentKey, V)>) -> bool {
    forall|i: int, j: int| 0 <= i < j < es.len() ==> (#[trigger] es[i]).0@ != (#[trigger] es[j]).0@
}

/// The map holds exactly the keys of the entries, each with its value.
pub proof fn lemma_entries_map<V>(es: Seq<(DocumentKey, V)>)
    requires
        distinct_keys(es),
    ensures
        forall|i: int| 0 <= i < es.len() ==> #[trigger] entries_map(es).dom().contains(es[i].0@) && entries_map(es)[es[i].0@] == es[i].1,
        forall|k: Seq<Seq<char>>| #[trigger] entries_map(es).dom().contains(k) ==> exists|i: int| 0 <= i < es.len() && es[i].0@ == k,
    decreases es.len(),
{
    if es.len() > 0 {
        let init = es.drop_last();
        assert(distinct_keys(init)) by {
            assert forall|i: int, j: int| 0 <= i < j < init.len() implies (#[trigger] init[i]).0@ != (#[trigger] init[j]).0@ by {
                assert(init[i] == es[i] && init[j] == es[j]);
            }
        }
        lemma_entries_map(init);
        assert forall|i: int| 0 <= i < es.len() implies #[trigger] entries_map(es).dom().contains(es[i].0@) && entries_map(es)[es[i].0@] == es[i].1 by {
            if i < es.len() - 1 {
                assert(init[i] == es[i]);
                assert(es[i].0@ != es[es.len() - 1].0@);
                assert(entries_map(init).dom().contains(init[i].0@));
            }
        }
        assert forall|k: Seq<Seq<char>>| #[trigger] entries_map(es).dom().contains(k) implies exists|i: int| 0 <= i < es.len() && es[i].0@ == k by {
            if k != es.last().0@ {
                assert(entries_map(init).dom().contains(k));
                let i = choose|i: int| 0 <= i < init.len() && init[i].0@ == k;
                assert(es[i] == init[i]);
            } else {
                assert(es[es.len() - 1].0@ == k);
            }
        }
    }
}

/// Values under document keys.
pub struct KeyMap<V> {
    entries: Vec<(DocumentKey, V)>,
}

impl<V> View for KeyMap<V> {
    type V = Map<Seq<Seq<char>>, V>;

    closed spec fn view(&self) -> Map<Seq<Seq<char>>, V> {
        entries_map(self.entries@)
    }
}

impl<V> KeyMap<V> {
    #[verifier::type_invariant]
    spec fn keys_distinct(&self) -> bool {
        distinct_keys(self.entries@)
    }

    /// The keys, in insertion order.
    pub closed spec fn key_order(&self) -> Seq<Seq<Seq<char>>> {
        self.entries@.map_values(|e: (DocumentKey, V)| e.0@)
    }

    /// An empty map.
    pub fn new() -> (m: Self)
        ensures
            m@ == Map::<Seq<Seq<char>>, V>::empty(),
            m.key_order().len() == 0,
    {
        let m = KeyMap { entries: Vec::new() };
        assert(m@ =~= Map::<Seq<Seq<char>>, V>::empty());
        m
    }

    /// The position of `key`, if present.
    fn position(&self, key: &DocumentKey) -> (r: Option<usize>)
        ensures
            match r {
                Some(i) => i < self.entries@.len() && self.entries@[i as int].0@ == key@,
                None => forall|i: int| 0 <= i < self.entries@.len() ==> (#[trigger] self.entries@[i]).0@ != key@,
            },
    {
        let mut i: usize = 0;
        while i < self.entries.len()
            invariant
                i <= self.entries@.len(),
                forall|j: int| 0 <= j < i ==> (#[trigger] self.entries@[j]).0@ != key@,
            decreases self.entries@.len() - i,
        {
            if self.entries[i].0.equals(key) {
                return Some(i);
            }
            i = i + 1;
        }
        None
    }

    /// The value under `key`.
    pub fn get(&self, key: &DocumentKey) -> (r: Option<&V>)
        ensures
            match r {
                Some(v) => self@.dom().contains(key@) && self@[key@] == *v,
                None => !self@.dom().contains(key@),
            },
    {
        proof {
            use_type_invariant(self);
            lemma_entries_map(self.entries@);
        }
        match self.position(key) {
            Some(i) => {
                proof {
                    assert(entries_map(self.entries@).dom().contains(self.entries@[i as int].0@));
                }
                Some(&self.entries[i].1)
            },
            None => {
                proof {
                    if self@.dom().contains(key@) {
                        let i = choose|i: int| 0 <= i < self.entries@.len() && self.entries@[i].0@ == key@;
                        assert(self.entries@[i].0@ != key@);
                    }
                }
                None
            },
        }
    }

    /// Stores `value` under `key`, replacing any previous value.
    pub fn insert(&mut self, key: DocumentKey, value: V)
        ensures
            final(self)@ == old(self)@.insert(key@, value),
            old(self)@.dom().contains(key@) ==> final(self).key_order() == old(self).key_order(),
            !old(self)@.dom().contains(key@) ==> final(self).key_order() == old(self).key_order().push(key@),
    {
        proof {
            use_type_invariant(&*self);
            lemma_entries_map(self.entries@);
        }
        let ghost before = self.entries@;
        let ghost kv = key@;
        let ghost vv = value;
        match self.position(&key) {
            Some(i) => {
                let mut entries = Vec::new();
                std::mem::swap(&mut entries, &mut self.entries);
                entries.set(i, (key, value));
                proof {
                    let es = entries@;
                    assert(distinct_keys(es)) by {
                        assert forall|a: int, b: int| 0 <= a < b < es.len() implies (#[trigger] es[a]).0@ != (#[trigger] es[b]).0@ by {
                            assert(es[a].0@ == before[a].0@);
                            assert(es[b].0@ == before[b].0@);
                        }
                    }
                    lemma_entries_map(es);
                    assert forall|k: Seq<Seq<char>>| #[trigger] entries_map(es).dom().contains(k) == entries_map(before).insert(kv, vv).dom().contains(k) by {
                        if entries_map(es).dom().contains(k) {
                            let j = choose|j: int| 0 <= j < es.len() && es[j].0@ == k;
                            if j != i {
                                assert(es[j] == before[j]);
                            }
                        }
                        if entries_map(before).dom().contains(k) {
                            let j = choose|j: int| 0 <= j < before.len() && before[j].0@ == k;
                            assert(es[j].0@ == before[j].0@);
                        }
                    }
                    assert forall|k: Seq<Seq<char>>| #[trigger] entries_map(es).dom().contains(k) implies entries_map(es)[k] == entries_map(before).insert(kv, vv)[k] by {
                        let j = choose|j: int| 0 <= j < es.len() && es[j].0@ == k;
                        if j != i {
                            assert(es[j] == before[j]);
                        }
                    }
                    assert(entries_map(es) =~= entries_map(before).insert(kv, vv));
                    assert(es.map_values(|e: (DocumentKey, V)| e.0@) =~= before.map_values(|e: (DocumentKey, V)| e.0@));
                }
                self.entries = entries;
            },
            None => {
                proof {
                    assert(!entries_map(before).dom().contains(kv)) by {
                        if entries_map(before).dom().contains(kv) {
                            let j = choose|j: int| 0 <= j < before.len() && before[j].0@ == kv;
                            assert(before[j].0@ != kv);
                        }
                    }
                }
                let mut entries = Vec::new();
                std::mem::swap(&mut entries, &mut self.entries);
                entries.push((key, value));
                proof {
                    let es = entries@;
                    assert(es.drop_last() =~= before);
                    assert(distinct_keys(es)) by {
                        assert forall|a: int, b: int| 0 <= a < b < es.len() implies (#[trigger] es[a]).0@ != (#[trigger] es[b]).0@ by {
                            assert(es[a] == before[a]);
                            if b < before.len() {
                                assert(es[b] == before[b]);
                            }
                        }
                    }
                    assert(es.map_values(|e: (DocumentKey, V)| e.0@) =~= before.map_values(|e: (DocumentKey, V)| e.0@).push(kv));
                }
                self.entries = entries;
            },
        }
    }

    /// Removes the value under `key`, returning it.
    pub fn remove(&mut self, key: &DocumentKey) -> (r: Option<V>)
        ensures
            final(self)@ == old(self)@.remove(key@),
            match r {
                Some(v) => old(self)@.dom().contains(key@) && old(self)@[key@] == v,
                None => !old(self)@.dom().contains(key@),
            },
    {
        proof {
            use_type_invariant(&*self);
            lemma_entries_map(self.entries@);
        }
        let ghost before = self.entries@;
        let ghost kv = key@;
        match self.position(key) {
            Some(i) => {
                let mut entries = Vec::new();
                std::mem::swap(&mut entries, &mut self.entries);
                let (_, v) = entries.remove(i);
                proof {
                    assert(entries_map(before).dom().contains(before[i as int].0@));
                    let es = entries@;
                    assert forall|j: int| 0 <= j < es.len() implies #[trigger] es[j] == if j < i { before[j] } else { before[j + 1] } by {}
                    assert(distinct_keys(es)) by {
                        assert forall|a: int, b: int| 0 <= a < b < es.len() implies (#[trigger] es[a]).0@ != (#[trigger] es[b]).0@ by {
                            let a2 = if a < i { a } else { a + 1 };
                            let b2 = if b < i { b } else { b + 1 };
                            assert(es[a] == before[a2] && es[b] == before[b2]);
                        }
                    }
                    lemma_entries_map(es);
                    assert forall|k: Seq<Seq<char>>| #[trigger] entries_map(es).dom().contains(k) == entries_map(before).remove(kv).dom().contains(k) by {
                        if entries_map(es).dom().contains(k) {
                            let j = choose|j: int| 0 <= j < es.len() && es[j].0@ == k;
                            let j2 = if j < i { j } else { j + 1 };
                            assert(es[j] == before[j2]);
                            assert(before[j2].0@ != before[i as int].0@);
                        }
                        if entries_map(before).remove(kv).dom().contains(k) {
                            let j = choose|j: int| 0 <= j < before.len() && before[j].0@ == k;
                            assert(j != i);
                            let j2 = if j < i { j } else { j - 1 };
                            assert(es[j2] == before[j]);
                        }
                    }
                    assert forall|k: Seq<Seq<char>>| #[trigger] entries_map(es).dom().contains(k) implies entries_map(es)[k] == entries_map(before).remove(kv)[k] by {
                        let j = choose|j: int| 0 <= j < es.len() && es[j].0@ == k;
                        let j2 = if j < i { j } else { j + 1 };
                        assert(es[j] == before[j2]);
                    }
                    assert(entries_map(es) =~= entries_map(before).remove(kv));
                }
                self.entries = entries;
                Some(v)
            },
            None => {
                proof {
                    assert(!entries_map(before).dom().contains(kv)) by {
                        if entries_map(before).dom().contains(kv) {
                            let j = choose|j: int| 0 <= j < before.len() && before[j].0@ == kv;
                            assert(before[j].0@ != kv);
                        }
                    }
                    assert(entries_map(before).remove(kv) =~= entries_map(before));
                }
                None
            },
        }
    }

    /// Number of keys.
    pub fn len(&self) -> (n: usize)
        ensures
            n == self.key_order().len(),
            forall|i: int, j: int| 0 <= i < j < n ==> #[trigger] self.key_order()[i] != #[trigger] self.key_order()[j],
            forall|k: Seq<Seq<char>>| #[trigger] self@.dom().contains(k) ==> self.key_order().contains(k),
    {
        proof {
            use_type_invariant(self);
            lemma_entries_map(self.entries@);
            assert forall|k: Seq<Seq<char>>| #[trigger] self@.dom().contains(k) implies self.key_order().contains(k) by {
                let i = choose|i: int| 0 <= i < self.entries@.len() && self.entries@[i].0@ == k;
                assert(self.key_order()[i] == k);
            }
        }
        self.entries.len()
    }

    /// The key and value at position `i` of the key order.
    pub fn entry_at(&self, i: usize) -> (r: (&DocumentKey, &V))
        requires
            i < self.key_order().len(),
        ensures
            r.0@ == self.key_order()[i as int],
            self@.dom().contains(r.0@),
            self@[r.0@] == *r.1,
    {
        proof {
            use_type_invariant(self);
            lemma_entries_map(self.entries@);
        }
        (&self.entries[i].0, &self.entries[i].1)
    }

    /// Removes every key.
    pub fn clear(&mut self)
        ensures
            final(self)@ == Map::<Seq<Seq<char>>, V>::empty(),
            final(self).key_order().len() == 0,
    {
        self.entries = Vec::new();
        assert(self@ =~= Map::<Seq<Seq<char>>, V>::empty());
    }
}

} // verus!
