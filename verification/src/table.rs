//! A map with text keys, kept as a list of entries with distinct keys.

use crate::text::same_text;
use vstd::prelude::*;

verus! {

/// The map that a list of entries stands for.
pub open spec fn entries_map<V>(entries: Seq<(String, V)>) -> Map<Seq<char>, V>
    decreases entries.len(),
{
    if entries.len() == 0 {
        Map::empty()
    } else {
        entries_map(entries.drop_last()).insert(entries.last().0@, entries.last().1)
    }
}

/// No key occurs twice in a list of entries.
pub open spec fn distinct_keys<V>(entries: Seq<(String, V)>) -> bool {
    forall|i: int, j: int|
        0 <= i < j < entries.len() ==> (#[trigger] entries[i]).0@ != (#[trigger] entries[j]).0@
}

/// The keys of a list of entries, in order.
pub open spec fn entry_keys<V>(entries: Seq<(String, V)>) -> Seq<Seq<char>> {
    Seq::new(entries.len(), |i: int| entries[i].0@)
}

/// A map from text to `V`. Entries keep the order in which their keys first came in.
#[derive(Debug, PartialEq)]
pub struct Table<V> {
    pub(crate) entries: Vec<(String, V)>,
}

impl<V> View for Table<V> {
    type V = Map<Seq<char>, V>;

    closed spec fn view(&self) -> Map<Seq<char>, V> {
        entries_map(self.entries@)
    }
}

/// What the map of a list of distinct entries holds.
pub proof fn lemma_entries_map<V>(entries: Seq<(String, V)>)
    requires
        distinct_keys(entries),
    ensures
        forall|i: int|
            0 <= i < entries.len() ==> entries_map(entries).contains_key(
                (#[trigger] entries[i]).0@,
            ) && entries_map(entries)[entries[i].0@] == entries[i].1,
        forall|k: Seq<char>| #[trigger]
            entries_map(entries).contains_key(k) ==> exists|i: int|
                0 <= i < entries.len() && (#[trigger] entries[i]).0@ == k,
    decreases entries.len(),
{
    if entries.len() > 0 {
        let init = entries.drop_last();
        lemma_entries_map(init);
        assert forall|i: int| 0 <= i < entries.len() implies entries_map(entries).contains_key(
            (#[trigger] entries[i]).0@,
        ) && entries_map(entries)[entries[i].0@] == entries[i].1 by {
            if i < init.len() {
                assert(init[i] == entries[i]);
                assert(entries[i].0@ != entries[entries.len() - 1].0@);
            }
        }
        assert forall|k: Seq<char>| #[trigger]
            entries_map(entries).contains_key(k) implies exists|i: int|
            0 <= i < entries.len() && (#[trigger] entries[i]).0@ == k by {
            if k == entries.last().0@ {
                assert(entries[entries.len() - 1].0@ == k);
            } else {
                assert(entries_map(init).contains_key(k));
                let i = choose|i: int| 0 <= i < init.len() && (#[trigger] init[i]).0@ == k;
                assert(entries[i] == init[i]);
            }
        }
    }
}

/// The map of a list of entries is finite.
pub proof fn lemma_entries_finite<V>(entries: Seq<(String, V)>)
    ensures
        entries_map(entries).dom().finite(),
    decreases entries.len(),
{
    if entries.len() > 0 {
        lemma_entries_finite(entries.drop_last());
    }
}

/// The map of a list of distinct entries has as many keys as there are entries.
pub proof fn lemma_entries_len<V>(entries: Seq<(String, V)>)
    requires
        distinct_keys(entries),
    ensures
        entries_map(entries).dom().finite(),
        entries_map(entries).dom().len() == entries.len(),
    decreases entries.len(),
{
    if entries.len() > 0 {
        let init = entries.drop_last();
        lemma_entries_len(init);
        lemma_entries_map(init);
        let key = entries.last().0@;
        assert(!entries_map(init).contains_key(key)) by {
            if entries_map(init).contains_key(key) {
                let i = choose|i: int| 0 <= i < init.len() && (#[trigger] init[i]).0@ == key;
                assert(entries[i].0@ != entries[entries.len() - 1].0@);
            }
        }
        assert(entries_map(entries).dom() =~= entries_map(init).dom().insert(key));
    } else {
        assert(entries_map(entries).dom() =~= Set::empty());
    }
}

impl<V> Table<V> {
    #[verifier::type_invariant]
    spec fn well_formed(self) -> bool {
        distinct_keys(self.entries@)
    }

    /// The entries, in order.
    pub closed spec fn spec_entries(self) -> Seq<(String, V)> {
        self.entries@
    }

    /// A table without entries.
    pub fn new() -> (t: Self)
        ensures
            t@ == Map::<Seq<char>, V>::empty(),
            t.spec_entries() == Seq::<(String, V)>::empty(),
    {
        let t = Table { entries: Vec::new() };
        t
    }

    #[verifier::loop_isolation(false)]
    fn position(&self, key: &str) -> (found: Option<usize>)
        ensures
            match found {
                Some(i) => i < self.entries@.len() && self.entries@[i as int].0@ == key@
                    && self@.contains_key(key@) && self@[key@] == self.entries@[i as int].1,
                None => !self@.contains_key(key@) && (forall|i: int|
                    0 <= i < self.entries@.len() ==> (#[trigger] self.entries@[i]).0@ != key@),
            },
    {
        proof {
            use_type_invariant(self);
            lemma_entries_map(self.entries@);
        }
        let mut i: usize = 0;
        while i < self.entries.len()
            invariant
                i <= self.entries@.len(),
                forall|k: int| 0 <= k < i ==> (#[trigger] self.entries@[k]).0@ != key@,
            decreases self.entries@.len() - i,
        {
            if same_text(self.entries[i].0.as_str(), key) {
                return Some(i);
            }
            i += 1;
        }
        None
    }

    /// The keys of a table are distinct.
    pub(crate) fn keys_are_distinct(&self)
        ensures
            distinct_keys(self.entries@),
    {
        proof {
            use_type_invariant(self);
        }
    }

    /// The number of entries.
    pub fn len(&self) -> (n: usize)
        ensures
            n == self.spec_entries().len(),
    {
        self.entries.len()
    }

    /// The entry at position `i`.
    pub fn entry(&self, i: usize) -> (entry: (&String, &V))
        requires
            i < self.spec_entries().len(),
        ensures
            *entry.0 == self.spec_entries()[i as int].0,
            *entry.1 == self.spec_entries()[i as int].1,
    {
        (&self.entries[i].0, &self.entries[i].1)
    }

    /// Whether the table has no entries.
    pub fn is_empty(&self) -> (empty: bool)
        ensures
            empty == (self.spec_entries().len() == 0),
            empty == (self@ == Map::<Seq<char>, V>::empty()),
    {
        proof {
            use_type_invariant(self);
            lemma_entries_map(self.entries@);
            if self.entries@.len() > 0 {
                assert(self@.contains_key(self.entries@[0].0@));
            }
        }
        self.entries.len() == 0
    }

    /// The value under `key`.
    pub fn get(&self, key: &str) -> (value: Option<&V>)
        ensures
            value is Some == self@.contains_key(key@),
            value is Some ==> *value->0 == self@[key@],
    {
        match self.position(key) {
            Some(i) => Some(&self.entries[i].1),
            None => None,
        }
    }

    /// Whether there is a value under `key`.
    pub fn contains_key(&self, key: &str) -> (found: bool)
        ensures
            found == self@.contains_key(key@),
    {
        self.position(key).is_some()
    }

    /// Puts `value` under `key`, in place of what was there.
    pub fn insert(&mut self, key: String, value: V)
        ensures
            final(self)@ == old(self)@.insert(key@, value),
    {
        let at = self.position(key.as_str());
        proof {
            use_type_invariant(&*self);
        }
        let ghost before = self.entries@;
        let mut entries: Vec<(String, V)> = Vec::new();
        std::mem::swap(&mut entries, &mut self.entries);
        match at {
            Some(i) => {
                entries[i] = (key, value);
                proof {
                    lemma_update(before, i as int, (key, value));
                }
            },
            None => {
                entries.push((key, value));
                assert(entries@.drop_last() =~= before);
            },
        }
        self.entries = entries;
    }

    /// Takes out the entry under `key`.
    pub fn remove(&mut self, key: &str)
        ensures
            final(self)@ == old(self)@.remove(key@),
    {
        let at = self.position(key);
        proof {
            use_type_invariant(&*self);
        }
        if let Some(i) = at {
            let ghost before = self.entries@;
            let mut entries: Vec<(String, V)> = Vec::new();
            std::mem::swap(&mut entries, &mut self.entries);
            let _taken = entries.remove(i);
            proof {
                lemma_remove(before, i as int);
            }
            self.entries = entries;
        } else {
            assert(self@.remove(key@) =~= self@);
        }
    }
}

impl<V: Clone> Clone for Table<V> {
    fn clone(&self) -> (copy: Self)
        ensures
            copy.spec_entries().len() == self.spec_entries().len(),
            forall|i: int|
                0 <= i < self.spec_entries().len() ==> (#[trigger] copy.spec_entries()[i]).0@
                    == self.spec_entries()[i].0@ && cloned::<V>(
                    self.spec_entries()[i].1,
                    copy.spec_entries()[i].1,
                ),
    {
        proof {
            use_type_invariant(self);
        }
        let mut entries: Vec<(String, V)> = Vec::new();
        let mut i: usize = 0;
        while i < self.entries.len()
            invariant
                i <= self.entries@.len(),
                entries@.len() == i,
                distinct_keys(self.entries@),
                forall|k: int|
                    0 <= k < i ==> (#[trigger] entries@[k]).0@ == self.entries@[k].0@ && cloned::<V>(
                        self.entries@[k].1,
                        entries@[k].1,
                    ),
            decreases self.entries@.len() - i,
        {
            let e = (self.entries[i].0.clone(), self.entries[i].1.clone());
            entries.push(e);
            i += 1;
        }
        assert(distinct_keys(entries@)) by {
            assert forall|a: int, b: int| 0 <= a < b < entries@.len() implies (
            #[trigger] entries@[a]).0@ != (#[trigger] entries@[b]).0@ by {
                assert(self.entries@[a].0@ != self.entries@[b].0@);
            }
        }
        Table { entries }
    }
}

/// The view of a table is the map of its entries.
pub(crate) proof fn lemma_table_view<V>(t: Table<V>)
    ensures
        t@ == entries_map(t.entries@),
        t.spec_entries() == t.entries@,
{
}

proof fn lemma_update<V>(entries: Seq<(String, V)>, i: int, e: (String, V))
    requires
        0 <= i < entries.len(),
        distinct_keys(entries),
        e.0@ == entries[i].0@,
    ensures
        distinct_keys(entries.update(i, e)),
        entries_map(entries.update(i, e)) == entries_map(entries).insert(e.0@, e.1),
{
    let after = entries.update(i, e);
    assert forall|a: int, b: int| 0 <= a < b < after.len() implies (#[trigger] after[a]).0@ != (
    #[trigger] after[b]).0@ by {
        assert(entries[a].0@ != entries[b].0@);
    }
    lemma_entries_map(entries);
    lemma_entries_map(after);
    let m = entries_map(entries).insert(e.0@, e.1);
    assert forall|k: Seq<char>|
        #![trigger entries_map(after).dom().contains(k)]
        #![trigger m.dom().contains(k)]
        entries_map(after).dom().contains(k) == m.dom().contains(k) && (m.dom().contains(k)
            ==> entries_map(after)[k] == m[k]) by {
        if entries_map(after).contains_key(k) {
            let j = choose|j: int| 0 <= j < after.len() && (#[trigger] after[j]).0@ == k;
            assert(entries[j].0@ == k);
        }
        if entries_map(entries).contains_key(k) {
            let j = choose|j: int| 0 <= j < entries.len() && (#[trigger] entries[j]).0@ == k;
            assert(after[j].0@ == k);
        }
        assert(after[i].0@ == e.0@);
    }
    assert(entries_map(after) =~= m);
}

proof fn lemma_remove<V>(entries: Seq<(String, V)>, i: int)
    requires
        0 <= i < entries.len(),
        distinct_keys(entries),
    ensures
        distinct_keys(entries.remove(i)),
        entries_map(entries.remove(i)) == entries_map(entries).remove(entries[i].0@),
{
    let after = entries.remove(i);
    assert forall|a: int, b: int| 0 <= a < b < after.len() implies (#[trigger] after[a]).0@ != (
    #[trigger] after[b]).0@ by {
        let x = if a < i { a } else { a + 1 };
        let y = if b < i { b } else { b + 1 };
        assert(entries[x].0@ != entries[y].0@);
    }
    lemma_entries_map(entries);
    lemma_entries_map(after);
    let m = entries_map(entries).remove(entries[i].0@);
    assert forall|k: Seq<char>|
        #![trigger entries_map(after).dom().contains(k)]
        #![trigger m.dom().contains(k)]
        entries_map(after).dom().contains(k) == m.dom().contains(k) && (m.dom().contains(k)
            ==> entries_map(after)[k] == m[k]) by {
        if entries_map(after).contains_key(k) {
            let j = choose|j: int| 0 <= j < after.len() && (#[trigger] after[j]).0@ == k;
            let x = if j < i { j } else { j + 1 };
            assert(entries[x] == after[j]);
            assert(entries[x].0@ != entries[i].0@);
        }
        if entries_map(entries).contains_key(k) && k != entries[i].0@ {
            let j = choose|j: int| 0 <= j < entries.len() && (#[trigger] entries[j]).0@ == k;
            let x = if j < i { j } else { j - 1 };
            assert(after[x] == entries[j]);
        }
    }
    assert(entries_map(after) =~= m);
}

} // verus!
