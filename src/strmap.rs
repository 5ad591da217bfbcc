//! A map keyed by strings, kept as a list of entries with distinct keys.

use vstd::prelude::*;

use crate::text::same_text;

verus! {

/// The map that a list of entries describes: each key to its value.
pub open spec fn entries_map<V>(s: Seq<(Seq<char>, V)>) -> Map<Seq<char>, V>
    decreases s.len(),
{
    if s.len() == 0 {
        Map::empty()
    } else {
        entries_map(s.drop_last()).insert(s.last().0, s.last().1)
    }
}

/// No key occurs twice in the list.
pub open spec fn distinct_keys<V>(s: Seq<(Seq<char>, V)>) -> bool {
    forall|i: int, j: int| 0 <= i < s.len() && 0 <= j < s.len() && i != j ==> s[i].0 != s[j].0
}

/// A key is in the map exactly when some entry has it.
pub proof fn lemma_entries_map_domain<V>(s: Seq<(Seq<char>, V)>, k: Seq<char>)
    ensures
        entries_map(s).contains_key(k) <==> exists|i: int| 0 <= i < s.len() && s[i].0 == k,
    decreases s.len(),
{
    if s.len() > 0 {
        lemma_entries_map_domain(s.drop_last(), k);
        if entries_map(s).contains_key(k) && k != s.last().0 {
            let i = choose|i: int| 0 <= i < s.len() - 1 && s.drop_last()[i].0 == k;
            assert(s[i].0 == k);
        }
        if exists|i: int| 0 <= i < s.len() && s[i].0 == k {
            let i = choose|i: int| 0 <= i < s.len() && s[i].0 == k;
            if i < s.len() - 1 {
                assert(s.drop_last()[i].0 == k);
            }
        }
    }
}

/// With distinct keys, the map holds each entry's value.
pub proof fn lemma_entries_map_index<V>(s: Seq<(Seq<char>, V)>, i: int)
    requires
        distinct_keys(s),
        0 <= i < s.len(),
    ensures
        entries_map(s).contains_key(s[i].0),
        entries_map(s)[s[i].0] == s[i].1,
    decreases s.len(),
{
    if i < s.len() - 1 {
        assert(s.drop_last()[i] == s[i]);
        lemma_entries_map_index(s.drop_last(), i);
    }
}

/// With distinct keys, changing an entry's value changes the map at its key.
pub proof fn lemma_entries_map_update<V>(s: Seq<(Seq<char>, V)>, i: int, v: V)
    requires
        distinct_keys(s),
        0 <= i < s.len(),
    ensures
        entries_map(s.update(i, (s[i].0, v))) == entries_map(s).insert(s[i].0, v),
    decreases s.len(),
{
    let t = s.update(i, (s[i].0, v));
    if i == s.len() - 1 {
        assert(t.drop_last() == s.drop_last());
        lemma_entries_map_domain(s.drop_last(), s[i].0);
        assert(entries_map(s).insert(s[i].0, v) == entries_map(s.drop_last()).insert(s[i].0, v));
    } else {
        assert(t.drop_last() == s.drop_last().update(i, (s[i].0, v)));
        lemma_entries_map_update(s.drop_last(), i, v);
        assert(s.last().0 != s[i].0);
        assert(entries_map(t) == entries_map(s).insert(s[i].0, v));
    }
}

/// A map from strings to values.
#[derive(Debug)]
pub struct StrMap<V> {
    entries: Vec<(String, V)>,
}

impl<V> StrMap<V> {
    /// No two entries have the same key.
    pub open spec fn keys_distinct(&self) -> bool {
        forall|i: int, j: int| 0 <= i < j < self.spec_len() ==> self.key_at(i) != self.key_at(j)
    }

    /// The entries, with each key seen as its characters.
    pub closed spec fn entry_seq(&self) -> Seq<(Seq<char>, V)> {
        self.entries@.map_values(|e: (String, V)| (e.0@, e.1))
    }

    #[verifier::type_invariant]
    closed spec fn inv(&self) -> bool {
        distinct_keys(self.entry_seq())
    }

    pub closed spec fn spec_len(&self) -> nat {
        self.entries@.len()
    }

    /// The key of the entry at `i`.
    pub closed spec fn key_at(&self, i: int) -> Seq<char> {
        self.entries@[i].0@
    }

    /// The value of the entry at `i`.
    pub closed spec fn value_at(&self, i: int) -> V {
        self.entries@[i].1
    }

    /// The entry at `i`.
    pub fn entry(&self, i: usize) -> (r: (&String, &V))
        requires
            i < self.spec_len(),
        ensures
            r.0@ == self.key_at(i as int),
            *r.1 == self.value_at(i as int),
    {
        (&self.entries[i].0, &self.entries[i].1)
    }

    /// An empty map.
    pub fn new() -> (r: Self)
        ensures
            r@ == Map::<Seq<char>, V>::empty(),
    {
        let r = StrMap { entries: Vec::new() };
        assert(r.entry_seq().len() == 0);
        r
    }

    /// The number of keys. The keys are exactly those of the entries at
    /// `0 .. len`, each with the value there.
    pub fn len(&self) -> (r: usize)
        ensures
            r == self.spec_len(),
            self.keys_distinct(),
            forall|k: Seq<char>|
                #![trigger self@.contains_key(k)]
                self@.contains_key(k) <==> exists|i: int|
                    0 <= i < self.spec_len() && self.key_at(i) == k,
            forall|i: int|
                #![trigger self.key_at(i)]
                0 <= i < self.spec_len() ==> self@.contains_key(self.key_at(i))
                    && self@[self.key_at(i)] == self.value_at(i),
    {
        proof {
            use_type_invariant(self);
            let s = self.entry_seq();
            assert forall|i: int, j: int| 0 <= i < j < self.spec_len() implies self.key_at(i) != self.key_at(j) by {
                assert(s[i].0 == self.key_at(i) && s[j].0 == self.key_at(j));
            }
            assert forall|k: Seq<char>| #![trigger self@.contains_key(k)]
                self@.contains_key(k) <==> exists|i: int| 0 <= i < self.spec_len() && self.key_at(i) == k by {
                lemma_entries_map_domain(s, k);
                if self@.contains_key(k) {
                    let i = choose|i: int| 0 <= i < s.len() && s[i].0 == k;
                    assert(self.key_at(i) == k);
                }
                if exists|i: int| 0 <= i < self.spec_len() && self.key_at(i) == k {
                    let i = choose|i: int| 0 <= i < self.spec_len() && self.key_at(i) == k;
                    assert(s[i].0 == k);
                }
            }
            assert forall|i: int| #![trigger self.key_at(i)]
                0 <= i < self.spec_len() implies self@.contains_key(self.key_at(i))
                    && self@[self.key_at(i)] == self.value_at(i) by {
                lemma_entries_map_index(s, i);
            }
        }
        self.entries.len()
    }

    /// Where `k` stands among the entries, if it is a key.
    fn position(&self, k: &str) -> (r: Option<usize>)
        ensures
            r is None ==> !self@.contains_key(k@),
            r matches Some(i) ==> i < self.entries@.len() && self.entries@[i as int].0@ == k@,
    {
        let mut i: usize = 0;
        while i < self.entries.len()
            invariant
                i <= self.entries@.len(),
                forall|j: int| 0 <= j < i ==> self.entries@[j].0@ != k@,
            decreases self.entries@.len() - i,
        {
            if same_text(self.entries[i].0.as_str(), k) {
                return Some(i);
            }
            i = i + 1;
        }
        proof {
            use_type_invariant(self);
            lemma_entries_map_domain(self.entry_seq(), k@);
            if self@.contains_key(k@) {
                let j = choose|j: int| 0 <= j < self.entry_seq().len() && self.entry_seq()[j].0 == k@;
                assert(self.entries@[j].0@ == k@);
            }
        }
        None
    }

    /// Whether `k` is a key.
    pub fn contains_key(&self, k: &str) -> (r: bool)
        ensures
            r == self@.contains_key(k@),
    {
        match self.position(k) {
            Some(i) => {
                proof {
                    use_type_invariant(self);
                    lemma_entries_map_index(self.entry_seq(), i as int);
                }
                true
            },
            None => false,
        }
    }

    /// The value of `k`, if it is a key.
    pub fn get(&self, k: &str) -> (r: Option<&V>)
        ensures
            r is None ==> !self@.contains_key(k@),
            r matches Some(v) ==> self@.contains_key(k@) && self@[k@] == *v,
    {
        match self.position(k) {
            Some(i) => {
                proof {
                    use_type_invariant(self);
                    lemma_entries_map_index(self.entry_seq(), i as int);
                }
                Some(&self.entries[i].1)
            },
            None => None,
        }
    }

    /// The entries, each key once, in the order the keys were first inserted.
    pub fn into_entries(self) -> (r: Vec<(String, V)>)
        ensures
            distinct_keys(r@.map_values(|e: (String, V)| (e.0@, e.1))),
            entries_map(r@.map_values(|e: (String, V)| (e.0@, e.1))) == self@,
    {
        proof { use_type_invariant(&self); }
        self.entries
    }

    /// Sets the value of `k`, and returns the value it had.
    pub fn insert(&mut self, k: String, v: V) -> (r: Option<V>)
        ensures
            final(self)@ == old(self)@.insert(k@, v),
            r is None ==> !old(self)@.contains_key(k@),
            r matches Some(w) ==> old(self)@.contains_key(k@) && old(self)@[k@] == w,
    {
        proof { use_type_invariant(&*self); }
        let ghost s = self.entry_seq();
        let found = self.position(k.as_str());
        let mut taken = StrMap { entries: Vec::new() };
        proof { assert(taken.entry_seq().len() == 0); }
        std::mem::swap(self, &mut taken);
        proof { use_type_invariant(&taken); }
        let StrMap { entries: mut entries } = taken;
        match found {
            Some(i) => {
                proof { lemma_entries_map_index(s, i as int); }
                let (key, old_v) = entries.remove(i);
                entries.insert(i, (key, v));
                let ghost t = entries@.map_values(|e: (String, V)| (e.0@, e.1));
                proof {
                    assert(t == s.update(i as int, (s[i as int].0, v)));
                    lemma_entries_map_update(s, i as int, v);
                }
                *self = StrMap { entries };
                Some(old_v)
            },
            None => {
                entries.push((k, v));
                let ghost t = entries@.map_values(|e: (String, V)| (e.0@, e.1));
                proof {
                    assert(t == s.push((k@, v)));
                    assert(t.drop_last() == s);
                    lemma_entries_map_domain(s, k@);
                }
                *self = StrMap { entries };
                None
            },
        }
    }
}

impl<V: Clone> Clone for StrMap<V> {
    /// A copy with the same keys, each value cloned.
    fn clone(&self) -> (r: Self)
        ensures
            r@.dom() == self@.dom(),
    {
        proof { use_type_invariant(self); }
        let mut entries: Vec<(String, V)> = Vec::new();
        let mut i: usize = 0;
        while i < self.entries.len()
            invariant
                i <= self.entries@.len(),
                distinct_keys(self.entry_seq()),
                entries@.len() == i,
                forall|j: int| 0 <= j < i ==> #[trigger] entries@[j].0@ == self.entries@[j].0@,
            decreases self.entries@.len() - i,
        {
            let k = self.entries[i].0.clone();
            let v = self.entries[i].1.clone();
            entries.push((k, v));
            i = i + 1;
        }
        proof {
            let t = entries@.map_values(|e: (String, V)| (e.0@, e.1));
            assert(forall|j: int| 0 <= j < i ==> t[j].0 == self.entry_seq()[j].0);
            assert(distinct_keys(t));
        }
        let r = StrMap { entries };
        proof {
            assert(forall|j: int| 0 <= j < i ==> r.entry_seq()[j].0 == self.entry_seq()[j].0);
            assert forall|q: Seq<char>| r@.contains_key(q) <==> self@.contains_key(q) by {
                lemma_entries_map_domain(r.entry_seq(), q);
                lemma_entries_map_domain(self.entry_seq(), q);
                if r@.contains_key(q) {
                    let j = choose|j: int| 0 <= j < r.entry_seq().len() && r.entry_seq()[j].0 == q;
                    assert(self.entry_seq()[j].0 == q);
                }
                if self@.contains_key(q) {
                    let j = choose|j: int| 0 <= j < self.entry_seq().len() && self.entry_seq()[j].0 == q;
                    assert(r.entry_seq()[j].0 == q);
                }
            }
            assert(r@.dom() =~= self@.dom());
        }
        r
    }
}

impl<V> View for StrMap<V> {
    type V = Map<Seq<char>, V>;

    closed spec fn view(&self) -> Map<Seq<char>, V> {
        entries_map(self.entry_seq())
    }
}

} // verus!
