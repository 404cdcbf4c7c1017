//! Environments: finite maps from names to entries, kept in the order in
//! which names were first bound.
use vstd::prelude::*;

verus! {

/// No name is bound twice.
pub open spec fn keys_unique<V>(s: Seq<(String, V)>) -> bool {
    forall|i: int, j: int| 0 <= i < j < s.len() ==> (#[trigger] s[i]).0@ != (#[trigger] s[j]).0@
}

/// The map that a list of bindings denotes.
pub open spec fn entries_map<V>(s: Seq<(String, V)>) -> Map<Seq<char>, V>
    decreases s.len(),
{
    if s.len() == 0 {
        Map::empty()
    } else {
        entries_map(s.drop_last()).insert(s.last().0@, s.last().1)
    }
}

/// The position of the binding of `k`, or -1 where `k` is not bound.
pub open spec fn key_index<V>(s: Seq<(String, V)>, k: Seq<char>) -> int
    decreases s.len(),
{
    if s.len() == 0 {
        -1
    } else if s.last().0@ == k {
        s.len() - 1
    } else {
        key_index(s.drop_last(), k)
    }
}

/// The bindings after `k` is bound to `v`: in place where `k` was bound, at the end otherwise.
pub open spec fn entries_insert<V>(s: Seq<(String, V)>, k: String, v: V) -> Seq<(String, V)> {
    if key_index(s, k@) >= 0 {
        s.update(key_index(s, k@), (k, v))
    } else {
        s.push((k, v))
    }
}

pub proof fn lemma_keys_unique_drop_last<V>(s: Seq<(String, V)>)
    requires
        keys_unique(s),
        s.len() > 0,
    ensures
        keys_unique(s.drop_last()),
{
    let t = s.drop_last();
    assert forall|i: int, j: int| 0 <= i < j < t.len() implies (#[trigger] t[i]).0@ != (#[trigger] t[j]).0@ by {
        assert(t[i] == s[i] && t[j] == s[j]);
    }
}

pub proof fn lemma_key_index<V>(s: Seq<(String, V)>, k: Seq<char>)
    requires
        keys_unique(s),
    ensures
        -1 <= key_index(s, k) < s.len(),
        key_index(s, k) >= 0 ==> s[key_index(s, k)].0@ == k,
        key_index(s, k) == -1 <==> forall|i: int| 0 <= i < s.len() ==> (#[trigger] s[i]).0@ != k,
        forall|i: int| 0 <= i < s.len() && (#[trigger] s[i]).0@ == k ==> i == key_index(s, k),
    decreases s.len(),
{
    if s.len() > 0 {
        let t = s.drop_last();
        lemma_keys_unique_drop_last(s);
        lemma_key_index(t, k);
        assert forall|i: int| 0 <= i < s.len() - 1 implies #[trigger] t[i] == s[i] by {}
        if s.last().0@ == k {
            assert forall|i: int| 0 <= i < s.len() && (#[trigger] s[i]).0@ == k implies i == key_index(s, k) by {
                if i < s.len() - 1 {
                    assert(s[i].0@ != s[s.len() - 1].0@);
                }
            }
        } else {
            assert forall|i: int| 0 <= i < s.len() && (#[trigger] s[i]).0@ == k implies i == key_index(s, k) by {
                assert(i < s.len() - 1);
                assert(t[i] == s[i]);
            }
            if key_index(s, k) == -1 {
                assert forall|i: int| 0 <= i < s.len() implies (#[trigger] s[i]).0@ != k by {
                    if i < s.len() - 1 {
                        assert(t[i] == s[i]);
                    }
                }
            }
        }
    }
}

/// With unique names, the map holds exactly the bound names, each with its entry.
pub proof fn lemma_entries_map<V>(s: Seq<(String, V)>)
    requires
        keys_unique(s),
    ensures
        forall|k: Seq<char>| #[trigger] entries_map(s).dom().contains(k) <==> key_index(s, k) >= 0,
        forall|i: int| 0 <= i < s.len() ==> entries_map(s)[(#[trigger] s[i]).0@] == s[i].1,
        entries_map(s).dom().finite(),
    decreases s.len(),
{
    if s.len() > 0 {
        let t = s.drop_last();
        lemma_keys_unique_drop_last(s);
        lemma_entries_map(t);
        assert forall|k: Seq<char>| #[trigger] entries_map(s).dom().contains(k) <==> key_index(s, k) >= 0 by {
            lemma_key_index(t, k);
        }
        assert forall|i: int| 0 <= i < s.len() implies entries_map(s)[(#[trigger] s[i]).0@] == s[i].1 by {
            if i < s.len() - 1 {
                assert(t[i] == s[i]);
                assert(s[i].0@ != s[s.len() - 1].0@);
            }
        }
    }
}

/// An environment: names bound to entries, each name at most once.
pub struct Env<V> {
    entries: Vec<(String, V)>,
}

impl<V> Env<V> {
    #[verifier::type_invariant]
    spec fn inv(self) -> bool {
        keys_unique(self.entries@)
    }

    /// The bindings, in the order in which their names were first bound.
    pub closed spec fn entries(self) -> Seq<(String, V)> {
        self.entries@
    }

    pub open spec fn view(self) -> Map<Seq<char>, V> {
        entries_map(self.entries())
    }

    pub fn new() -> (r: Self)
        ensures
            r.entries() == Seq::<(String, V)>::empty(),
            r@ == Map::<Seq<char>, V>::empty(),
    {
        Env { entries: Vec::new() }
    }

    fn position(&self, k: &String) -> (r: Option<usize>)
        ensures
            keys_unique(self.entries()),
            match r {
                Some(i) => i == key_index(self.entries(), k@) && i < self.entries().len()
                    && self.entries()[i as int].0@ == k@,
                None => key_index(self.entries(), k@) == -1,
            },
    {
        proof {
            use_type_invariant(self);
            lemma_key_index(self.entries@, k@);
        }
        let n = self.entries.len();
        for i in 0..n
            invariant
                n == self.entries@.len(),
                keys_unique(self.entries@),
                -1 <= key_index(self.entries@, k@) < n,
                forall|j: int| 0 <= j < i ==> (#[trigger] self.entries@[j]).0@ != k@,
                forall|j: int| 0 <= j < n && (#[trigger] self.entries@[j]).0@ == k@ ==> j == key_index(self.entries@, k@),
                key_index(self.entries@, k@) == -1 <==> forall|j: int| 0 <= j < n ==> (#[trigger] self.entries@[j]).0@ != k@,
        {
            if self.entries[i].0 == *k {
                return Some(i);
            }
        }
        None
    }

    /// Binds `k` to `v`, replacing an earlier binding of `k` in place.
    pub fn insert(&mut self, k: String, v: V)
        ensures
            final(self)@ == old(self)@.insert(k@, v),
            final(self).entries() == entries_insert(old(self).entries(), k, v),
    {
        proof {
            use_type_invariant(&*self);
        }
        let ghost s = self.entries@;
        proof {
            lemma_key_index(s, k@);
            lemma_entries_map(s);
        }
        match self.position(&k) {
            Some(i) => {
                let ghost t = s.update(i as int, (k, v));
                assert(keys_unique(t)) by {
                    assert forall|a: int, b: int| 0 <= a < b < t.len() implies (#[trigger] t[a]).0@ != (#[trigger] t[b]).0@ by {
                        if a != i && b != i {
                            assert(t[a] == s[a] && t[b] == s[b]);
                        }
                    }
                }
                proof {
                    lemma_entries_map(t);
                    assert forall|key: Seq<char>| key_index(t, key) >= 0 <==> key_index(s, key) >= 0 || key == k@ by {
                        lemma_key_index(t, key);
                        lemma_key_index(s, key);
                        if key_index(s, key) >= 0 {
                            assert(t[key_index(s, key)].0@ == key);
                        }
                        if key_index(t, key) >= 0 {
                            assert(s[key_index(t, key)].0@ == key);
                        }
                    }
                }
                let mut es: Vec<(String, V)> = Vec::new();
                std::mem::swap(&mut es, &mut self.entries);
                es.set(i, (k, v));
                self.entries = es;
                proof {
                    assert forall|key: Seq<char>| entries_map(t).dom().contains(key) implies entries_map(t)[key] == entries_map(s).insert(k@, v)[key] by {
                        lemma_key_index(t, key);
                        let j = key_index(t, key);
                        assert(t[j].0@ == key);
                        if key != k@ {
                            assert(s[j] == t[j]);
                        }
                    }
                    assert(entries_map(t) =~= entries_map(s).insert(k@, v));
                }
            },
            None => {
                let ghost t = s.push((k, v));
                assert(keys_unique(t)) by {
                    assert forall|a: int, b: int| 0 <= a < b < t.len() implies (#[trigger] t[a]).0@ != (#[trigger] t[b]).0@ by {
                        assert(t[a] == s[a]);
                        if b < s.len() {
                            assert(t[b] == s[b]);
                        }
                    }
                }
                assert(t.drop_last() =~= s);
                let mut es: Vec<(String, V)> = Vec::new();
                std::mem::swap(&mut es, &mut self.entries);
                es.push((k, v));
                self.entries = es;
            },
        }
    }

    /// The entry bound to `k`, if any.
    pub fn get(&self, k: &String) -> (r: Option<&V>)
        ensures
            match r {
                Some(v) => self@.dom().contains(k@) && *v == self@[k@],
                None => !self@.dom().contains(k@),
            },
    {
        proof {
            use_type_invariant(self);
            lemma_entries_map(self.entries@);
        }
        match self.position(k) {
            Some(i) => Some(&self.entries[i].1),
            None => None,
        }
    }

    /// Removes the binding of `k`, if any.
    pub fn remove(&mut self, k: &String)
        ensures
            final(self)@ == old(self)@.remove(k@),
            key_index(old(self).entries(), k@) >= 0 ==> final(self).entries() == old(self).entries().remove(key_index(old(self).entries(), k@)),
            key_index(old(self).entries(), k@) < 0 ==> final(self).entries() == old(self).entries(),
    {
        proof {
            use_type_invariant(&*self);
        }
        let ghost s = self.entries@;
        proof {
            lemma_key_index(s, k@);
            lemma_entries_map(s);
        }
        match self.position(k) {
            Some(i) => {
                let ghost t = s.remove(i as int);
                assert(keys_unique(t)) by {
                    assert forall|a: int, b: int| 0 <= a < b < t.len() implies (#[trigger] t[a]).0@ != (#[trigger] t[b]).0@ by {
                        let a2 = if a < i { a } else { a + 1 };
                        let b2 = if b < i { b } else { b + 1 };
                        assert(t[a] == s[a2] && t[b] == s[b2]);
                    }
                }
                proof {
                    lemma_entries_map(t);
                    assert forall|key: Seq<char>| #![auto] entries_map(t).dom().contains(key) <==> entries_map(s).remove(k@).dom().contains(key) by {
                        lemma_key_index(t, key);
                        lemma_key_index(s, key);
                        if key_index(s, key) >= 0 && key != k@ {
                            let j = key_index(s, key);
                            let j2 = if j < i { j } else { j - 1 };
                            assert(t[j2] == s[j]);
                        }
                        if key_index(t, key) >= 0 {
                            let j = key_index(t, key);
                            let j2 = if j < i { j } else { j + 1 };
                            assert(t[j] == s[j2]);
                        }
                    }
                    assert forall|key: Seq<char>| entries_map(t).dom().contains(key) implies entries_map(t)[key] == entries_map(s).remove(k@)[key] by {
                        lemma_key_index(t, key);
                        let j = key_index(t, key);
                        let j2 = if j < i { j } else { j + 1 };
                        assert(t[j] == s[j2]);
                    }
                    assert(entries_map(t) =~= entries_map(s).remove(k@));
                }
                let mut es: Vec<(String, V)> = Vec::new();
                std::mem::swap(&mut es, &mut self.entries);
                es.remove(i);
                self.entries = es;
            },
            None => {
                assert(entries_map(s) =~= entries_map(s).remove(k@));
            },
        }
    }

    /// True exactly when no name is bound.
    pub fn is_empty(&self) -> (r: bool)
        ensures
            r == (self@.dom() == Set::<Seq<char>>::empty()),
    {
        proof {
            use_type_invariant(self);
            lemma_entries_map(self.entries@);
            if self.entries@.len() > 0 {
                lemma_key_index(self.entries@, self.entries@[0].0@);
                assert(self@.dom().contains(self.entries@[0].0@));
            } else {
                assert(self@.dom() =~= Set::<Seq<char>>::empty());
            }
        }
        self.entries.len() == 0
    }

    /// The bindings, in the order in which their names were first bound.
    pub fn bindings(&self) -> (r: &Vec<(String, V)>)
        ensures
            r@ == self.entries(),
    {
        &self.entries
    }
}

/// Reading after writing: once `insert(k, v)` has run, `get(k)` finds `v`
/// and every other name keeps its binding; once `remove(k)` has run, `get(k)`
/// finds nothing and every other name keeps its binding.
pub proof fn lemma_env_read_after_write<V>(before: Env<V>, after: Env<V>, k: Seq<char>, v: V, removed: bool)
    requires
        removed ==> after@ == before@.remove(k),
        !removed ==> after@ == before@.insert(k, v),
    ensures
        !removed ==> after@.dom().contains(k) && after@[k] == v,
        removed ==> !after@.dom().contains(k),
        forall|k2: Seq<char>| k2 != k ==> #[trigger] after@.get(k2) == before@.get(k2),
{
    assert forall|k2: Seq<char>| k2 != k implies #[trigger] after@.get(k2) == before@.get(k2) by {
        if after@.dom().contains(k2) {
            assert(before@.dom().contains(k2));
        }
        if before@.dom().contains(k2) {
            assert(after@.dom().contains(k2));
        }
    }
}

} // verus!
