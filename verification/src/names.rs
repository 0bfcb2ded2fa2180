//! A map from names to values, kept as a vector of distinct names.
use vstd::prelude::*;

use crate::interpreter::Value;

verus! {

/// The map that a list of bindings denotes: later bindings override earlier ones.
pub open spec fn bindings_map<V>(s: Seq<(String, V)>) -> Map<Seq<char>, V>
    decreases s.len(),
{
    if s.len() == 0 {
        Map::empty()
    } else {
        bindings_map(s.drop_last()).insert(s.last().0@, s.last().1)
    }
}

pub open spec fn distinct_names<V>(s: Seq<(String, V)>) -> bool {
    forall|i: int, j: int| 0 <= i < j < s.len() ==> s[i].0@ != s[j].0@
}

/// A map from names to values.
pub struct NameMap<V> {
    entries: Vec<(String, V)>,
}

impl<V> View for NameMap<V> {
    type V = Map<Seq<char>, V>;

    closed spec fn view(&self) -> Map<Seq<char>, V> {
        bindings_map(self.entries@)
    }
}

proof fn lemma_bindings_map<V>(s: Seq<(String, V)>)
    requires
        distinct_names(s),
    ensures
        forall|k: Seq<char>| #[trigger] bindings_map(s).contains_key(k) <==> exists|i: int| 0 <= i < s.len() && s[i].0@ == k,
        forall|i: int| 0 <= i < s.len() ==> #[trigger] bindings_map(s)[s[i].0@] == s[i].1,
    decreases s.len(),
{
    if s.len() > 0 {
        let t = s.drop_last();
        lemma_bindings_map(t);
        assert forall|k: Seq<char>| #[trigger] bindings_map(s).contains_key(k) <==> exists|i: int| 0 <= i < s.len() && s[i].0@ == k by {
            if bindings_map(s).contains_key(k) && k != s.last().0@ {
                assert(bindings_map(t).contains_key(k));
                let i = choose|i: int| 0 <= i < t.len() && t[i].0@ == k;
                assert(t[i] == s[i]);
                assert(s[i].0@ == k);
            }
            if exists|i: int| 0 <= i < s.len() && s[i].0@ == k {
                let i = choose|i: int| 0 <= i < s.len() && s[i].0@ == k;
                if i < s.len() - 1 {
                    assert(t[i] == s[i]);
                    assert(t[i].0@ == k);
                    assert(bindings_map(t).contains_key(k));
                }
            }
        }
        assert forall|i: int| 0 <= i < s.len() implies #[trigger] bindings_map(s)[s[i].0@] == s[i].1 by {
            if i < s.len() - 1 {
                assert(t[i] == s[i]);
                assert(s[i].0@ != s[s.len() - 1].0@);
                assert(bindings_map(t)[t[i].0@] == t[i].1);
            }
        }
    }
}

proof fn lemma_bindings_update<V>(s: Seq<(String, V)>, i: int, k: String, v: V)
    requires
        distinct_names(s),
        0 <= i < s.len(),
        s[i].0@ == k@,
    ensures
        distinct_names(s.update(i, (k, v))),
        bindings_map(s.update(i, (k, v))) == bindings_map(s).insert(k@, v),
{
    let u = s.update(i, (k, v));
    lemma_bindings_map(s);
    lemma_bindings_map(u);
    assert(bindings_map(u) =~= bindings_map(s).insert(k@, v)) by {
        assert forall|key: Seq<char>| #[trigger] bindings_map(u).contains_key(key) == bindings_map(s).insert(k@, v).contains_key(key) by {
            if exists|j: int| 0 <= j < s.len() && s[j].0@ == key {
                let j = choose|j: int| 0 <= j < s.len() && s[j].0@ == key;
                assert(u[j].0@ == key);
            }
            if exists|j: int| 0 <= j < u.len() && u[j].0@ == key {
                let j = choose|j: int| 0 <= j < u.len() && u[j].0@ == key;
                assert(s[j].0@ == key);
            }
        }
        assert forall|key: Seq<char>| #[trigger] bindings_map(u).contains_key(key) implies bindings_map(u)[key] == bindings_map(s).insert(k@, v)[key] by {
            let j = choose|j: int| 0 <= j < u.len() && u[j].0@ == key;
            assert(bindings_map(u)[u[j].0@] == u[j].1);
            if j != i {
                assert(bindings_map(s)[s[j].0@] == s[j].1);
            }
        }
    }
}

impl<V> NameMap<V> {
    #[verifier::type_invariant]
    spec fn inv(&self) -> bool {
        distinct_names(self.entries@)
    }

    /// The empty map.
    pub fn new() -> (r: Self)
        ensures
            r@ == Map::<Seq<char>, V>::empty(),
    {
        NameMap { entries: Vec::new() }
    }

    /// The number of names bound.
    pub fn len(&self) -> (r: usize)
        ensures
            r == self@.len(),
    {
        proof {
            use_type_invariant(self);
            lemma_bindings_map(self.entries@);
            lemma_bindings_len(self.entries@);
        }
        self.entries.len()
    }

    fn find(&self, name: &String) -> (r: Option<usize>)
        ensures
            match r {
                Some(i) => i < self.entries@.len() && self.entries@[i as int].0@ == name@,
                None => forall|i: int| 0 <= i < self.entries@.len() ==> self.entries@[i].0@ != name@,
            },
    {
        let mut i: usize = 0;
        while i < self.entries.len()
            invariant
                i <= self.entries@.len(),
                forall|j: int| 0 <= j < i ==> self.entries@[j].0@ != name@,
            decreases self.entries@.len() - i,
        {
            if self.entries[i].0 == *name {
                return Some(i);
            }
            i = i + 1;
        }
        None
    }

    /// The value bound to `name`.
    pub fn get(&self, name: &String) -> (r: Option<&V>)
        ensures
            match r {
                Some(v) => self@.contains_key(name@) && *v == self@[name@],
                None => !self@.contains_key(name@),
            },
    {
        proof {
            use_type_invariant(self);
            lemma_bindings_map(self.entries@);
        }
        match self.find(name) {
            Some(i) => Some(&self.entries[i].1),
            None => None,
        }
    }

    /// Binds `name` to `value`, replacing an earlier binding of it.
    pub fn insert(&mut self, name: String, value: V)
        ensures
            final(self)@ == old(self)@.insert(name@, value),
    {
        proof {
            use_type_invariant(&*self);
            lemma_bindings_map(self.entries@);
        }
        match self.find(&name) {
            Some(i) => {
                proof {
                    lemma_bindings_update(self.entries@, i as int, name, value);
                }
                let mut entries: Vec<(String, V)> = Vec::new();
                std::mem::swap(&mut entries, &mut self.entries);
                entries.set(i, (name, value));
                self.entries = entries;
            },
            None => {
                let ghost s = self.entries@;
                let mut entries: Vec<(String, V)> = Vec::new();
                std::mem::swap(&mut entries, &mut self.entries);
                entries.push((name, value));
                proof {
                    assert(entries@.drop_last() =~= s);
                }
                self.entries = entries;
            },
        }
    }
}

proof fn lemma_bindings_len<V>(s: Seq<(String, V)>)
    requires
        distinct_names(s),
    ensures
        bindings_map(s).len() == s.len(),
        bindings_map(s).dom().finite(),
    decreases s.len(),
{
    if s.len() > 0 {
        let t = s.drop_last();
        lemma_bindings_len(t);
        lemma_bindings_map(t);
        assert(!bindings_map(t).contains_key(s.last().0@)) by {
            if bindings_map(t).contains_key(s.last().0@) {
                let i = choose|i: int| 0 <= i < t.len() && t[i].0@ == s.last().0@;
                assert(s[i].0@ == s[s.len() - 1].0@);
            }
        }
    }
}

impl NameMap<Value> {
    /// A copy of this map of values.
    pub fn duplicate(&self) -> (r: Self)
        ensures
            r@ == self@,
    {
        proof {
            use_type_invariant(self);
        }
        let mut entries: Vec<(String, Value)> = Vec::new();
        let mut i: usize = 0;
        while i < self.entries.len()
            invariant
                i <= self.entries@.len(),
                entries@ == self.entries@.subrange(0, i as int),
            decreases self.entries@.len() - i,
        {
            entries.push((self.entries[i].0.clone(), self.entries[i].1.duplicate()));
            assert(entries@ =~= self.entries@.subrange(0, i + 1));
            i = i + 1;
        }
        assert(entries@ =~= self.entries@);
        NameMap { entries }
    }
}

} // verus!
