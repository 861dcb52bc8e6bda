//! A small map from strings to values that remembers the order in which keys came.

use vstd::prelude::*;
use crate::text::str_eq;

verus! {

/// The map that a list of entries stands for: a later entry for a key replaces an
/// earlier one.
pub open spec fn entries_to_map<V>(e: Seq<(Seq<char>, V)>) -> Map<Seq<char>, V>
    decreases e.len(),
{
    if e.len() == 0 {
        Map::empty()
    } else {
        entries_to_map(e.drop_last()).insert(e.last().0, e.last().1)
    }
}

/// No key occurs twice in `e`.
pub open spec fn distinct_keys<V>(e: Seq<(Seq<char>, V)>) -> bool {
    forall|i: int, j: int| 0 <= i < j < e.len() ==> (#[trigger] e[i]).0 != (#[trigger] e[j]).0
}

/// Some entry of `e` has the key `k`.
pub open spec fn has_key<V>(e: Seq<(Seq<char>, V)>, k: Seq<char>) -> bool {
    exists|i: int| 0 <= i < e.len() && (#[trigger] e[i]).0 == k
}

/// A key is in the map exactly if some entry carries it.
pub proof fn lemma_map_keys<V>(e: Seq<(Seq<char>, V)>, k: Seq<char>)
    ensures
        entries_to_map(e).contains_key(k) <==> has_key(e, k),
    decreases e.len(),
{
    if e.len() > 0 {
        lemma_map_keys(e.drop_last(), k);
        if has_key(e.drop_last(), k) {
            let i = choose|i: int| 0 <= i < e.drop_last().len() && (#[trigger] e.drop_last()[i]).0 == k;
            assert(e[i].0 == k);
        }
        if has_key(e, k) {
            let i = choose|i: int| 0 <= i < e.len() && (#[trigger] e[i]).0 == k;
            if i < e.len() - 1 {
                assert(e.drop_last()[i].0 == k);
            }
        }
    }
}

/// Where keys are distinct, each entry's key maps to that entry's value.
pub proof fn lemma_map_value<V>(e: Seq<(Seq<char>, V)>, i: int)
    requires
        distinct_keys(e),
        0 <= i < e.len(),
    ensures
        entries_to_map(e).contains_key(e[i].0),
        entries_to_map(e)[e[i].0] == e[i].1,
    decreases e.len(),
{
    if i < e.len() - 1 {
        let d = e.drop_last();
        assert forall|a: int, b: int| 0 <= a < b < d.len() implies (#[trigger] d[a]).0 != (
        #[trigger] d[b]).0 by {
            assert(d[a] == e[a] && d[b] == e[b]);
        }
        lemma_map_value(d, i);
        assert(e[i].0 != e[e.len() - 1].0);
    }
}

/// The entries that parallel lists of keys and values hold.
spec fn entries_of<V>(keys: Seq<String>, vals: Seq<V>) -> Seq<(Seq<char>, V)> {
    Seq::new(keys.len(), |i: int| (keys[i]@, vals[i]))
}

/// A map from strings to `V`. Keys are unique; inserting under a key that is present
/// replaces its value and keeps its place.
#[derive(Debug)]
pub struct StrMap<V> {
    keys: Vec<String>,
    vals: Vec<V>,
}

impl<V> View for StrMap<V> {
    type V = Map<Seq<char>, V>;

    closed spec fn view(&self) -> Map<Seq<char>, V> {
        entries_to_map(self.spec_entries())
    }
}

impl<V> StrMap<V> {
    #[verifier::type_invariant]
    spec fn inv(self) -> bool {
        &&& self.keys.len() == self.vals.len()
        &&& distinct_keys(self.spec_entries())
    }

    /// The entries in the order in which their keys were first inserted.
    pub closed spec fn spec_entries(self) -> Seq<(Seq<char>, V)> {
        entries_of(self.keys@, self.vals@)
    }

    /// An empty map.
    pub fn new() -> (r: Self)
        ensures
            r@ == Map::<Seq<char>, V>::empty(),
            r.spec_entries() == Seq::<(Seq<char>, V)>::empty(),
    {
        let r = StrMap { keys: Vec::new(), vals: Vec::new() };
        assert(r.spec_entries() =~= Seq::<(Seq<char>, V)>::empty());
        r
    }

    /// The number of keys.
    pub fn len(&self) -> (r: usize)
        ensures
            r == self.spec_entries().len(),
    {
        self.keys.len()
    }

    /// Position of `k` among the keys, if it is one.
    fn find(&self, k: &str) -> (r: Option<usize>)
        ensures
            match r {
                Some(i) => i < self.spec_entries().len() && self.spec_entries()[i as int].0 == k@,
                None => !has_key(self.spec_entries(), k@),
            },
    {
        let mut i: usize = 0;
        while i < self.keys.len()
            invariant
                i <= self.keys.len(),
                forall|j: int| 0 <= j < i ==> (#[trigger] self.spec_entries()[j]).0 != k@,
            decreases self.keys.len() - i,
        {
            if str_eq(self.keys[i].as_str(), k) {
                return Some(i);
            }
            i += 1;
        }
        None
    }

    /// The value stored under `k`, if any.
    pub fn get(&self, k: &str) -> (r: Option<&V>)
        ensures
            match r {
                Some(v) => self@.contains_key(k@) && *v == self@[k@],
                None => !self@.contains_key(k@),
            },
    {
        proof {
            use_type_invariant(self);
            lemma_map_keys(self.spec_entries(), k@);
        }
        match self.find(k) {
            Some(i) => {
                proof {
                    lemma_map_value(self.spec_entries(), i as int);
                }
                Some(&self.vals[i])
            },
            None => None,
        }
    }

    /// Whether a value is stored under `k`.
    pub fn contains_key(&self, k: &str) -> (r: bool)
        ensures
            r == self@.contains_key(k@),
    {
        self.get(k).is_some()
    }

    /// Stores `v` under `k`, replacing what was there.
    pub fn insert(&mut self, k: String, v: V)
        ensures
            final(self)@ == old(self)@.insert(k@, v),
            forall|i: int|
                0 <= i < old(self).spec_entries().len() && (#[trigger] old(self).spec_entries()[i]).0
                    == k@ ==> final(self).spec_entries() == old(self).spec_entries().update(
                    i,
                    (k@, v),
                ),
            !has_key(old(self).spec_entries(), k@) ==> final(self).spec_entries() == old(
                self,
            ).spec_entries().push((k@, v)),
    {
        proof {
            use_type_invariant(&*self);
        }
        let ghost e0 = self.spec_entries();
        let found = self.find(k.as_str());
        let mut taken = StrMap::new();
        core::mem::swap(self, &mut taken);
        let StrMap { mut keys, mut vals } = taken;
        match found {
            Some(i) => {
                vals[i] = v;
                proof {
                    let e1 = entries_of(keys@, vals@);
                    assert(e1 =~= e0.update(i as int, (k@, v)));
                    assert(distinct_keys(e1));
                }
                *self = StrMap { keys, vals };
                proof {
                    let e1 = self.spec_entries();
                    assert forall|q: Seq<char>|
                        entries_to_map(e1).contains_key(q) <==> entries_to_map(e0).insert(
                            k@,
                            v,
                        ).contains_key(q) by {
                        lemma_map_keys(e0, q);
                        lemma_map_keys(e1, q);
                        if has_key(e0, q) {
                            let j = choose|j: int| 0 <= j < e0.len() && (#[trigger] e0[j]).0 == q;
                            assert(e1[j].0 == q);
                        }
                        if has_key(e1, q) {
                            let j = choose|j: int| 0 <= j < e1.len() && (#[trigger] e1[j]).0 == q;
                            assert(e0[j].0 == q);
                        }
                        assert(e0[i as int].0 == k@);
                    }
                    assert forall|q: Seq<char>| entries_to_map(e1).contains_key(q) implies
                        entries_to_map(e1)[q] == entries_to_map(e0).insert(k@, v)[q] by {
                        lemma_map_keys(e1, q);
                        let j = choose|j: int| 0 <= j < e1.len() && (#[trigger] e1[j]).0 == q;
                        lemma_map_value(e1, j);
                        lemma_map_value(e0, j);
                    }
                    assert(entries_to_map(e1) =~= entries_to_map(e0).insert(k@, v));
                }
            },
            None => {
                keys.push(k);
                vals.push(v);
                proof {
                    let e1 = entries_of(keys@, vals@);
                    assert(e1 =~= e0.push((k@, v)));
                    assert(e1.drop_last() =~= e0);
                    assert(distinct_keys(e1));
                }
                *self = StrMap { keys, vals };
            },
        }
    }

    /// The key of the `i`-th entry.
    pub fn key_at(&self, i: usize) -> (r: &String)
        requires
            i < self.spec_entries().len(),
        ensures
            r@ == self.spec_entries()[i as int].0,
    {
        &self.keys[i]
    }

    /// The value of the `i`-th entry.
    pub fn value_at(&self, i: usize) -> (r: &V)
        requires
            i < self.spec_entries().len(),
        ensures
            *r == self.spec_entries()[i as int].1,
    {
        proof {
            use_type_invariant(self);
        }
        &self.vals[i]
    }
}

} // verus!
