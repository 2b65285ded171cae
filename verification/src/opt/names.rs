//! A table from names to values in which the latest binding of a name wins.

use vstd::prelude::*;

verus! {

/// The index of the last key equal to `k`.
pub open spec fn last_index_of(keys: Seq<Seq<char>>, k: Seq<char>) -> Option<int>
    decreases keys.len(),
{
    if keys.len() == 0 {
        None
    } else if keys.last() == k {
        Some(keys.len() - 1)
    } else {
        last_index_of(keys.drop_last(), k)
    }
}

pub proof fn lemma_last_index_in_range(keys: Seq<Seq<char>>, k: Seq<char>)
    ensures
        last_index_of(keys, k) matches Some(i) ==> 0 <= i < keys.len() && keys[i] == k,
    decreases keys.len(),
{
    if keys.len() > 0 && keys.last() != k {
        lemma_last_index_in_range(keys.drop_last(), k);
    }
}

/// Bindings from names to values, kept in the order they were made.
pub struct NameTable<V> {
    keys: Vec<String>,
    vals: Vec<V>,
}

impl<V: Copy> NameTable<V> {
    pub closed spec fn key_seq(&self) -> Seq<Seq<char>> {
        self.keys@.map_values(|s: String| s@)
    }

    pub closed spec fn wf(&self) -> bool {
        self.keys@.len() == self.vals@.len()
    }

    /// The table as a map: each name to the value of its latest binding.
    pub closed spec fn view(&self) -> Map<Seq<char>, V> {
        Map::new(
            |k: Seq<char>| last_index_of(self.key_seq(), k) is Some,
            |k: Seq<char>| self.vals@[last_index_of(self.key_seq(), k).unwrap()],
        )
    }

    pub fn new() -> (t: Self)
        ensures
            t.wf(),
            t.view() == Map::<Seq<char>, V>::empty(),
    {
        let t = NameTable { keys: Vec::new(), vals: Vec::new() };
        assert(t.view() =~= Map::<Seq<char>, V>::empty());
        t
    }

    /// The value bound to `name`, if any.
    pub fn get(&self, name: &String) -> (r: Option<V>)
        requires
            self.wf(),
        ensures
            r == (if self.view().contains_key(name@) {
                Some(self.view()[name@])
            } else {
                None
            }),
    {
        let ghost ks = self.key_seq();
        let mut i: usize = self.keys.len();
        assert(ks.subrange(0, i as int) =~= ks);
        while i > 0
            invariant
                i <= self.keys@.len(),
                self.wf(),
                ks == self.key_seq(),
                last_index_of(ks, name@) == last_index_of(ks.subrange(0, i as int), name@),
            decreases i,
        {
            let ghost sub = ks.subrange(0, i as int);
            assert(sub.drop_last() =~= ks.subrange(0, i - 1));
            if self.keys[i - 1] == *name {
                proof {
                    assert(sub.last() == name@);
                }
                return Some(self.vals[i - 1]);
            }
            i -= 1;
        }
        None
    }

    /// Binds `name` to `v`, replacing any earlier binding of it.
    pub fn insert(&mut self, name: String, v: V)
        requires
            old(self).wf(),
        ensures
            final(self).wf(),
            final(self).view() == old(self).view().insert(name@, v),
    {
        let ghost ks = self.key_seq();
        let ghost nm = name@;
        self.keys.push(name);
        self.vals.push(v);
        proof {
            let ks2 = self.key_seq();
            assert(ks2.drop_last() =~= ks);
            assert(ks2.last() == nm);
            assert forall|k: Seq<char>| k != nm implies last_index_of(ks2, k) == last_index_of(ks, k) by {}
            assert forall|k: Seq<char>| #[trigger] last_index_of(ks, k) is Some implies self.vals@[last_index_of(ks, k).unwrap()]
                == old(self).vals@[last_index_of(ks, k).unwrap()] by {
                lemma_last_index_in_range(ks, k);
            }
            assert(self.view() =~= old(self).view().insert(nm, v));
        }
    }

    /// A table with the same bindings.
    pub fn duplicate(&self) -> (t: Self)
        requires
            self.wf(),
        ensures
            t.wf(),
            t.view() == self.view(),
    {
        let mut keys: Vec<String> = Vec::new();
        let mut vals: Vec<V> = Vec::new();
        let mut i: usize = 0;
        while i < self.keys.len()
            invariant
                self.wf(),
                i <= self.keys@.len(),
                keys@.len() == i,
                vals@.len() == i,
                forall|j: int| 0 <= j < i ==> #[trigger] keys@[j]@ == self.keys@[j]@,
                forall|j: int| 0 <= j < i ==> #[trigger] vals@[j] == self.vals@[j],
            decreases self.keys@.len() - i,
        {
            keys.push(self.keys[i].clone());
            vals.push(self.vals[i]);
            i += 1;
        }
        let t = NameTable { keys, vals };
        proof {
            assert(t.key_seq() =~= self.key_seq());
            assert(t.vals@ =~= self.vals@);
            assert(t.view() =~= self.view());
        }
        t
    }
}

} // verus!
