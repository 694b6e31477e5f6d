//! The header mapping shared by requests and responses: one value per
//! header name, where setting a name again replaces the earlier value.
use vstd::prelude::*;

use crate::assoc::{assoc_map, lemma_assoc_map_prefix, lemma_assoc_map_push,
    lemma_assoc_map_take_step};

verus! {

broadcast use vstd::std_specs::vec::group_vec_axioms, vstd::seq::group_seq_axioms;

/// A header mapping. Entries keep the order in which they were set;
/// a later entry for the same name wins over an earlier one.
pub struct Headers {
    entries: Vec<(String, String)>,
}

impl View for Headers {
    type V = Seq<(Seq<char>, Seq<char>)>;

    closed spec fn view(&self) -> Seq<(Seq<char>, Seq<char>)> {
        Seq::new(self.entries@.len(), |i: int| (self.entries@[i].0@, self.entries@[i].1@))
    }
}

impl Headers {
    /// The name-to-value mapping these entries stand for.
    pub open spec fn to_map(&self) -> Map<Seq<char>, Seq<char>> {
        assoc_map(self@)
    }

    /// An empty header mapping.
    pub fn new() -> (h: Headers)
        ensures
            h@ == Seq::<(Seq<char>, Seq<char>)>::empty(),
            h.to_map() == Map::<Seq<char>, Seq<char>>::empty(),
    {
        let h = Headers { entries: Vec::new() };
        proof {
            assert(h@ =~= Seq::<(Seq<char>, Seq<char>)>::empty());
        }
        h
    }

    /// The number of stored entries.
    pub fn len(&self) -> (n: usize)
        ensures
            n == self@.len(),
    {
        self.entries.len()
    }

    /// The entry at a position, in insertion order.
    pub fn entry_at(&self, i: usize) -> (e: (String, String))
        requires
            i < self@.len(),
        ensures
            (e.0@, e.1@) == self@[i as int],
    {
        let e = &self.entries[i];
        (e.0.clone(), e.1.clone())
    }

    /// Sets a header: the mapping afterwards holds `value` under `key`
    /// and is unchanged elsewhere.
    pub fn insert(&mut self, key: String, value: String)
        ensures
            final(self)@ == old(self)@.push((key@, value@)),
            final(self).to_map() == old(self).to_map().insert(key@, value@),
    {
        let ghost k: Seq<char> = key@;
        let ghost v: Seq<char> = value@;
        self.entries.push((key, value));
        proof {
            assert(self@ =~= old(self)@.push((k, v)));
            lemma_assoc_map_push(old(self)@, k, v);
        }
    }

    /// Hands the entries out, in insertion order.
    pub fn into_entries(self) -> (v: Vec<(String, String)>)
        ensures
            v@.len() == self@.len(),
            forall|i: int| 0 <= i < v@.len() ==> (v@[i].0@, v@[i].1@) == self@[i],
    {
        self.entries
    }

    /// Looks a header up by name: the latest value set under it, if any.
    pub fn get(&self, key: &String) -> (r: Option<String>)
        ensures
            match r {
                Some(val) => self.to_map().contains_key(key@) && self.to_map()[key@] == val@,
                None => !self.to_map().contains_key(key@),
            },
    {
        let n = self.entries.len();
        let mut i: usize = n;
        while i > 0
            invariant
                i <= n,
                n == self.entries@.len(),
                forall|j: int| i <= j < n ==> self@[j].0 != key@,
            decreases i,
        {
            let idx = i - 1;
            if self.entries[idx].0 == *key {
                proof {
                    lemma_assoc_map_prefix(self@, idx as int + 1, key@);
                    lemma_assoc_map_take_step(self@, idx as int + 1);
                }
                return Some(self.entries[idx].1.clone());
            }
            i = idx;
        }
        proof {
            lemma_assoc_map_prefix(self@, 0, key@);
            assert(self@.take(0) =~= Seq::<(Seq<char>, Seq<char>)>::empty());
        }
        None
    }
}

} // verus!
