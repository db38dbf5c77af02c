//! A set of `(String, String)` pairs, backed by the pair-keyed map.
//!
//! The marketplace's owner index keeps, per account, the set of sale keys
//! (origin registry, token id) that account has listed.

use vstd::prelude::*;
use crate::pair_map::PairMap;
use crate::pair_map::pair_view;

verus! {

/// A set of string pairs.
#[derive(Debug)]
pub struct PairSet {
    m: PairMap<()>,
}

impl View for PairSet {
    type V = Set<(Seq<char>, Seq<char>)>;

    closed spec fn view(&self) -> Set<(Seq<char>, Seq<char>)> {
        self.m@.dom()
    }
}

impl PairSet {
    /// The members, in insertion order.
    pub closed spec fn members(&self) -> Seq<(String, String)> {
        self.m.kv().map_values(|p: ((String, String), ())| p.0)
    }

    /// The member views are pairwise distinct.
    pub open spec fn wf(&self) -> bool {
        forall|i: int, j: int|
            0 <= i < j < self.members().len() ==> pair_view(#[trigger] self.members()[i])
                != pair_view(#[trigger] self.members()[j])
    }

    /// The member distinctness restated over the backing map's entries.
    proof fn lemma_wf_map(&self)
        requires
            self.wf(),
        ensures
            self.m.wf(),
    {
        assert forall|i: int, j: int| 0 <= i < j < self.m.kv().len() implies pair_view(
            (#[trigger] self.m.kv()[i]).0,
        ) != pair_view((#[trigger] self.m.kv()[j]).0) by {
            assert(self.members()[i] == self.m.kv()[i].0);
            assert(self.members()[j] == self.m.kv()[j].0);
        }
    }

    /// The backing map's distinctness restated over the members.
    proof fn lemma_wf_members(&self)
        requires
            self.m.wf(),
        ensures
            self.wf(),
    {
        assert forall|i: int, j: int| 0 <= i < j < self.members().len() implies pair_view(
            #[trigger] self.members()[i],
        ) != pair_view(#[trigger] self.members()[j]) by {
            assert(self.members()[i] == self.m.kv()[i].0);
            assert(self.members()[j] == self.m.kv()[j].0);
        }
    }

    /// Facts connecting the member sequence to the set view.
    pub proof fn lemma_props(&self)
        requires
            self.wf(),
        ensures
            self@.finite(),
            self@.len() == self.members().len(),
            forall|i: int|
                0 <= i < self.members().len() ==> self@.contains(
                    pair_view(#[trigger] self.members()[i]),
                ),
            forall|k: (Seq<char>, Seq<char>)|
                #[trigger] self@.contains(k) ==> exists|i: int|
                    0 <= i < self.members().len() && pair_view(#[trigger] self.members()[i]) == k,
    {
        self.lemma_wf_map();
        self.m.lemma_props();
        assert forall|i: int| 0 <= i < self.members().len() implies self@.contains(
            pair_view(#[trigger] self.members()[i]),
        ) by {
            assert(self.members()[i] == self.m.kv()[i].0);
        }
        assert forall|k: (Seq<char>, Seq<char>)| #[trigger] self@.contains(k) implies exists|i: int|
            0 <= i < self.members().len() && pair_view(#[trigger] self.members()[i]) == k by {
            let i = choose|i: int|
                0 <= i < self.m.kv().len() && pair_view((#[trigger] self.m.kv()[i]).0) == k;
            assert(pair_view(self.members()[i]) == k);
        }
    }

    /// The empty set.
    pub fn new() -> (r: Self)
        ensures
            r.members() == Seq::<(String, String)>::empty(),
            r@ == Set::<(Seq<char>, Seq<char>)>::empty(),
            r.wf(),
    {
        let r = PairSet { m: PairMap::new() };
        proof {
            assert(r.members() =~= Seq::<(String, String)>::empty());
            assert(r@ =~= Set::<(Seq<char>, Seq<char>)>::empty());
        }
        r
    }

    /// Whether `(k0, k1)` is a member.
    pub fn contains(&self, k0: &String, k1: &String) -> (b: bool)
        ensures
            b == self@.contains((k0@, k1@)),
    {
        self.m.contains_key(k0, k1)
    }

    /// Adds `(k0, k1)`; reports whether it was new.
    pub fn insert(&mut self, k0: String, k1: String) -> (added: bool)
        requires
            old(self).wf(),
        ensures
            final(self).wf(),
            final(self)@ == old(self)@.insert((k0@, k1@)),
            added == !old(self)@.contains((k0@, k1@)),
            added ==> final(self).members() == old(self).members().push((k0, k1)),
            !added ==> *final(self) == *old(self),
    {
        proof {
            self.lemma_wf_map();
        }
        if self.m.contains_key(&k0, &k1) {
            proof {
                assert(self@ =~= self@.insert((k0@, k1@)));
            }
            false
        } else {
            self.m.insert(k0, k1, ());
            proof {
                self.lemma_wf_members();
                assert(self.members() =~= old(self).members().push((k0, k1)));
                assert(self@ =~= old(self)@.insert((k0@, k1@)));
            }
            true
        }
    }

    /// Deletes `(k0, k1)`; reports whether it was present.
    pub fn remove(&mut self, k0: &String, k1: &String) -> (removed: bool)
        requires
            old(self).wf(),
        ensures
            final(self).wf(),
            final(self)@ == old(self)@.remove((k0@, k1@)),
            removed == old(self)@.contains((k0@, k1@)),
            removed ==> exists|j: int|
                0 <= j < old(self).members().len() && pair_view(
                    #[trigger] old(self).members()[j],
                ) == (k0@, k1@) && final(self).members() == old(self).members().remove(j),
            !removed ==> *final(self) == *old(self),
    {
        proof {
            self.lemma_wf_map();
        }
        let r = self.m.remove(k0, k1);
        proof {
            self.lemma_wf_members();
            if r is Some {
                let j = choose|j: int|
                    0 <= j < old(self).m.kv().len() && pair_view(
                        (#[trigger] old(self).m.kv()[j]).0,
                    ) == (k0@, k1@) && self.m.kv() == old(self).m.kv().remove(j);
                assert(pair_view(old(self).members()[j]) == (k0@, k1@));
                assert(self.members() =~= old(self).members().remove(j));
            } else {
                assert(self@ =~= self@.remove((k0@, k1@)));
            }
        }
        r.is_some()
    }

    /// The number of members; equals the view's cardinality.
    pub fn len(&self) -> (n: usize)
        ensures
            n == self.members().len(),
            self.wf() ==> n == self@.len(),
    {
        proof {
            if self.wf() {
                self.lemma_wf_map();
                self.lemma_props();
            }
        }
        self.m.len()
    }

    /// Whether the set has no members.
    pub fn is_empty(&self) -> (b: bool)
        ensures
            b == (self.members().len() == 0),
    {
        self.m.len() == 0
    }

    /// The member at position `i`.
    pub fn item(&self, i: usize) -> (r: &(String, String))
        requires
            i < self.members().len(),
        ensures
            *r == self.members()[i as int],
    {
        &self.m.entries()[i].0
    }
}

} // verus!
