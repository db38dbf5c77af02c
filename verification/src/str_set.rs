//! A set of `String` items, backed by the association map.
//!
//! The registry's owner index keeps, per account, the set of token ids that
//! account owns; the marketplace keeps analogous indexes.  Items are kept in
//! insertion order and exposed both as a mathematical `Set<Seq<char>>` view
//! and, for enumeration, as the ordered member sequence.

use vstd::prelude::*;
use crate::str_map::StrMap;

verus! {

/// A set of strings.
#[derive(Debug)]
pub struct StrSet {
    m: StrMap<()>,
}

impl View for StrSet {
    type V = Set<Seq<char>>;

    closed spec fn view(&self) -> Set<Seq<char>> {
        self.m@.dom()
    }
}

impl StrSet {
    /// The members, in insertion order.
    pub closed spec fn members(&self) -> Seq<String> {
        self.m.kv().map_values(|p: (String, ())| p.0)
    }

    /// The member views are pairwise distinct.
    pub open spec fn wf(&self) -> bool {
        forall|i: int, j: int|
            0 <= i < j < self.members().len() ==> (#[trigger] self.members()[i])@
                != (#[trigger] self.members()[j])@
    }

    /// The member distinctness restated over the backing map's entries.
    proof fn lemma_wf_map(&self)
        requires
            self.wf(),
        ensures
            self.m.wf(),
    {
        assert forall|i: int, j: int| 0 <= i < j < self.m.kv().len() implies (
        #[trigger] self.m.kv()[i]).0@ != (#[trigger] self.m.kv()[j]).0@ by {
            assert(self.members()[i] == self.m.kv()[i].0);
            assert(self.members()[j] == self.m.kv()[j].0);
        }
    }

    /// The backing map's distinctness restated over the members.
    proof fn lemma_wf_members(&self)
        requires
            self.m.wf(),
        ensures
            self.wf(),
    {
        assert forall|i: int, j: int| 0 <= i < j < self.members().len() implies (
        #[trigger] self.members()[i])@ != (#[trigger] self.members()[j])@ by {
            assert(self.members()[i] == self.m.kv()[i].0);
            assert(self.members()[j] == self.m.kv()[j].0);
        }
    }

    /// Facts connecting the member sequence to the set view.
    pub proof fn lemma_props(&self)
        requires
            self.wf(),
        ensures
            self@.finite(),
            self@.len() == self.members().len(),
            forall|i: int|
                0 <= i < self.members().len() ==> self@.contains(
                    (#[trigger] self.members()[i])@,
                ),
            forall|k: Seq<char>|
                #[trigger] self@.contains(k) ==> exists|i: int|
                    0 <= i < self.members().len() && (#[trigger] self.members()[i])@ == k,
    {
        self.lemma_wf_map();
        self.m.lemma_props();
        assert forall|i: int| 0 <= i < self.members().len() implies self@.contains(
            (#[trigger] self.members()[i])@,
        ) by {
            assert(self.members()[i] == self.m.kv()[i].0);
        }
        assert forall|k: Seq<char>| #[trigger] self@.contains(k) implies exists|i: int|
            0 <= i < self.members().len() && (#[trigger] self.members()[i])@ == k by {
            let i = choose|i: int|
                0 <= i < self.m.kv().len() && (#[trigger] self.m.kv()[i]).0@ == k;
            assert(self.members()[i]@ == k);
        }
    }

    /// The empty set.
    pub fn new() -> (r: Self)
        ensures
            r.members() == Seq::<String>::empty(),
            r@ == Set::<Seq<char>>::empty(),
            r.wf(),
    {
        let r = StrSet { m: StrMap::new() };
        proof {
            assert(r.members() =~= Seq::<String>::empty());
            assert(r@ =~= Set::<Seq<char>>::empty());
        }
        r
    }

    /// Whether `k` is a member.
    pub fn contains(&self, k: &String) -> (b: bool)
        ensures
            b == self@.contains(k@),
    {
        self.m.contains_key(k)
    }

    /// Adds `k`; reports whether it was new.
    pub fn insert(&mut self, k: String) -> (added: bool)
        requires
            old(self).wf(),
        ensures
            final(self).wf(),
            final(self)@ == old(self)@.insert(k@),
            added == !old(self)@.contains(k@),
            added ==> final(self).members() == old(self).members().push(k),
            !added ==> *final(self) == *old(self),
    {
        proof {
            self.lemma_wf_map();
        }
        if self.m.contains_key(&k) {
            proof {
                assert(self@ =~= self@.insert(k@));
            }
            false
        } else {
            self.m.insert(k, ());
            proof {
                self.lemma_wf_members();
                assert(self.members() =~= old(self).members().push(k));
                assert(self@ =~= old(self)@.insert(k@));
            }
            true
        }
    }

    /// Deletes `k`; reports whether it was present.
    pub fn remove(&mut self, k: &String) -> (removed: bool)
        requires
            old(self).wf(),
        ensures
            final(self).wf(),
            final(self)@ == old(self)@.remove(k@),
            removed == old(self)@.contains(k@),
            removed ==> exists|j: int|
                0 <= j < old(self).members().len() && (#[trigger] old(self).members()[j])@ == k@
                    && final(self).members() == old(self).members().remove(j),
            !removed ==> *final(self) == *old(self),
    {
        proof {
            self.lemma_wf_map();
        }
        let r = self.m.remove(k);
        proof {
            self.lemma_wf_members();
            if r is Some {
                let j = choose|j: int|
                    0 <= j < old(self).m.kv().len() && (#[trigger] old(self).m.kv()[j]).0@ == k@
                        && self.m.kv() == old(self).m.kv().remove(j);
                assert(old(self).members()[j]@ == k@);
                assert(self.members() =~= old(self).members().remove(j));
            } else {
                assert(self@ =~= self@.remove(k@));
            }
        }
        r.is_some()
    }

    /// The number of members; equals the view's cardinality.
    pub fn len(&self) -> (n: usize)
        ensures
            n == self.members().len(),
            self.wf() ==> n == self@.len(),
    {
        proof {
            if self.wf() {
                self.lemma_wf_map();
                self.lemma_props();
            }
        }
        self.m.len()
    }

    /// Whether the set has no members.
    pub fn is_empty(&self) -> (b: bool)
        ensures
            b == (self.members().len() == 0),
    {
        self.m.is_empty()
    }

    /// The member at position `i`.
    pub fn item(&self, i: usize) -> (r: &String)
        requires
            i < self.members().len(),
        ensures
            *r == self.members()[i as int],
    {
        &self.m.entries()[i].0
    }
}

} // verus!
