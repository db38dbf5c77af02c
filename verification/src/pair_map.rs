//! An association map keyed by a pair of `String`s, with unique keys.
//!
//! The marketplace keys each sale by the pair of the token's origin registry
//! and the token id, so that tokens from independent registries never
//! collide.  The structure mirrors the string-keyed map: entries in a
//! vector, pairwise distinct keys, and a `Map<(Seq<char>, Seq<char>), V>`
//! view.

use vstd::prelude::*;

verus! {

/// The mathematical key a pair of strings denotes.
pub open spec fn pair_view(k: (String, String)) -> (Seq<char>, Seq<char>) {
    (k.0@, k.1@)
}

/// The keys of `s` are pairwise distinct.
pub open spec fn distinct_pair_keys<V>(s: Seq<((String, String), V)>) -> bool {
    forall|i: int, j: int|
        0 <= i < j < s.len() ==> pair_view((#[trigger] s[i]).0) != pair_view((#[trigger] s[j]).0)
}

/// The mathematical map an entry sequence denotes.
pub open spec fn pair_map_of<V>(s: Seq<((String, String), V)>) -> Map<(Seq<char>, Seq<char>), V>
    decreases s.len(),
{
    if s.len() == 0 {
        Map::empty()
    } else {
        pair_map_of(s.drop_last()).insert(pair_view(s.last().0), s.last().1)
    }
}

/// A key is in the denoted map exactly when some entry carries it.
pub proof fn lemma_pair_map_of_contains<V>(s: Seq<((String, String), V)>, k: (Seq<char>, Seq<char>))
    ensures
        pair_map_of(s).dom().contains(k) <==> exists|i: int|
            0 <= i < s.len() && pair_view((#[trigger] s[i]).0) == k,
    decreases s.len(),
{
    if s.len() > 0 {
        let t = s.drop_last();
        lemma_pair_map_of_contains(t, k);
        if pair_map_of(s).dom().contains(k) {
            if pair_view(s.last().0) == k {
                assert(pair_view(s[s.len() - 1].0) == k);
            } else {
                let i = choose|i: int| 0 <= i < t.len() && pair_view((#[trigger] t[i]).0) == k;
                assert(pair_view(s[i].0) == k);
            }
        }
        if exists|i: int| 0 <= i < s.len() && pair_view((#[trigger] s[i]).0) == k {
            let i = choose|i: int| 0 <= i < s.len() && pair_view((#[trigger] s[i]).0) == k;
            if i < s.len() - 1 {
                assert(pair_view(t[i].0) == k);
            }
        }
    }
}

/// Under distinct keys, every entry is mapped to its own value.
pub proof fn lemma_pair_map_of_index<V>(s: Seq<((String, String), V)>, i: int)
    requires
        distinct_pair_keys(s),
        0 <= i < s.len(),
    ensures
        pair_map_of(s).dom().contains(pair_view(s[i].0)),
        pair_map_of(s)[pair_view(s[i].0)] == s[i].1,
    decreases s.len(),
{
    let t = s.drop_last();
    if i < s.len() - 1 {
        assert(distinct_pair_keys(t));
        assert(t[i] == s[i]);
        lemma_pair_map_of_index(t, i);
        assert(pair_view(s[s.len() - 1].0) != pair_view(s[i].0));
    }
}

/// Under distinct keys, the denoted map has one member per entry.
pub proof fn lemma_pair_map_of_len<V>(s: Seq<((String, String), V)>)
    requires
        distinct_pair_keys(s),
    ensures
        pair_map_of(s).dom().finite(),
        pair_map_of(s).dom().len() == s.len(),
    decreases s.len(),
{
    if s.len() > 0 {
        let t = s.drop_last();
        assert(distinct_pair_keys(t));
        lemma_pair_map_of_len(t);
        lemma_pair_map_of_contains(t, pair_view(s.last().0));
        assert(!pair_map_of(t).dom().contains(pair_view(s.last().0)));
        assert(pair_map_of(s).dom() =~= pair_map_of(t).dom().insert(pair_view(s.last().0)));
    }
}

/// Updating the entry at `j` with an equal key updates the denoted map.
pub proof fn lemma_pair_map_of_update<V>(
    s: Seq<((String, String), V)>,
    j: int,
    p: ((String, String), V),
)
    requires
        distinct_pair_keys(s),
        0 <= j < s.len(),
        pair_view(p.0) == pair_view(s[j].0),
    ensures
        distinct_pair_keys(s.update(j, p)),
        pair_map_of(s.update(j, p)) == pair_map_of(s).insert(pair_view(p.0), p.1),
    decreases s.len(),
{
    let u = s.update(j, p);
    let t = s.drop_last();
    if j == s.len() - 1 {
        assert(u.drop_last() =~= t);
        assert(pair_map_of(u) == pair_map_of(t).insert(pair_view(p.0), p.1));
        assert(pair_map_of(t).insert(pair_view(s.last().0), s.last().1).insert(
            pair_view(p.0),
            p.1,
        ) =~= pair_map_of(t).insert(pair_view(p.0), p.1));
    } else {
        assert(distinct_pair_keys(t));
        assert(t[j] == s[j]);
        lemma_pair_map_of_update(t, j, p);
        assert(u.drop_last() =~= t.update(j, p));
        assert(u.last() == s.last());
        assert(pair_map_of(u) == pair_map_of(t).insert(pair_view(p.0), p.1).insert(
            pair_view(s.last().0),
            s.last().1,
        ));
        assert(pair_view(p.0) != pair_view(s.last().0));
        assert(pair_map_of(t).insert(pair_view(p.0), p.1).insert(pair_view(s.last().0), s.last().1)
            =~= pair_map_of(t).insert(pair_view(s.last().0), s.last().1).insert(
            pair_view(p.0),
            p.1,
        ));
    }
}

/// Deleting the entry at `j` removes its key from the denoted map.
pub proof fn lemma_pair_map_of_remove<V>(s: Seq<((String, String), V)>, j: int)
    requires
        distinct_pair_keys(s),
        0 <= j < s.len(),
    ensures
        distinct_pair_keys(s.remove(j)),
        pair_map_of(s.remove(j)) == pair_map_of(s).remove(pair_view(s[j].0)),
    decreases s.len(),
{
    let u = s.remove(j);
    let t = s.drop_last();
    lemma_pair_map_of_contains(t, pair_view(s.last().0));
    if j == s.len() - 1 {
        assert(u =~= t);
        assert(!pair_map_of(t).dom().contains(pair_view(s.last().0)));
        assert(pair_map_of(t).insert(pair_view(s.last().0), s.last().1).remove(
            pair_view(s.last().0),
        ) =~= pair_map_of(t));
    } else {
        assert(distinct_pair_keys(t));
        assert(t[j] == s[j]);
        lemma_pair_map_of_remove(t, j);
        assert(u.drop_last() =~= t.remove(j));
        assert(u.last() == s.last());
        assert(pair_map_of(u) == pair_map_of(t).remove(pair_view(s[j].0)).insert(
            pair_view(s.last().0),
            s.last().1,
        ));
        assert(pair_view(s[j].0) != pair_view(s.last().0));
        assert(pair_map_of(t).remove(pair_view(s[j].0)).insert(pair_view(s.last().0), s.last().1)
            =~= pair_map_of(t).insert(pair_view(s.last().0), s.last().1).remove(
            pair_view(s[j].0),
        ));
    }
}

/// An association map from pairs of strings to values of type `V`.
#[derive(Debug)]
pub struct PairMap<V> {
    entries: Vec<((String, String), V)>,
}

impl<V> View for PairMap<V> {
    type V = Map<(Seq<char>, Seq<char>), V>;

    closed spec fn view(&self) -> Map<(Seq<char>, Seq<char>), V> {
        pair_map_of(self.entries@)
    }
}

impl<V> PairMap<V> {
    /// The entries, in insertion order.
    pub closed spec fn kv(&self) -> Seq<((String, String), V)> {
        self.entries@
    }

    /// The keys are pairwise distinct.  Every operation preserves this.
    pub open spec fn wf(&self) -> bool {
        distinct_pair_keys(self.kv())
    }

    /// The bundle of facts connecting the entry sequence to the map view.
    pub proof fn lemma_props(&self)
        requires
            self.wf(),
        ensures
            self@.dom().finite(),
            self@.dom().len() == self.kv().len(),
            forall|i: int|
                0 <= i < self.kv().len() ==> self@.dom().contains(
                    pair_view((#[trigger] self.kv()[i]).0),
                ) && self@[pair_view(self.kv()[i].0)] == self.kv()[i].1,
            forall|k: (Seq<char>, Seq<char>)|
                #[trigger] self@.dom().contains(k) ==> exists|i: int|
                    0 <= i < self.kv().len() && pair_view((#[trigger] self.kv()[i]).0) == k,
    {
        lemma_pair_map_of_len(self.kv());
        assert forall|i: int| 0 <= i < self.kv().len() implies self@.dom().contains(
            pair_view((#[trigger] self.kv()[i]).0),
        ) && self@[pair_view(self.kv()[i].0)] == self.kv()[i].1 by {
            lemma_pair_map_of_index(self.kv(), i);
        }
        assert forall|k: (Seq<char>, Seq<char>)| #[trigger] self@.dom().contains(k) implies exists|
            i: int,
        | 0 <= i < self.kv().len() && pair_view((#[trigger] self.kv()[i]).0) == k by {
            lemma_pair_map_of_contains(self.kv(), k);
        }
    }

    /// The empty map.
    pub fn new() -> (r: Self)
        ensures
            r.kv() == Seq::<((String, String), V)>::empty(),
            r@ == Map::<(Seq<char>, Seq<char>), V>::empty(),
            r.wf(),
    {
        let r = PairMap { entries: Vec::new() };
        proof {
            assert(r.kv() =~= Seq::<((String, String), V)>::empty());
        }
        r
    }

    /// The position of the entry carrying `k`, if any.
    fn find(&self, k0: &String, k1: &String) -> (r: Option<usize>)
        ensures
            match r {
                Some(i) => i < self.kv().len() && pair_view(self.kv()[i as int].0) == (k0@, k1@),
                None => forall|j: int|
                    0 <= j < self.kv().len() ==> pair_view((#[trigger] self.kv()[j]).0) != (
                    k0@,
                    k1@,
                ),
            },
    {
        let n = self.entries.len();
        let mut i: usize = 0;
        while i < n
            invariant
                i <= n,
                n == self.kv().len(),
                forall|j: int| 0 <= j < i ==> pair_view((#[trigger] self.kv()[j]).0) != (k0@, k1@),
            decreases n - i,
        {
            if self.entries[i].0.0 == *k0 && self.entries[i].0.1 == *k1 {
                return Some(i);
            }
            i += 1;
        }
        None
    }

    /// Whether an entry carries `(k0, k1)`.
    pub fn contains_key(&self, k0: &String, k1: &String) -> (b: bool)
        ensures
            b == self@.dom().contains((k0@, k1@)),
    {
        proof {
            lemma_pair_map_of_contains(self.kv(), (k0@, k1@));
        }
        self.find(k0, k1).is_some()
    }

    /// The value under `(k0, k1)`, if any.
    pub fn get(&self, k0: &String, k1: &String) -> (r: Option<&V>)
        requires
            self.wf(),
        ensures
            match r {
                Some(v) => self@.dom().contains((k0@, k1@)) && *v == self@[(k0@, k1@)],
                None => !self@.dom().contains((k0@, k1@)),
            },
    {
        proof {
            lemma_pair_map_of_contains(self.kv(), (k0@, k1@));
        }
        match self.find(k0, k1) {
            Some(i) => {
                proof {
                    lemma_pair_map_of_index(self.kv(), i as int);
                }
                Some(&self.entries[i].1)
            },
            None => None,
        }
    }

    /// Binds `(k0, k1)` to `v`, returning the value it replaced, if any.
    pub fn insert(&mut self, k0: String, k1: String, v: V) -> (prev: Option<V>)
        requires
            old(self).wf(),
        ensures
            final(self).wf(),
            final(self)@ == old(self)@.insert((k0@, k1@), v),
            match prev {
                Some(p) => old(self)@.dom().contains((k0@, k1@)) && p == old(self)@[(k0@, k1@)]
                    && exists|j: int|
                    0 <= j < old(self).kv().len() && pair_view((#[trigger] old(self).kv()[j]).0)
                        == (k0@, k1@) && final(self).kv() == old(self).kv().update(
                        j,
                        ((k0, k1), v),
                    ),
                None => !old(self)@.dom().contains((k0@, k1@)) && final(self).kv() == old(
                    self,
                ).kv().push(((k0, k1), v)),
            },
    {
        proof {
            lemma_pair_map_of_contains(self.kv(), (k0@, k1@));
        }
        match self.find(&k0, &k1) {
            Some(i) => {
                proof {
                    lemma_pair_map_of_index(self.kv(), i as int);
                }
                let ghost s0 = self.kv();
                let (_, old_v) = self.entries.remove(i);
                self.entries.insert(i, ((k0, k1), v));
                proof {
                    assert(self.kv() =~= s0.update(i as int, ((k0, k1), v)));
                    lemma_pair_map_of_update(s0, i as int, ((k0, k1), v));
                }
                Some(old_v)
            },
            None => {
                self.entries.push(((k0, k1), v));
                proof {
                    assert(self.kv().drop_last() =~= old(self).kv());
                }
                None
            },
        }
    }

    /// Deletes the entry under `(k0, k1)`, returning its value, if any.
    pub fn remove(&mut self, k0: &String, k1: &String) -> (prev: Option<V>)
        requires
            old(self).wf(),
        ensures
            final(self).wf(),
            final(self)@ == old(self)@.remove((k0@, k1@)),
            match prev {
                Some(p) => old(self)@.dom().contains((k0@, k1@)) && p == old(self)@[(k0@, k1@)]
                    && exists|j: int|
                    0 <= j < old(self).kv().len() && pair_view((#[trigger] old(self).kv()[j]).0)
                        == (k0@, k1@) && final(self).kv() == old(self).kv().remove(j),
                None => !old(self)@.dom().contains((k0@, k1@)) && *final(self) == *old(self),
            },
    {
        proof {
            lemma_pair_map_of_contains(self.kv(), (k0@, k1@));
        }
        match self.find(k0, k1) {
            Some(i) => {
                proof {
                    lemma_pair_map_of_index(self.kv(), i as int);
                    lemma_pair_map_of_remove(self.kv(), i as int);
                }
                let (_, old_v) = self.entries.remove(i);
                Some(old_v)
            },
            None => {
                proof {
                    assert(self@ =~= self@.remove((k0@, k1@)));
                }
                None
            },
        }
    }

    /// The number of entries; equals the view's cardinality.
    pub fn len(&self) -> (n: usize)
        ensures
            n == self.kv().len(),
            self.wf() ==> n == self@.dom().len(),
    {
        proof {
            if self.wf() {
                lemma_pair_map_of_len(self.kv());
            }
        }
        self.entries.len()
    }

    /// Read access to the entries, in insertion order.
    pub fn entries(&self) -> (r: &Vec<((String, String), V)>)
        ensures
            r@ == self.kv(),
    {
        &self.entries
    }
}

} // verus!
