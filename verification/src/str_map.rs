//! An association map from `String` keys to values, with unique keys.
//!
//! The registry and the marketplace keep all of their persistent state in
//! maps keyed by account or token identifiers.  This map stores its entries
//! in a vector, keeps the keys pairwise distinct, and is specified against a
//! mathematical `Map<Seq<char>, V>` view; the entry vector itself is exposed
//! through `kv` for the operations that enumerate entries in insertion order.

use vstd::prelude::*;

verus! {

/// The keys of `s` are pairwise distinct.
pub open spec fn distinct_keys<V>(s: Seq<(String, V)>) -> bool {
    forall|i: int, j: int|
        0 <= i < j < s.len() ==> (#[trigger] s[i]).0@ != (#[trigger] s[j]).0@
}

/// The mathematical map an entry sequence denotes (later entries win,
/// which is irrelevant once the keys are distinct).
pub open spec fn map_of<V>(s: Seq<(String, V)>) -> Map<Seq<char>, V>
    decreases s.len(),
{
    if s.len() == 0 {
        Map::empty()
    } else {
        map_of(s.drop_last()).insert(s.last().0@, s.last().1)
    }
}

/// A key is in the denoted map exactly when some entry carries it.
pub proof fn lemma_map_of_contains<V>(s: Seq<(String, V)>, k: Seq<char>)
    ensures
        map_of(s).dom().contains(k) <==> exists|i: int| 0 <= i < s.len() && (#[trigger] s[i]).0@ == k,
    decreases s.len(),
{
    if s.len() > 0 {
        let t = s.drop_last();
        lemma_map_of_contains(t, k);
        if map_of(s).dom().contains(k) {
            if s.last().0@ == k {
                assert(s[s.len() - 1].0@ == k);
            } else {
                let i = choose|i: int| 0 <= i < t.len() && (#[trigger] t[i]).0@ == k;
                assert(s[i].0@ == k);
            }
        }
        if exists|i: int| 0 <= i < s.len() && (#[trigger] s[i]).0@ == k {
            let i = choose|i: int| 0 <= i < s.len() && (#[trigger] s[i]).0@ == k;
            if i < s.len() - 1 {
                assert(t[i].0@ == k);
            }
        }
    }
}

/// Under distinct keys, every entry is mapped to its own value.
pub proof fn lemma_map_of_index<V>(s: Seq<(String, V)>, i: int)
    requires
        distinct_keys(s),
        0 <= i < s.len(),
    ensures
        map_of(s).dom().contains(s[i].0@),
        map_of(s)[s[i].0@] == s[i].1,
    decreases s.len(),
{
    let t = s.drop_last();
    if i < s.len() - 1 {
        assert(distinct_keys(t));
        assert(t[i] == s[i]);
        lemma_map_of_index(t, i);
        assert(s[s.len() - 1].0@ != s[i].0@);
    }
}

/// Under distinct keys, the denoted map has one member per entry.
pub proof fn lemma_map_of_len<V>(s: Seq<(String, V)>)
    requires
        distinct_keys(s),
    ensures
        map_of(s).dom().finite(),
        map_of(s).dom().len() == s.len(),
    decreases s.len(),
{
    if s.len() > 0 {
        let t = s.drop_last();
        assert(distinct_keys(t));
        lemma_map_of_len(t);
        lemma_map_of_contains(t, s.last().0@);
        assert(!map_of(t).dom().contains(s.last().0@));
        assert(map_of(s).dom() =~= map_of(t).dom().insert(s.last().0@));
    }
}

/// Updating the entry at `j` with an equal key updates the denoted map.
pub proof fn lemma_map_of_update<V>(s: Seq<(String, V)>, j: int, p: (String, V))
    requires
        distinct_keys(s),
        0 <= j < s.len(),
        p.0@ == s[j].0@,
    ensures
        distinct_keys(s.update(j, p)),
        map_of(s.update(j, p)) == map_of(s).insert(p.0@, p.1),
    decreases s.len(),
{
    let u = s.update(j, p);
    let t = s.drop_last();
    if j == s.len() - 1 {
        assert(u.drop_last() =~= t);
        assert(map_of(u) == map_of(t).insert(p.0@, p.1));
        assert(map_of(t).insert(s.last().0@, s.last().1).insert(p.0@, p.1) =~= map_of(t).insert(
            p.0@,
            p.1,
        ));
    } else {
        assert(distinct_keys(t));
        assert(t[j] == s[j]);
        lemma_map_of_update(t, j, p);
        assert(u.drop_last() =~= t.update(j, p));
        assert(u.last() == s.last());
        assert(map_of(u) == map_of(t).insert(p.0@, p.1).insert(s.last().0@, s.last().1));
        assert(p.0@ != s.last().0@);
        assert(map_of(t).insert(p.0@, p.1).insert(s.last().0@, s.last().1) =~= map_of(t).insert(
            s.last().0@,
            s.last().1,
        ).insert(p.0@, p.1));
    }
}

/// Deleting the entry at `j` removes its key from the denoted map.
pub proof fn lemma_map_of_remove<V>(s: Seq<(String, V)>, j: int)
    requires
        distinct_keys(s),
        0 <= j < s.len(),
    ensures
        distinct_keys(s.remove(j)),
        map_of(s.remove(j)) == map_of(s).remove(s[j].0@),
    decreases s.len(),
{
    let u = s.remove(j);
    let t = s.drop_last();
    lemma_map_of_contains(t, s.last().0@);
    if j == s.len() - 1 {
        assert(u =~= t);
        assert(!map_of(t).dom().contains(s.last().0@));
        assert(map_of(t).insert(s.last().0@, s.last().1).remove(s.last().0@) =~= map_of(t));
    } else {
        assert(distinct_keys(t));
        assert(t[j] == s[j]);
        lemma_map_of_remove(t, j);
        assert(u.drop_last() =~= t.remove(j));
        assert(u.last() == s.last());
        assert(map_of(u) == map_of(t).remove(s[j].0@).insert(s.last().0@, s.last().1));
        assert(s[j].0@ != s.last().0@);
        assert(map_of(t).remove(s[j].0@).insert(s.last().0@, s.last().1) =~= map_of(t).insert(
            s.last().0@,
            s.last().1,
        ).remove(s[j].0@));
    }
}

/// An association map from `String` keys to values of type `V`.
#[derive(Debug)]
pub struct StrMap<V> {
    entries: Vec<(String, V)>,
}

impl<V> View for StrMap<V> {
    type V = Map<Seq<char>, V>;

    closed spec fn view(&self) -> Map<Seq<char>, V> {
        map_of(self.entries@)
    }
}

impl<V> StrMap<V> {
    /// The entries, in insertion order.
    pub closed spec fn kv(&self) -> Seq<(String, V)> {
        self.entries@
    }

    /// The keys are pairwise distinct.  Every operation preserves this.
    pub open spec fn wf(&self) -> bool {
        distinct_keys(self.kv())
    }

    /// The bundle of facts connecting the entry sequence to the map view.
    pub proof fn lemma_props(&self)
        requires
            self.wf(),
        ensures
            self@.dom().finite(),
            self@.dom().len() == self.kv().len(),
            forall|i: int|
                0 <= i < self.kv().len() ==> self@.dom().contains((#[trigger] self.kv()[i]).0@)
                    && self@[self.kv()[i].0@] == self.kv()[i].1,
            forall|k: Seq<char>|
                #[trigger] self@.dom().contains(k) ==> exists|i: int|
                    0 <= i < self.kv().len() && (#[trigger] self.kv()[i]).0@ == k,
    {
        lemma_map_of_len(self.kv());
        assert forall|i: int| 0 <= i < self.kv().len() implies self@.dom().contains(
            (#[trigger] self.kv()[i]).0@,
        ) && self@[self.kv()[i].0@] == self.kv()[i].1 by {
            lemma_map_of_index(self.kv(), i);
        }
        assert forall|k: Seq<char>| #[trigger] self@.dom().contains(k) implies exists|i: int|
            0 <= i < self.kv().len() && (#[trigger] self.kv()[i]).0@ == k by {
            lemma_map_of_contains(self.kv(), k);
        }
    }

    /// The empty map.
    pub fn new() -> (r: Self)
        ensures
            r.kv() == Seq::<(String, V)>::empty(),
            r@ == Map::<Seq<char>, V>::empty(),
            r.wf(),
    {
        let r = StrMap { entries: Vec::new() };
        proof {
            assert(r.kv() =~= Seq::<(String, V)>::empty());
        }
        r
    }

    /// The position of the entry carrying `k`, if any.
    fn find(&self, k: &String) -> (r: Option<usize>)
        ensures
            match r {
                Some(i) => i < self.kv().len() && self.kv()[i as int].0@ == k@,
                None => forall|j: int| 0 <= j < self.kv().len() ==> (#[trigger] self.kv()[j]).0@
                    != k@,
            },
    {
        let n = self.entries.len();
        let mut i: usize = 0;
        while i < n
            invariant
                i <= n,
                n == self.kv().len(),
                forall|j: int| 0 <= j < i ==> (#[trigger] self.kv()[j]).0@ != k@,
            decreases n - i,
        {
            if self.entries[i].0 == *k {
                return Some(i);
            }
            i += 1;
        }
        None
    }

    /// Whether an entry carries `k`.
    pub fn contains_key(&self, k: &String) -> (b: bool)
        ensures
            b == self@.dom().contains(k@),
    {
        proof {
            lemma_map_of_contains(self.kv(), k@);
        }
        self.find(k).is_some()
    }

    /// The value under `k`, if any.
    pub fn get(&self, k: &String) -> (r: Option<&V>)
        requires
            self.wf(),
        ensures
            match r {
                Some(v) => self@.dom().contains(k@) && *v == self@[k@],
                None => !self@.dom().contains(k@),
            },
    {
        proof {
            lemma_map_of_contains(self.kv(), k@);
        }
        match self.find(k) {
            Some(i) => {
                proof {
                    lemma_map_of_index(self.kv(), i as int);
                }
                Some(&self.entries[i].1)
            },
            None => None,
        }
    }

    /// Binds `k` to `v`, returning the value it replaced, if any.
    pub fn insert(&mut self, k: String, v: V) -> (prev: Option<V>)
        requires
            old(self).wf(),
        ensures
            final(self).wf(),
            final(self)@ == old(self)@.insert(k@, v),
            match prev {
                Some(p) => old(self)@.dom().contains(k@) && p == old(self)@[k@] && exists|j: int|
                    0 <= j < old(self).kv().len() && (#[trigger] old(self).kv()[j]).0@ == k@
                        && final(self).kv() == old(self).kv().update(j, (k, v)),
                None => !old(self)@.dom().contains(k@) && final(self).kv() == old(self).kv().push(
                    (k, v),
                ),
            },
    {
        proof {
            lemma_map_of_contains(self.kv(), k@);
        }
        match self.find(&k) {
            Some(i) => {
                proof {
                    lemma_map_of_index(self.kv(), i as int);
                }
                let ghost s0 = self.kv();
                let (_, old_v) = self.entries.remove(i);
                self.entries.insert(i, (k, v));
                proof {
                    assert(self.kv() =~= s0.update(i as int, (k, v)));
                    lemma_map_of_update(s0, i as int, (k, v));
                }
                Some(old_v)
            },
            None => {
                self.entries.push((k, v));
                proof {
                    assert(self.kv().drop_last() =~= old(self).kv());
                }
                None
            },
        }
    }

    /// Deletes the entry under `k`, returning its value, if any.
    pub fn remove(&mut self, k: &String) -> (prev: Option<V>)
        requires
            old(self).wf(),
        ensures
            final(self).wf(),
            final(self)@ == old(self)@.remove(k@),
            match prev {
                Some(p) => old(self)@.dom().contains(k@) && p == old(self)@[k@] && exists|j: int|
                    0 <= j < old(self).kv().len() && (#[trigger] old(self).kv()[j]).0@ == k@
                        && final(self).kv() == old(self).kv().remove(j),
                None => !old(self)@.dom().contains(k@) && *final(self) == *old(self),
            },
    {
        proof {
            lemma_map_of_contains(self.kv(), k@);
        }
        match self.find(k) {
            Some(i) => {
                proof {
                    lemma_map_of_index(self.kv(), i as int);
                    lemma_map_of_remove(self.kv(), i as int);
                }
                let (_, old_v) = self.entries.remove(i);
                Some(old_v)
            },
            None => {
                proof {
                    assert(self@ =~= self@.remove(k@));
                }
                None
            },
        }
    }

    /// The number of entries; equals the view's cardinality.
    pub fn len(&self) -> (n: usize)
        ensures
            n == self.kv().len(),
            self.wf() ==> n == self@.dom().len(),
    {
        proof {
            if self.wf() {
                lemma_map_of_len(self.kv());
            }
        }
        self.entries.len()
    }

    /// Whether the map has no entries.
    pub fn is_empty(&self) -> (b: bool)
        ensures
            b == (self.kv().len() == 0),
    {
        self.entries.len() == 0
    }

    /// Read access to the entries, in insertion order.
    pub fn entries(&self) -> (r: &Vec<(String, V)>)
        ensures
            r@ == self.kv(),
    {
        &self.entries
    }
}

impl<V: Copy> StrMap<V> {
    /// An entry-for-entry copy.
    pub fn duplicate(&self) -> (r: Self)
        ensures
            r.kv() == self.kv(),
            r@ == self@,
            r.wf() == self.wf(),
    {
        let n = self.entries.len();
        let mut out: Vec<(String, V)> = Vec::new();
        let mut i: usize = 0;
        while i < n
            invariant
                i <= n,
                n == self.kv().len(),
                out@ == self.kv().subrange(0, i as int),
            decreases n - i,
        {
            let key = self.entries[i].0.clone();
            let val = self.entries[i].1;
            out.push((key, val));
            proof {
                assert(out@ =~= self.kv().subrange(0, i + 1 as int));
            }
            i += 1;
        }
        proof {
            assert(out@ =~= self.kv());
        }
        StrMap { entries: out }
    }
}

} // verus!
