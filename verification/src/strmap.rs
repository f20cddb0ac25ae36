//! A string-keyed association map backed by a vector.
//!
//! The dependency indices need maps with `String` keys whose contents can be
//! reasoned about as mathematical `Map`s, so the container keeps its entries
//! in a vector with pairwise-distinct keys and exposes a `Map` view from key
//! characters to the deep view of the stored value.

use vstd::prelude::*;

verus! {

pub struct StrMap<V> {
    entries: Vec<(String, V)>,
}

impl<V: DeepView> StrMap<V> {
    /// Structural well-formedness: keys are pairwise distinct.
    pub closed spec fn wf(self) -> bool {
        forall|i: int, j: int|
            0 <= i < j < self.entries@.len() ==> self.entries@[i].0@ != self.entries@[j].0@
    }

    spec fn has_key_at(s: Seq<(String, V)>, k: Seq<char>, i: int) -> bool {
        0 <= i < s.len() && s[i].0@ == k
    }

    spec fn seq_map(s: Seq<(String, V)>) -> Map<Seq<char>, V::V>
        decreases s.len(),
    {
        if s.len() == 0 {
            Map::empty()
        } else {
            Self::seq_map(s.drop_last()).insert(s.last().0@, s.last().1.deep_view())
        }
    }

    proof fn lemma_seq_map_dom(s: Seq<(String, V)>)
        ensures
            forall|k: Seq<char>|
                #[trigger] Self::seq_map(s).dom().contains(k) <==> (exists|i: int|
                    Self::has_key_at(s, k, i)),
        decreases s.len(),
    {
        if s.len() > 0 {
            Self::lemma_seq_map_dom(s.drop_last());
            assert(Self::seq_map(s) == Self::seq_map(s.drop_last()).insert(
                s.last().0@,
                s.last().1.deep_view(),
            ));
            assert forall|k: Seq<char>| #[trigger]
                Self::seq_map(s).dom().contains(k) implies (exists|i: int|
                Self::has_key_at(s, k, i)) by {
                if k == s.last().0@ {
                    assert(Self::has_key_at(s, k, s.len() - 1));
                } else {
                    assert(Self::seq_map(s.drop_last()).dom().contains(k));
                    let i = choose|i: int| Self::has_key_at(s.drop_last(), k, i);
                    assert(Self::has_key_at(s, k, i));
                }
            }
            assert forall|k: Seq<char>| (exists|i: int|
                Self::has_key_at(s, k, i)) implies #[trigger]
                Self::seq_map(s).dom().contains(k) by {
                let i = choose|i: int| Self::has_key_at(s, k, i);
                if i < s.len() - 1 {
                    assert(Self::has_key_at(s.drop_last(), k, i));
                }
            }
        }
    }

    proof fn lemma_seq_map_get(s: Seq<(String, V)>, i: int)
        requires
            0 <= i < s.len(),
            forall|j: int| i < j < s.len() ==> s[j].0@ != s[i].0@,
        ensures
            Self::seq_map(s).dom().contains(s[i].0@),
            Self::seq_map(s)[s[i].0@] == s[i].1.deep_view(),
        decreases s.len(),
    {
        Self::lemma_seq_map_dom(s);
        assert(Self::has_key_at(s, s[i].0@, i));
        if i < s.len() - 1 {
            assert(forall|j: int|
                i < j < s.drop_last().len() ==> s.drop_last()[j].0@ != s.drop_last()[i].0@);
            Self::lemma_seq_map_get(s.drop_last(), i);
            assert(s[i].0@ != s.last().0@);
        }
    }

    proof fn lemma_seq_map_remove(s: Seq<(String, V)>, i: int)
        requires
            0 <= i < s.len(),
            forall|p: int, q: int| 0 <= p < q < s.len() ==> s[p].0@ != s[q].0@,
        ensures
            Self::seq_map(s.remove(i)) == Self::seq_map(s).remove(s[i].0@),
        decreases s.len(),
    {
        Self::lemma_seq_map_dom(s.remove(i));
        Self::lemma_seq_map_dom(s);
        if i == s.len() - 1 {
            assert(s.remove(i) =~= s.drop_last());
            assert forall|k: Seq<char>| #[trigger]
                Self::seq_map(s.drop_last()).dom().contains(k) implies k != s[i].0@ by {
                let j = choose|j: int| Self::has_key_at(s.drop_last(), k, j);
                assert(s[j].0@ == k);
            }
            assert(Self::seq_map(s.drop_last()) =~= Self::seq_map(s).remove(s[i].0@));
        } else {
            Self::lemma_seq_map_remove(s.drop_last(), i);
            assert(s.remove(i).drop_last() =~= s.drop_last().remove(i));
            assert(s.remove(i).last() == s.last());
            assert(Self::seq_map(s.remove(i)) == Self::seq_map(s.drop_last().remove(i)).insert(
                s.last().0@,
                s.last().1.deep_view(),
            ));
            assert(s[i].0@ != s.last().0@);
            assert(Self::seq_map(s.drop_last()).remove(s[i].0@).insert(
                s.last().0@,
                s.last().1.deep_view(),
            ) =~= Self::seq_map(s).remove(s[i].0@));
        }
    }

    pub fn new() -> (r: Self)
        ensures
            r.wf(),
            r@ == Map::<Seq<char>, V::V>::empty(),
    {
        StrMap { entries: Vec::new() }
    }

    proof fn lemma_len(s: Seq<(String, V)>)
        requires
            forall|p: int, q: int| 0 <= p < q < s.len() ==> s[p].0@ != s[q].0@,
        ensures
            Self::seq_map(s).dom().finite(),
            Self::seq_map(s).dom().len() == s.len(),
        decreases s.len(),
    {
        if s.len() > 0 {
            Self::lemma_len(s.drop_last());
            Self::lemma_seq_map_dom(s.drop_last());
            assert forall|k: Seq<char>| #[trigger]
                Self::seq_map(s.drop_last()).dom().contains(k) implies k != s.last().0@ by {
                let j = choose|j: int| Self::has_key_at(s.drop_last(), k, j);
                assert(s[j].0@ == k);
            }
            assert(Self::seq_map(s).dom() =~= Self::seq_map(s.drop_last()).dom().insert(
                s.last().0@,
            ));
        }
    }

    pub fn len(&self) -> (r: usize)
        requires
            self.wf(),
        ensures
            r == self@.dom().len(),
            self@.dom().finite(),
    {
        proof {
            Self::lemma_len(self.entries@);
        }
        self.entries.len()
    }

    pub fn contains_key(&self, k: &String) -> (r: bool)
        ensures
            r == self@.dom().contains(k@),
    {
        let mut i: usize = 0;
        while i < self.entries.len()
            invariant
                i <= self.entries@.len(),
                forall|j: int| 0 <= j < i ==> self.entries@[j].0@ != k@,
            decreases self.entries@.len() - i,
        {
            if self.entries[i].0 == *k {
                proof {
                    Self::lemma_seq_map_dom(self.entries@);
                    assert(Self::has_key_at(self.entries@, k@, i as int));
                }
                return true;
            }
            i += 1;
        }
        proof {
            Self::lemma_seq_map_dom(self.entries@);
            assert forall|j: int| !Self::has_key_at(self.entries@, k@, j) by {}
        }
        false
    }

    pub fn get(&self, k: &String) -> (r: Option<&V>)
        requires
            self.wf(),
        ensures
            match r {
                Some(v) => self@.dom().contains(k@) && v.deep_view() == self@[k@],
                None => !self@.dom().contains(k@),
            },
    {
        let mut i: usize = 0;
        while i < self.entries.len()
            invariant
                self.wf(),
                i <= self.entries@.len(),
                forall|j: int| 0 <= j < i ==> self.entries@[j].0@ != k@,
            decreases self.entries@.len() - i,
        {
            if self.entries[i].0 == *k {
                proof {
                    Self::lemma_seq_map_get(self.entries@, i as int);
                }
                return Some(&self.entries[i].1);
            }
            i += 1;
        }
        proof {
            Self::lemma_seq_map_dom(self.entries@);
            assert forall|j: int| !Self::has_key_at(self.entries@, k@, j) by {}
        }
        None
    }

    /// Inserts an entry whose key is not yet present.
    pub fn insert_new(&mut self, k: String, v: V)
        requires
            old(self).wf(),
            !old(self)@.dom().contains(k@),
        ensures
            final(self).wf(),
            final(self)@ == old(self)@.insert(k@, v.deep_view()),
    {
        proof {
            Self::lemma_seq_map_dom(self.entries@);
        }
        let ghost s0 = self.entries@;
        self.entries.push((k, v));
        proof {
            assert(self.entries@.drop_last() =~= s0);
            assert forall|i: int, j: int|
                0 <= i < j < self.entries@.len() implies self.entries@[i].0@
                != self.entries@[j].0@ by {
                if j == self.entries@.len() - 1 {
                    assert(!Self::has_key_at(s0, self.entries@[j].0@, i));
                }
            }
        }
    }

    /// Removes the entry with the given key, if present.
    pub fn remove(&mut self, k: &String) -> (r: Option<V>)
        requires
            old(self).wf(),
        ensures
            final(self).wf(),
            match r {
                Some(v) => old(self)@.dom().contains(k@) && v.deep_view() == old(self)@[k@]
                    && final(self)@ == old(self)@.remove(k@),
                None => !old(self)@.dom().contains(k@) && final(self)@ == old(self)@,
            },
    {
        let ghost s0 = self.entries@;
        let mut i: usize = 0;
        while i < self.entries.len()
            invariant
                self.entries@ == s0,
                old(self).entries@ == s0,
                old(self).wf(),
                self.wf(),
                i <= s0.len(),
                forall|j: int| 0 <= j < i ==> s0[j].0@ != k@,
            decreases s0.len() - i,
        {
            if self.entries[i].0 == *k {
                proof {
                    Self::lemma_seq_map_get(s0, i as int);
                    Self::lemma_seq_map_remove(s0, i as int);
                }
                let e = self.entries.remove(i);
                proof {
                    assert forall|p: int, q: int|
                        0 <= p < q < self.entries@.len() implies self.entries@[p].0@
                        != self.entries@[q].0@ by {
                        let p0: int = if p < i as int { p } else { p + 1 };
                        let q0: int = if q < i as int { q } else { q + 1 };
                        assert(s0[p0].0@ != s0[q0].0@);
                    }
                }
                return Some(e.1);
            }
            i += 1;
        }
        proof {
            Self::lemma_seq_map_dom(s0);
            assert forall|j: int| !Self::has_key_at(s0, k@, j) by {}
        }
        None
    }

    /// Inserts an entry, replacing any entry with the same key.
    pub fn set(&mut self, k: String, v: V)
        requires
            old(self).wf(),
        ensures
            final(self).wf(),
            final(self)@ == old(self)@.insert(k@, v.deep_view()),
    {
        let _ = self.remove(&k);
        self.insert_new(k, v);
        proof {
            assert(self@ =~= old(self)@.insert(k@, v.deep_view()));
        }
    }

    /// The keys currently present, in storage order, pairwise distinct.
    pub fn keys(&self) -> (r: Vec<String>)
        requires
            self.wf(),
        ensures
            forall|p: int, q: int|
                0 <= p < q < r.deep_view().len() ==> r.deep_view()[p] != r.deep_view()[q],
            forall|k: Seq<char>| #[trigger] r.deep_view().contains(k) <==> self@.dom().contains(k),
    {
        let mut res: Vec<String> = Vec::new();
        let mut i: usize = 0;
        while i < self.entries.len()
            invariant
                self.wf(),
                i <= self.entries@.len(),
                res.deep_view().len() == i,
                forall|j: int| 0 <= j < i ==> res.deep_view()[j] == self.entries@[j].0@,
            decreases self.entries@.len() - i,
        {
            let ghost prev = res.deep_view();
            res.push(self.entries[i].0.clone());
            proof {
                assert(res.deep_view() =~= prev.push(self.entries@[i as int].0@));
            }
            i += 1;
        }
        proof {
            Self::lemma_seq_map_dom(self.entries@);
            assert forall|k: Seq<char>| #[trigger]
                res.deep_view().contains(k) implies self@.dom().contains(k) by {
                let j = choose|j: int| 0 <= j < res.deep_view().len() && res.deep_view()[j] == k;
                assert(Self::has_key_at(self.entries@, k, j));
            }
            assert forall|k: Seq<char>| self@.dom().contains(k) implies #[trigger]
                res.deep_view().contains(k) by {
                let j = choose|j: int| Self::has_key_at(self.entries@, k, j);
                assert(res.deep_view()[j] == k);
            }
        }
        res
    }
}

impl<V: DeepView> View for StrMap<V> {
    type V = Map<Seq<char>, <V as DeepView>::V>;

    closed spec fn view(&self) -> Map<Seq<char>, <V as DeepView>::V> {
        Self::seq_map(self.entries@)
    }
}

} // verus!
