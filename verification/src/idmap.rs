//! A small association map from player ids to values, backed by a vector
//! whose keys are pairwise distinct. Viewed as a `Map<PlayerID, V>`.
use vstd::prelude::*;

use crate::schemas::PlayerID;

verus! {

/// The player registry: one entry per connected player. Absence of a key
/// means the player is not (or no longer) registered.
pub struct IdMap<V> {
    entries: Vec<(PlayerID, V)>,
}

/// `s` lists exactly the entries of `m`, each key once.
pub open spec fn entries_match<V>(s: Seq<(PlayerID, V)>, m: Map<PlayerID, V>) -> bool {
    &&& forall|i: int, j: int| 0 <= i < j < s.len() ==> (#[trigger] s[i]).0 != (#[trigger] s[j]).0
    &&& forall|i: int|
        0 <= i < s.len() ==> m.contains_key((#[trigger] s[i]).0) && m[s[i].0] == s[i].1
    &&& forall|p: PlayerID| #[trigger] m.contains_key(p) ==> exists|i: int|
        0 <= i < s.len() && (#[trigger] s[i]).0 == p
}

impl<V> View for IdMap<V> {
    type V = Map<PlayerID, V>;

    closed spec fn view(&self) -> Map<PlayerID, V> {
        Map::new(
            |p: PlayerID| exists|i: int| 0 <= i < self.entries@.len() && (#[trigger] self.entries@[i]).0 == p,
            |p: PlayerID| self.entries@[choose|i: int| 0 <= i < self.entries@.len() && (#[trigger] self.entries@[i]).0 == p].1,
        )
    }
}

impl<V: Copy> IdMap<V> {
    /// Keys are pairwise distinct.
    pub closed spec fn wf(self) -> bool {
        forall|i: int, j: int|
            0 <= i < j < self.entries@.len() ==> (#[trigger] self.entries@[i]).0 != (#[trigger] self.entries@[j]).0
    }

    /// The view's domain is exactly the set of listed keys, and each listed
    /// entry is the view's entry for its key.
    proof fn lemma_view_entries(self)
        requires
            self.wf(),
        ensures
            entries_match(self.entries@, self@),
    {
        assert forall|i: int| 0 <= i < self.entries@.len() implies self@.contains_key(
            (#[trigger] self.entries@[i]).0,
        ) && self@[self.entries@[i].0] == self.entries@[i].1 by {
            let p = self.entries@[i].0;
            assert(self@.contains_key(p));
            let j = choose|j: int| 0 <= j < self.entries@.len() && (#[trigger] self.entries@[j]).0 == p;
            if i < j {
                assert((#[trigger] self.entries@[i]).0 != (#[trigger] self.entries@[j]).0);
            } else if j < i {
                assert((#[trigger] self.entries@[j]).0 != (#[trigger] self.entries@[i]).0);
            }
        }
    }

    /// The empty map.
    pub fn empty() -> (r: IdMap<V>)
        ensures
            r.wf(),
            r@ == Map::<PlayerID, V>::empty(),
    {
        let r = IdMap { entries: Vec::new() };
        proof {
            assert(r@ =~= Map::<PlayerID, V>::empty());
        }
        r
    }

    /// Index of the entry holding `p`, if one does.
    fn id_index(&self, p: PlayerID) -> (r: Option<usize>)
        ensures
            match r {
                Some(i) => i < self.entries@.len() && self.entries@[i as int].0 == p,
                None => forall|i: int| 0 <= i < self.entries@.len() ==> (#[trigger] self.entries@[i]).0 != p,
            },
    {
        let mut i: usize = 0;
        while i < self.entries.len()
            invariant
                i <= self.entries@.len(),
                forall|j: int| 0 <= j < i ==> (#[trigger] self.entries@[j]).0 != p,
            decreases self.entries@.len() - i,
        {
            if self.entries[i].0 == p {
                return Some(i);
            }
            i += 1;
        }
        None
    }

    /// Whether `p` has an entry.
    pub fn contains(&self, p: PlayerID) -> (r: bool)
        requires
            self.wf(),
        ensures
            r == self@.contains_key(p),
    {
        proof {
            self.lemma_view_entries();
        }
        match self.id_index(p) {
            Some(i) => {
                proof {
                    let i = i as int;
                    assert(self@.contains_key(self.entries@[i].0));
                }
                true
            },
            None => {
                proof {
                    if self@.contains_key(p) {
                        let i = choose|i: int|
                            0 <= i < self.entries@.len() && (#[trigger] self.entries@[i]).0 == p;
                        assert(self.entries@[i].0 == p);
                    }
                }
                false
            },
        }
    }

    /// The value stored for `p`, if any.
    pub fn get(&self, p: PlayerID) -> (r: Option<V>)
        requires
            self.wf(),
        ensures
            match r {
                Some(v) => self@.contains_key(p) && self@[p] == v,
                None => !self@.contains_key(p),
            },
    {
        proof {
            self.lemma_view_entries();
        }
        match self.id_index(p) {
            Some(i) => {
                proof {
                    let i = i as int;
                    assert(self@.contains_key(self.entries@[i].0) && self@[self.entries@[i].0]
                        == self.entries@[i].1);
                }
                Some(self.entries[i].1)
            },
            None => {
                proof {
                    if self@.contains_key(p) {
                        let i = choose|i: int|
                            0 <= i < self.entries@.len() && (#[trigger] self.entries@[i]).0 == p;
                        assert(self.entries@[i].0 == p);
                    }
                }
                None
            },
        }
    }

    /// Remove the entry for `p`, returning its value if it was present.
    pub fn remove(&mut self, p: PlayerID) -> (r: Option<V>)
        requires
            old(self).wf(),
        ensures
            final(self).wf(),
            final(self)@ == old(self)@.remove(p),
            match r {
                Some(v) => old(self)@.contains_key(p) && old(self)@[p] == v,
                None => !old(self)@.contains_key(p),
            },
    {
        proof {
            self.lemma_view_entries();
        }
        let ghost s0 = self.entries@;
        let ghost m0 = self@;
        match self.id_index(p) {
            Some(i) => {
                let (_, v) = self.entries.remove(i);
                proof {
                    let i = i as int;
                    assert(self.entries@ == s0.remove(i));
                    assert forall|a: int, b: int| 0 <= a < b < self.entries@.len() implies (
                    #[trigger] self.entries@[a]).0 != (#[trigger] self.entries@[b]).0 by {
                        let a0 = if a < i { a } else { a + 1 };
                        let b0 = if b < i { b } else { b + 1 };
                        assert(self.entries@[a] == s0[a0] && self.entries@[b] == s0[b0]);
                    }
                    assert forall|q: PlayerID| #[trigger] m0.remove(p).contains_key(q) implies self@.contains_key(q) by {
                        let j = choose|j: int| 0 <= j < s0.len() && (#[trigger] s0[j]).0 == q;
                        if j < i {
                            assert(self.entries@[j].0 == q);
                        } else {
                            assert(self.entries@[j - 1].0 == q);
                        }
                    }
                    assert forall|q: PlayerID| #[trigger] self@.contains_key(q) implies m0.remove(p).contains_key(q) && m0.remove(p)[q] == self@[q] by {
                        let j = choose|j: int|
                            0 <= j < self.entries@.len() && (#[trigger] self.entries@[j]).0 == q;
                        let j0 = if j < i { j } else { j + 1 };
                        assert(s0[j0].0 == q && s0[j0].1 == self.entries@[j].1);
                        assert(m0.contains_key(q) && m0[q] == s0[j0].1);
                        assert(q != p) by {
                            if j0 < i {
                                assert((#[trigger] s0[j0]).0 != (#[trigger] s0[i]).0);
                            } else {
                                assert((#[trigger] s0[i]).0 != (#[trigger] s0[j0]).0);
                            }
                        }
                        let k = choose|k: int|
                            0 <= k < self.entries@.len() && (#[trigger] self.entries@[k]).0 == q;
                        let k0 = if k < i { k } else { k + 1 };
                        assert(s0[k0].0 == q);
                        assert(k0 == j0) by {
                            if k0 < j0 {
                                assert((#[trigger] s0[k0]).0 != (#[trigger] s0[j0]).0);
                            } else if j0 < k0 {
                                assert((#[trigger] s0[j0]).0 != (#[trigger] s0[k0]).0);
                            }
                        }
                    }
                    assert(final(self)@ =~= m0.remove(p));
                }
                Some(v)
            },
            None => {
                proof {
                    if m0.contains_key(p) {
                        let i = choose|i: int| 0 <= i < s0.len() && (#[trigger] s0[i]).0 == p;
                        assert(s0[i].0 == p);
                    }
                    assert(final(self)@ =~= m0.remove(p));
                }
                None
            },
        }
    }

    /// Insert (or overwrite) the entry for `p`.
    pub fn insert(&mut self, p: PlayerID, v: V)
        requires
            old(self).wf(),
        ensures
            final(self).wf(),
            final(self)@ == old(self)@.insert(p, v),
    {
        let ghost m0 = self@;
        let _ = self.remove(p);
        let ghost s1 = self.entries@;
        let ghost m1 = self@;
        proof {
            self.lemma_view_entries();
            assert forall|i: int| 0 <= i < s1.len() implies (#[trigger] s1[i]).0 != p by {
                assert(m1.contains_key(s1[i].0));
                assert(!m1.contains_key(p));
            }
        }
        self.entries.push((p, v));
        proof {
            assert(self.entries@ == s1.push((p, v)));
            self.lemma_wf_after_push(s1, m1, p, v);
            assert(final(self)@ =~= m0.insert(p, v));
        }
    }

    /// After pushing a fresh key onto a well-formed entry list, the list is
    /// still well-formed and the view gains exactly that entry.
    proof fn lemma_wf_after_push(self, s1: Seq<(PlayerID, V)>, m1: Map<PlayerID, V>, p: PlayerID, v: V)
        requires
            self.entries@ == s1.push((p, v)),
            forall|i: int, j: int| 0 <= i < j < s1.len() ==> (#[trigger] s1[i]).0 != (#[trigger] s1[j]).0,
            forall|i: int| 0 <= i < s1.len() ==> (#[trigger] s1[i]).0 != p,
            m1 == Map::new(
                |q: PlayerID| exists|i: int| 0 <= i < s1.len() && (#[trigger] s1[i]).0 == q,
                |q: PlayerID| s1[choose|i: int| 0 <= i < s1.len() && (#[trigger] s1[i]).0 == q].1,
            ),
        ensures
            self.wf(),
            self@ == m1.insert(p, v),
    {
        let s = self.entries@;
        assert forall|i: int, j: int| 0 <= i < j < s.len() implies (#[trigger] s[i]).0 != (
        #[trigger] s[j]).0 by {
            if j < s.len() - 1 {
                assert(s[i] == s1[i] && s[j] == s1[j]);
            } else {
                assert(s[j] == (p, v));
                assert(s[i] == s1[i]);
                assert((#[trigger] s1[i]).0 != p);
            }
        }
        assert forall|q: PlayerID| #[trigger] m1.insert(p, v).contains_key(q) implies self@.contains_key(q) by {
            if q == p {
                assert(s[s.len() - 1].0 == p);
            } else {
                let i = choose|i: int| 0 <= i < s1.len() && (#[trigger] s1[i]).0 == q;
                assert(s[i].0 == q);
            }
        }
        assert forall|q: PlayerID| #[trigger] self@.contains_key(q) implies m1.insert(p, v).contains_key(q) && m1.insert(p, v)[q] == self@[q] by {
            let j = choose|j: int| 0 <= j < s.len() && (#[trigger] s[j]).0 == q;
            let k = choose|k: int| 0 <= k < s.len() && (#[trigger] s[k]).0 == q;
            assert(k == j) by {
                if k < j {
                    assert((#[trigger] s[k]).0 != (#[trigger] s[j]).0);
                } else if j < k {
                    assert((#[trigger] s[j]).0 != (#[trigger] s[k]).0);
                }
            }
            if j == s.len() - 1 {
                assert(q == p && self@[q] == v);
            } else {
                assert(s[j] == s1[j]);
                assert(q != p) by {
                    assert((#[trigger] s1[j]).0 != p);
                }
                assert(m1.contains_key(q) && m1[q] == s1[choose|i: int|
                    0 <= i < s1.len() && (#[trigger] s1[i]).0 == q].1);
                let i = choose|i: int| 0 <= i < s1.len() && (#[trigger] s1[i]).0 == q;
                assert(i == j) by {
                    if i < j {
                        assert((#[trigger] s[i]).0 != (#[trigger] s[j]).0);
                        assert(s[i] == s1[i]);
                    } else if j < i {
                        assert((#[trigger] s[j]).0 != (#[trigger] s[i]).0);
                        assert(s[i] == s1[i]);
                    }
                }
            }
        }
        assert(self@ =~= m1.insert(p, v));
    }

    /// A copy of all entries, in storage order.
    pub fn to_vec(&self) -> (r: Vec<(PlayerID, V)>)
        requires
            self.wf(),
        ensures
            entries_match(r@, self@),
    {
        proof {
            self.lemma_view_entries();
        }
        let mut r: Vec<(PlayerID, V)> = Vec::new();
        let mut i: usize = 0;
        while i < self.entries.len()
            invariant
                i <= self.entries@.len(),
                r@ == self.entries@.subrange(0, i as int),
            decreases self.entries@.len() - i,
        {
            r.push(self.entries[i]);
            i += 1;
        }
        proof {
            assert(r@ == self.entries@);
        }
        r
    }

}

} // verus!
