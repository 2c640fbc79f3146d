//! A set of abstract locations, held sorted by index.
//!
//! The passes compare locations by index alone, so the set is modelled as a
//! `Set<int>` of indices.  Keeping the elements sorted gives every walk over
//! the set a canonical order — ascending creation index — which is what
//! makes the downstream passes deterministic.

use vstd::prelude::*;

use crate::utils::Aloc;

verus! {

/// A finite set of abstract locations, sorted by ascending index.
#[derive(Debug, PartialEq, Eq)]
pub struct AlocSet {
    elems: Vec<Aloc>,
}

impl View for AlocSet {
    type V = Set<int>;

    closed spec fn view(&self) -> Set<int> {
        self.idx_seq().to_set()
    }
}

/// The indices of a run of locations, in the order they stand.
spec fn idxs(s: Seq<Aloc>) -> Seq<int> {
    s.map_values(|a: Aloc| a.index as int)
}

impl AlocSet {
    /// The indices of the elements, in the order they are stored.
    pub closed spec fn idx_seq(&self) -> Seq<int> {
        idxs(self.elems@)
    }

    /// The elements are strictly ascending by index.
    pub closed spec fn wf(&self) -> bool {
        forall|i: int, j: int|
            0 <= i < j < self.elems@.len() ==> self.elems@[i].index < self.elems@[j].index
    }

    /// The stored order is strictly ascending.
    pub proof fn lemma_idx_seq_sorted(&self)
        requires
            self.wf(),
        ensures
            forall|i: int, j: int|
                0 <= i < j < self.idx_seq().len() ==> self.idx_seq()[i] < self.idx_seq()[j],
    {
        assert forall|i: int, j: int| 0 <= i < j < self.idx_seq().len()
            implies self.idx_seq()[i] < self.idx_seq()[j] by {
            assert(self.elems@[i].index < self.elems@[j].index);
        }
    }

    /// How the set relates to the stored order.
    pub proof fn lemma_view_facts(&self)
        requires
            self.wf(),
        ensures
            self.idx_seq().no_duplicates(),
            self@.finite(),
            self@.len() == self.idx_seq().len(),
            forall|x: int| self@.contains(x) <==> self.idx_seq().contains(x),
    {
        self.lemma_wf_facts();
    }

    proof fn lemma_wf_facts(&self)
        requires
            self.wf(),
        ensures
            self.idx_seq().no_duplicates(),
            self@.finite(),
            self@.len() == self.idx_seq().len(),
            forall|x: int| self@.contains(x) <==> self.idx_seq().contains(x),
    {
        broadcast use vstd::seq_lib::group_seq_properties, vstd::set_lib::group_set_properties;

        assert(self.idx_seq().no_duplicates()) by {
            assert forall|i: int, j: int|
                0 <= i < self.idx_seq().len() && 0 <= j < self.idx_seq().len() && i != j
                implies self.idx_seq()[i] != self.idx_seq()[j] by {
                if i < j {
                    assert(self.elems@[i].index < self.elems@[j].index);
                } else {
                    assert(self.elems@[j].index < self.elems@[i].index);
                }
            }
        }
        self.idx_seq().unique_seq_to_set();
    }

    /// The empty set.
    pub fn new() -> (s: AlocSet)
        ensures
            s@ =~= Set::<int>::empty(),
            s.wf(),
            s.idx_seq() =~= Seq::<int>::empty(),
    {
        let s = AlocSet { elems: Vec::new() };
        proof {
            assert(s.idx_seq() =~= Seq::<int>::empty());
            assert(s@ =~= Set::<int>::empty());
        }
        s
    }

    /// How many locations the set holds.
    pub fn len(&self) -> (n: usize)
        requires
            self.wf(),
        ensures
            n == self@.len(),
            n == self.idx_seq().len(),
    {
        proof {
            self.lemma_wf_facts();
        }
        self.elems.len()
    }

    pub fn is_empty(&self) -> (r: bool)
        requires
            self.wf(),
        ensures
            r == self@.is_empty(),
    {
        proof {
            self.lemma_wf_facts();
            if self.idx_seq().len() == 0 {
                assert(self@ =~= Set::<int>::empty());
            } else {
                assert(self@.contains(self.idx_seq()[0]));
            }
        }
        self.elems.len() == 0
    }

    /// Whether the location with the given index is in the set.
    pub fn contains_index(&self, index: usize) -> (r: bool)
        requires
            self.wf(),
        ensures
            r == self@.contains(index as int),
    {
        proof {
            self.lemma_wf_facts();
        }
        let n = self.elems.len();
        let mut i: usize = 0;
        while i < n
            invariant
                n == self.elems@.len(),
                0 <= i <= n,
                forall|j: int| 0 <= j < i ==> self.elems@[j].index != index,
            decreases n - i,
        {
            if self.elems[i].index == index {
                assert(self.idx_seq()[i as int] == index as int);
                return true;
            }
            i = i + 1;
        }
        proof {
            if self.idx_seq().contains(index as int) {
                let j = choose|j: int|
                    0 <= j < self.idx_seq().len() && self.idx_seq()[j] == index as int;
                assert(self.elems@[j].index == index);
            }
        }
        false
    }

    /// The element at the given position of the sorted order.
    pub fn elem_at(&self, k: usize) -> (a: &Aloc)
        requires
            self.wf(),
            k < self.idx_seq().len(),
        ensures
            a.index as int == self.idx_seq()[k as int],
            self@.contains(a.index as int),
    {
        proof {
            self.lemma_wf_facts();
            assert(self.idx_seq().contains(self.idx_seq()[k as int]));
        }
        &self.elems[k]
    }

    /// Adds the location; a location with the same index that is already
    /// present stays as it is.
    pub fn insert(&mut self, a: Aloc)
        requires
            old(self).wf(),
        ensures
            final(self).wf(),
            final(self)@ =~= old(self)@.insert(a.index as int),
    {
        proof {
            self.lemma_wf_facts();
        }
        let n = self.elems.len();
        let mut i: usize = 0;
        while i < n && self.elems[i].index < a.index
            invariant
                *self == *old(self),
                n == self.elems@.len(),
                0 <= i <= n,
                forall|j: int| 0 <= j < i ==> self.elems@[j].index < a.index,
            decreases n - i,
        {
            i = i + 1;
        }
        if i < n && self.elems[i].index == a.index {
            assert(self.idx_seq()[i as int] == a.index as int);
            assert(self@.contains(a.index as int));
            assert(self@ =~= self@.insert(a.index as int));
            return ;
        }
        assert(i < n ==> self.elems@[i as int].index > a.index);
        let ghost old_elems = self.elems@;
        self.elems.insert(i, a);
        proof {
            assert(self.elems@ =~= old_elems.insert(i as int, a));
            assert forall|p: int, q: int| 0 <= p < q < self.elems@.len()
                implies self.elems@[p].index < self.elems@[q].index by {
                if p < i && q == i {
                    assert(self.elems@[p] == old_elems[p]);
                } else if p == i && q > i {
                    assert(self.elems@[q] == old_elems[q - 1]);
                    if q - 1 > i {
                        assert(old_elems[i as int].index < old_elems[q - 1].index);
                    }
                } else if p < i && q > i {
                    assert(self.elems@[p] == old_elems[p]);
                    assert(self.elems@[q] == old_elems[q - 1]);
                    assert(old_elems[p].index < old_elems[q - 1].index);
                } else if p > i && q > i {
                    assert(self.elems@[p] == old_elems[p - 1]);
                    assert(self.elems@[q] == old_elems[q - 1]);
                    assert(old_elems[p - 1].index < old_elems[q - 1].index);
                }
            }
            assert(self.idx_seq() =~= idxs(old_elems).insert(i as int, a.index as int));
            assert forall|x: int| self@.contains(x) <==> old(self)@.insert(a.index as int).contains(
                x,
            ) by {
                let s_new = self.idx_seq();
                let s_old = idxs(old_elems);
                assert(s_old =~= old(self).idx_seq());
                if self@.contains(x) {
                    let j = choose|j: int| 0 <= j < s_new.len() && s_new[j] == x;
                    if j == i {
                        assert(x == a.index as int);
                    } else if j < i {
                        assert(s_old[j] == x);
                        assert(s_old.contains(x));
                    } else {
                        assert(s_old[j - 1] == x);
                        assert(s_old.contains(x));
                    }
                }
                if old(self)@.insert(a.index as int).contains(x) {
                    if x == a.index as int {
                        assert(s_new[i as int] == x);
                        assert(s_new.contains(x));
                    } else {
                        assert(s_old.contains(x));
                        let j = choose|j: int| 0 <= j < s_old.len() && s_old[j] == x;
                        if j < i {
                            assert(s_new[j] == x);
                        } else {
                            assert(s_new[j + 1] == x);
                        }
                        assert(s_new.contains(x));
                    }
                }
            }
        }
    }

    /// Removes the location with the given index, if it is present.
    pub fn remove_index(&mut self, index: usize)
        requires
            old(self).wf(),
        ensures
            final(self).wf(),
            final(self)@ =~= old(self)@.remove(index as int),
    {
        proof {
            self.lemma_wf_facts();
        }
        let n = self.elems.len();
        let mut i: usize = 0;
        while i < n
            invariant
                *self == *old(self),
                old(self).wf(),
                n == self.elems@.len(),
                0 <= i <= n,
                forall|j: int| 0 <= j < i ==> self.elems@[j].index != index,
            decreases n - i,
        {
            if self.elems[i].index == index {
                let ghost old_elems = self.elems@;
                proof {
                    self.lemma_wf_facts();
                }
                self.elems.remove(i);
                proof {
                    assert(self.elems@ =~= old_elems.remove(i as int));
                    assert(idxs(old_elems) =~= old(self).idx_seq());
                    assert(self.idx_seq() =~= idxs(old_elems).remove(i as int));
                    assert forall|p: int, q: int| 0 <= p < q < self.elems@.len()
                        implies self.elems@[p].index < self.elems@[q].index by {
                        if q < i {
                        } else if p < i && q >= i {
                            assert(self.elems@[q] == old_elems[q + 1]);
                        } else {
                            assert(self.elems@[p] == old_elems[p + 1]);
                            assert(self.elems@[q] == old_elems[q + 1]);
                        }
                    }
                    let s_new = self.idx_seq();
                    let s_old = old(self).idx_seq();
                    assert forall|x: int| self@.contains(x) <==> old(self)@.remove(
                        index as int,
                    ).contains(x) by {
                        if self@.contains(x) {
                            let j = choose|j: int| 0 <= j < s_new.len() && s_new[j] == x;
                            if j < i {
                                assert(s_old[j] == x);
                            } else {
                                assert(s_old[j + 1] == x);
                            }
                            assert(s_old.contains(x));
                            assert(x != index as int) by {
                                if j < i {
                                    assert(old(self).elems@[j].index != index);
                                } else {
                                    assert(old(self).elems@[j + 1].index > old(
                                        self,
                                    ).elems@[i as int].index);
                                }
                            }
                        }
                        if old(self)@.remove(index as int).contains(x) {
                            let j = choose|j: int| 0 <= j < s_old.len() && s_old[j] == x;
                            assert(j != i) by {
                                assert(s_old[i as int] == index as int);
                            }
                            if j < i {
                                assert(s_new[j] == x);
                            } else {
                                assert(s_new[j - 1] == x);
                            }
                            assert(s_new.contains(x));
                        }
                    }
                }
                return ;
            }
            i = i + 1;
        }
        proof {
            if old(self)@.contains(index as int) {
                let j = choose|j: int|
                    0 <= j < self.idx_seq().len() && self.idx_seq()[j] == index as int;
                assert(self.elems@[j].index == index);
            }
            assert(self@ =~= old(self)@.remove(index as int));
        }
    }

    /// Adds every element of `other` to this set.
    pub fn union_with(&mut self, other: &AlocSet)
        requires
            old(self).wf(),
            other.wf(),
        ensures
            final(self).wf(),
            final(self)@ =~= old(self)@.union(other@),
    {
        proof {
            other.lemma_wf_facts();
        }
        let n = other.elems.len();
        let mut i: usize = 0;
        while i < n
            invariant
                n == other.elems@.len(),
                other.wf(),
                0 <= i <= n,
                self.wf(),
                self@ =~= old(self)@.union(other.idx_seq().take(i as int).to_set()),
            decreases n - i,
        {
            let a = other.elems[i].clone();
            assert(a.index as int == other.idx_seq()[i as int]);
            self.insert(a);
            proof {
                assert(other.idx_seq().take(i + 1).drop_last() =~= other.idx_seq().take(i as int));
                assert(other.idx_seq().take(i + 1).last() == other.idx_seq()[i as int]);
                assert(other.idx_seq().take(i + 1).to_set() =~= other.idx_seq().take(
                    i as int,
                ).to_set().insert(other.idx_seq()[i as int]));
            }
            i = i + 1;
        }
        proof {
            assert(other.idx_seq().take(n as int) =~= other.idx_seq());
            other.lemma_wf_facts();
            assert(forall|x: int| other@.contains(x) <==> other.idx_seq().to_set().contains(x));
            assert(self@ =~= old(self)@.union(other@));
        }
    }
}

impl Clone for AlocSet {
    /// An element-by-element copy: the same indices in the same order.
    fn clone(&self) -> (s: AlocSet)
        ensures
            s.idx_seq() =~= self.idx_seq(),
            s@ =~= self@,
            self.wf() ==> s.wf(),
    {
        let n = self.elems.len();
        let mut elems: Vec<Aloc> = Vec::new();
        let mut i: usize = 0;
        while i < n
            invariant
                n == self.elems@.len(),
                0 <= i <= n,
                elems@.len() == i,
                forall|j: int| 0 <= j < i ==> elems@[j].index == self.elems@[j].index,
            decreases n - i,
        {
            elems.push(self.elems[i].clone());
            i = i + 1;
        }
        let s = AlocSet { elems };
        proof {
            assert(s.idx_seq() =~= self.idx_seq());
            assert(s@ =~= self@);
        }
        s
    }
}

} // verus!
