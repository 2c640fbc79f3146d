//! The conflict ("interference") graph: for each abstract location, the set
//! of locations it must not share storage with.
//!
//! Edges are directional: a neighbour set is recorded only under the key of
//! the instruction's primary location, exactly as the conflict analysis
//! computes it.  The graph is modelled as a `Map<int, Set<int>>` over
//! location indices; entries are held sorted by key index so that walks over
//! the graph are deterministic.

use vstd::prelude::*;

use crate::sets::AlocSet;
use crate::utils::Aloc;

verus! {

/// A finite map from location index to neighbour set, sorted by key.
#[derive(Debug, PartialEq, Eq)]
pub struct Graph {
    entries: Vec<(Aloc, AlocSet)>,
}

/// The key indices of a run of entries, in the order they stand.
spec fn key_idxs(s: Seq<(Aloc, AlocSet)>) -> Seq<int> {
    s.map_values(|e: (Aloc, AlocSet)| e.0.index as int)
}

/// The map a run of entries denotes, later entries overriding earlier ones.
spec fn entries_map(s: Seq<(Aloc, AlocSet)>) -> Map<int, Set<int>>
    decreases s.len(),
{
    if s.len() == 0 {
        Map::empty()
    } else {
        entries_map(s.drop_last()).insert(s.last().0.index as int, s.last().1@)
    }
}

/// With distinct keys, the denoted map reads back exactly the entries.
proof fn lemma_entries_map(s: Seq<(Aloc, AlocSet)>)
    requires
        key_idxs(s).no_duplicates(),
    ensures
        entries_map(s).dom() =~= key_idxs(s).to_set(),
        entries_map(s).dom().finite(),
        entries_map(s).dom().len() == s.len(),
        forall|j: int|
            0 <= j < s.len() ==> entries_map(s)[#[trigger] s[j].0.index as int] == s[j].1@,
    decreases s.len(),
{
    key_idxs(s).unique_seq_to_set();
    if s.len() > 0 {
        let rest = s.drop_last();
        assert(key_idxs(rest) =~= key_idxs(s).drop_last());
        assert(key_idxs(rest).no_duplicates());
        lemma_entries_map(rest);
        assert(entries_map(s).dom() =~= key_idxs(s).to_set()) by {
            assert forall|x: int| entries_map(s).dom().contains(x) implies key_idxs(s).to_set()
                .contains(x) by {
                if x == s.last().0.index as int {
                    assert(key_idxs(s)[s.len() - 1] == x);
                    assert(key_idxs(s).contains(x));
                } else {
                    assert(key_idxs(rest).to_set().contains(x));
                    let j = choose|j: int| 0 <= j < key_idxs(rest).len() && key_idxs(rest)[j] == x;
                    assert(key_idxs(s)[j] == x);
                    assert(key_idxs(s).contains(x));
                }
            }
            assert forall|x: int| key_idxs(s).to_set().contains(x)
                implies entries_map(s).dom().contains(x) by {
                let j = choose|j: int| 0 <= j < key_idxs(s).len() && key_idxs(s)[j] == x;
                if j == s.len() - 1 {
                } else {
                    assert(key_idxs(rest)[j] == x);
                    assert(key_idxs(rest).contains(x));
                    assert(key_idxs(rest).to_set().contains(x));
                }
            }
        }
        assert forall|j: int| 0 <= j < s.len() implies entries_map(s)[
        #[trigger] s[j].0.index as int] == s[j].1@ by {
            if j == s.len() - 1 {
            } else {
                assert(rest[j] == s[j]);
                assert(entries_map(rest)[s[j].0.index as int] == s[j].1@);
                assert(key_idxs(s)[j] == s[j].0.index as int);
                assert(key_idxs(s)[s.len() - 1] == s.last().0.index as int);
                assert(s[j].0.index as int != s.last().0.index as int);
            }
        }
    }
}

impl View for Graph {
    type V = Map<int, Set<int>>;

    closed spec fn view(&self) -> Map<int, Set<int>> {
        entries_map(self.entries@)
    }
}

impl Graph {
    /// The keys, in ascending order.
    pub closed spec fn key_seq(&self) -> Seq<int> {
        key_idxs(self.entries@)
    }

    /// Entries are strictly ascending by key index and every neighbour set
    /// is well-formed.
    pub closed spec fn wf(&self) -> bool {
        &&& forall|i: int, j: int|
            0 <= i < j < self.entries@.len() ==> self.entries@[i].0.index
                < self.entries@[j].0.index
        &&& forall|i: int| 0 <= i < self.entries@.len() ==> (#[trigger] self.entries@[i].1).wf()
    }

    proof fn lemma_wf_facts(&self)
        requires
            self.wf(),
        ensures
            self.key_seq().no_duplicates(),
            self@.dom().finite(),
            self@.dom().len() == self.entries@.len(),
            self.key_seq().len() == self.entries@.len(),
            forall|x: int| self@.dom().contains(x) <==> self.key_seq().contains(x),
            forall|j: int|
                0 <= j < self.entries@.len() ==> self@.dom().contains(
                    #[trigger] self.entries@[j].0.index as int,
                ),
            forall|j: int|
                0 <= j < self.entries@.len() ==> self@[#[trigger] self.entries@[j].0.index as int]
                    == self.entries@[j].1@,
    {
        let s = self.entries@;
        let keys = key_idxs(s);
        assert(keys.no_duplicates()) by {
            assert forall|i: int, j: int|
                0 <= i < keys.len() && 0 <= j < keys.len() && i != j implies keys[i] != keys[j] by {
                if i < j {
                    assert(s[i].0.index < s[j].0.index);
                } else {
                    assert(s[j].0.index < s[i].0.index);
                }
            }
        }
        lemma_entries_map(s);
        keys.unique_seq_to_set();
        assert forall|j: int| 0 <= j < s.len() implies self@.dom().contains(
            #[trigger] s[j].0.index as int,
        ) by {
            assert(keys[j] == s[j].0.index as int);
            assert(keys.contains(keys[j]));
        }
    }

    /// The entry position a mapped index lives at.
    proof fn lemma_dom_index(&self, x: int) -> (j: int)
        requires
            self.wf(),
            self@.dom().contains(x),
        ensures
            0 <= j < self.entries@.len(),
            self.entries@[j].0.index as int == x,
            self@[x] == self.entries@[j].1@,
    {
        self.lemma_wf_facts();
        assert(self.key_seq().contains(x));
        let j = choose|j: int| 0 <= j < self.key_seq().len() && self.key_seq()[j] == x;
        assert(self.entries@[j].0.index as int == x);
        j
    }

    /// The graph that maps every member of `locals` to an empty neighbour
    /// set.
    pub fn new_from(locals: &AlocSet) -> (g: Graph)
        requires
            locals.wf(),
        ensures
            g.wf(),
            g@.dom() =~= locals@,
            forall|x: int| locals@.contains(x) ==> g@[x] =~= Set::<int>::empty(),
            g.key_seq() =~= locals.idx_seq(),
    {
        let n = locals.len();
        let mut entries: Vec<(Aloc, AlocSet)> = Vec::new();
        let mut i: usize = 0;
        while i < n
            invariant
                locals.wf(),
                n == locals.idx_seq().len(),
                0 <= i <= n,
                entries@.len() == i,
                forall|j: int|
                    0 <= j < i ==> (#[trigger] entries@[j].0).index as int == locals.idx_seq()[j],
                forall|j: int| 0 <= j < i ==> (#[trigger] entries@[j].1)@ =~= Set::<int>::empty(),
                forall|j: int| 0 <= j < i ==> (#[trigger] entries@[j].1).wf(),
            decreases n - i,
        {
            let a = locals.elem_at(i).clone();
            entries.push((a, AlocSet::new()));
            i = i + 1;
        }
        let g = Graph { entries };
        proof {
            assert forall|p: int, q: int| 0 <= p < q < g.entries@.len() implies g.entries@[p].0.index
                < g.entries@[q].0.index by {
                locals.lemma_idx_seq_sorted();
            }
            assert(g.key_seq() =~= locals.idx_seq());
            g.lemma_wf_facts();
            locals.lemma_view_facts();
            assert(g@.dom() =~= locals@) by {
                assert(forall|x: int| locals@.contains(x) <==> locals.idx_seq().contains(x));
                assert(forall|x: int| g@.dom().contains(x) <==> g.key_seq().contains(x));
            }
            assert forall|x: int| locals@.contains(x) implies g@[x] =~= Set::<int>::empty() by {
                let j = g.lemma_dom_index(x);
            }
        }
        g
    }

    /// How many locations have an entry.
    pub fn len(&self) -> (n: usize)
        requires
            self.wf(),
        ensures
            n == self@.dom().len(),
    {
        proof {
            self.lemma_wf_facts();
        }
        self.entries.len()
    }

    pub fn is_empty(&self) -> (r: bool)
        requires
            self.wf(),
        ensures
            r == self@.dom().is_empty(),
    {
        proof {
            self.lemma_wf_facts();
            if self.entries@.len() == 0 {
                assert(self@.dom() =~= Set::<int>::empty());
            } else {
                assert(self@.dom().contains(self.entries@[0].0.index as int));
            }
        }
        self.entries.len() == 0
    }

    /// Records `ns` as the neighbour set of `a`, overwriting any entry the
    /// graph already had for it.
    pub fn insert_alocs(&mut self, a: Aloc, ns: AlocSet)
        requires
            old(self).wf(),
            ns.wf(),
        ensures
            final(self).wf(),
            final(self)@ =~= old(self)@.insert(a.index as int, ns@),
    {
        proof {
            self.lemma_wf_facts();
        }
        let n = self.entries.len();
        let mut i: usize = 0;
        while i < n && self.entries[i].0.index < a.index
            invariant
                *self == *old(self),
                n == self.entries@.len(),
                0 <= i <= n,
                forall|j: int| 0 <= j < i ==> (#[trigger] self.entries@[j].0).index < a.index,
            decreases n - i,
        {
            i = i + 1;
        }
        let ghost old_entries = self.entries@;
        if i < n && self.entries[i].0.index == a.index {
            self.entries[i] = (a, ns);
            proof {
                assert(self.entries@ =~= old_entries.update(i as int, (a, ns)));
                assert forall|p: int, q: int| 0 <= p < q < self.entries@.len()
                    implies self.entries@[p].0.index < self.entries@[q].0.index by {
                    assert(old_entries[p].0.index < old_entries[q].0.index);
                }
                assert forall|q: int| 0 <= q < self.entries@.len()
                    implies #[trigger] self.entries@[q] == (if q == i {
                    (a, ns)
                } else {
                    old_entries[q]
                }) by {
                    if q == i {
                        assert(old_entries.update(i as int, (a, ns))[i as int] == (a, ns));
                    } else {
                        assert(old_entries.update(i as int, (a, ns))[q] == old_entries[q]);
                    }
                }
                assert(key_idxs(self.entries@) =~= key_idxs(old_entries));
                self.lemma_wf_facts();
                old(self).lemma_wf_facts();
                assert forall|x: int|
                    self@.dom().contains(x) <==> old(self)@.insert(
                        a.index as int,
                        ns@,
                    ).dom().contains(x) by {
                    assert(self@.dom().contains(x) <==> key_idxs(self.entries@).contains(x));
                    assert(old(self)@.dom().contains(x) <==> key_idxs(old_entries).contains(x));
                    if x == a.index as int {
                        assert(key_idxs(old_entries)[i as int] == x);
                        assert(key_idxs(old_entries).contains(x));
                    }
                }
                assert(self@ =~= old(self)@.insert(a.index as int, ns@)) by {
                    assert forall|x: int| self@.dom().contains(x) implies self@[x] == old(
                        self,
                    )@.insert(a.index as int, ns@)[x] by {
                        let j = self.lemma_dom_index(x);
                        if x == a.index as int {
                            assert(j == i) by {
                                if j < i {
                                    assert(old_entries[j].0.index < a.index);
                                } else if j > i {
                                    assert(old_entries[i as int].0.index < old_entries[j].0.index);
                                }
                            }
                        } else {
                            assert(j != i);
                            assert(old(self).entries@[j] == self.entries@[j]);
                            let k = old(self).lemma_dom_index(x);
                            assert(k == j);
                        }
                    }
                }
            }
        } else {
            assert(i < n ==> self.entries@[i as int].0.index > a.index);
            self.entries.insert(i, (a, ns));
            proof {
                assert(self.entries@ =~= old_entries.insert(i as int, (a, ns)));
                assert forall|q: int| 0 <= q < self.entries@.len()
                    implies #[trigger] self.entries@[q] == (if q < i {
                    old_entries[q]
                } else if q == i {
                    (a, ns)
                } else {
                    old_entries[q - 1]
                }) by {
                    if q < i {
                        assert(old_entries.insert(i as int, (a, ns))[q] == old_entries[q]);
                    } else if q == i {
                        assert(old_entries.insert(i as int, (a, ns))[i as int] == (a, ns));
                    } else {
                        assert(old_entries.insert(i as int, (a, ns))[q] == old_entries[q - 1]);
                    }
                }
                assert forall|p: int, q: int| 0 <= p < q < self.entries@.len()
                    implies self.entries@[p].0.index < self.entries@[q].0.index by {
                    if p < i && q == i {
                        assert(self.entries@[p] == old_entries[p]);
                    } else if p == i && q > i {
                        assert(self.entries@[q] == old_entries[q - 1]);
                        if q - 1 > i {
                            assert(old_entries[i as int].0.index < old_entries[q - 1].0.index);
                        }
                    } else if p < i && q > i {
                        assert(self.entries@[p] == old_entries[p]);
                        assert(self.entries@[q] == old_entries[q - 1]);
                        assert(old_entries[p].0.index < old_entries[q - 1].0.index);
                    } else if p > i && q > i {
                        assert(self.entries@[p] == old_entries[p - 1]);
                        assert(self.entries@[q] == old_entries[q - 1]);
                        assert(old_entries[p - 1].0.index < old_entries[q - 1].0.index);
                    }
                }
                self.lemma_wf_facts();
                old(self).lemma_wf_facts();
                assert(self@ =~= old(self)@.insert(a.index as int, ns@)) by {
                    assert forall|x: int|
                        self@.dom().contains(x) <==> old(self)@.insert(
                            a.index as int,
                            ns@,
                        ).dom().contains(x) by {
                        assert(key_idxs(self.entries@).len() == self.entries@.len());
                        assert(key_idxs(old_entries).len() == old_entries.len());
                        if self@.dom().contains(x) {
                            assert(key_idxs(self.entries@).contains(x));
                            let j = choose|j: int|
                                0 <= j < key_idxs(self.entries@).len() && key_idxs(self.entries@)[j] == x;
                            assert(self.entries@[j].0.index as int == x);
                            if j == i {
                            } else if j < i {
                                assert(self.entries@[j] == old_entries[j]);
                                assert(key_idxs(old_entries)[j] == x);
                                assert(key_idxs(old_entries).contains(x));
                            } else {
                                assert(self.entries@[j] == old_entries[j - 1]);
                                assert(key_idxs(old_entries)[j - 1] == x);
                                assert(key_idxs(old_entries).contains(x));
                            }
                        }
                        if old(self)@.dom().contains(x) {
                            assert(key_idxs(old_entries).contains(x));
                            let j = choose|j: int|
                                0 <= j < key_idxs(old_entries).len() && key_idxs(old_entries)[j]
                                    == x;
                            if j < i {
                                assert(self.entries@[j] == old_entries[j]);
                                assert(key_idxs(self.entries@)[j] == x);
                            } else {
                                assert(self.entries@[j + 1] == old_entries[j]);
                                assert(key_idxs(self.entries@)[j + 1] == x);
                            }
                            assert(key_idxs(self.entries@).contains(x));
                        }
                        if x == a.index as int {
                            assert(key_idxs(self.entries@)[i as int] == x);
                            assert(key_idxs(self.entries@).contains(x));
                        }
                    }
                    assert forall|x: int| self@.dom().contains(x) implies self@[x] == old(
                        self,
                    )@.insert(a.index as int, ns@)[x] by {
                        let j = self.lemma_dom_index(x);
                        assert(self@[x] == self.entries@[j].1@);
                        if x == a.index as int {
                            assert(j == i) by {
                                if j < i {
                                    assert(old_entries[j].0.index < a.index);
                                } else if j > i {
                                    assert(self.entries@[j] == old_entries[j - 1]);
                                    assert(old_entries[j - 1].0.index >= old_entries[
                                        i as int
                                    ].0.index || j - 1 == i);
                                }
                            }
                        } else {
                            assert(j != i);
                            if j < i {
                                assert(self.entries@[j] == old_entries[j]);
                                let k = old(self).lemma_dom_index(x);
                                assert(k == j);
                            } else {
                                assert(self.entries@[j] == old_entries[j - 1]);
                                let k = old(self).lemma_dom_index(x);
                                assert(k == j - 1);
                            }
                        }
                    }
                }
            }
        }
    }

    /// Deletes the entry of the given location and removes the location
    /// from every remaining neighbour set.
    #[verifier::rlimit(100)]
    pub fn remove_node(&mut self, index: usize)
        requires
            old(self).wf(),
        ensures
            final(self).wf(),
            final(self)@.dom() =~= old(self)@.dom().remove(index as int),
            forall|x: int|
                final(self)@.dom().contains(x) ==> final(self)@[x] =~= old(self)@[x].remove(
                    index as int,
                ),
    {
        proof {
            self.lemma_wf_facts();
        }
        let n = self.entries.len();
        let mut out: Vec<(Aloc, AlocSet)> = Vec::new();
        let mut i: usize = 0;
        while i < n
            invariant
                *self == *old(self),
                old(self).wf(),
                n == self.entries@.len(),
                0 <= i <= n,
                forall|j: int, k: int|
                    0 <= j < k < out@.len() ==> (#[trigger] out@[j].0).index < (
                    #[trigger] out@[k].0).index,
                forall|j: int|
                    0 <= j < out@.len() ==> exists|p: int|
                        0 <= p < i && self.entries@[p].0.index == (#[trigger] out@[j].0).index
                            && out@[j].1@ =~= self.entries@[p].1@.remove(index as int),
                forall|p: int|
                    0 <= p < i && (#[trigger] self.entries@[p].0).index != index ==> exists|j: int|
                        0 <= j < out@.len() && (#[trigger] out@[j].0).index
                            == self.entries@[p].0.index,
                forall|j: int| 0 <= j < out@.len() ==> (#[trigger] out@[j].0).index != index,
                forall|j: int| 0 <= j < out@.len() ==> (#[trigger] out@[j].1).wf(),
            decreases n - i,
        {
            let key = self.entries[i].0.index;
            if key != index {
                let a = self.entries[i].0.clone();
                let mut s = self.entries[i].1.clone();
                s.remove_index(index);
                let ghost old_out = out@;
                out.push((a, s));
                proof {
                    assert forall|j: int, k: int| 0 <= j < k < out@.len() implies (
                    #[trigger] out@[j].0).index < (#[trigger] out@[k].0).index by {
                        if k < out@.len() - 1 {
                        } else {
                            let p = choose|p: int|
                                0 <= p < i && self.entries@[p].0.index == out@[j].0.index
                                    && out@[j].1@ =~= self.entries@[p].1@.remove(index as int);
                            assert(self.entries@[p].0.index < self.entries@[i as int].0.index);
                        }
                    }
                    assert forall|j: int| 0 <= j < out@.len() implies exists|p: int|
                        0 <= p < i + 1 && self.entries@[p].0.index == (#[trigger] out@[j].0).index
                            && out@[j].1@ =~= self.entries@[p].1@.remove(index as int) by {
                        if j < out@.len() - 1 {
                            let p = choose|p: int|
                                0 <= p < i && self.entries@[p].0.index == out@[j].0.index
                                    && out@[j].1@ =~= self.entries@[p].1@.remove(index as int);
                            assert(0 <= p < i + 1 && self.entries@[p].0.index == out@[j].0.index
                                && out@[j].1@ =~= self.entries@[p].1@.remove(index as int));
                        } else {
                            assert(self.entries@[i as int].0.index == out@[j].0.index && out@[j].1@
                                =~= self.entries@[i as int].1@.remove(index as int));
                        }
                    }
                    assert forall|p: int|
                        0 <= p < i + 1 && (#[trigger] self.entries@[p].0).index != index
                        implies exists|j: int|
                            0 <= j < out@.len() && (#[trigger] out@[j].0).index
                                == self.entries@[p].0.index by {
                        if p == i {
                            assert(out@[out@.len() - 1].0.index == self.entries@[i as int].0.index);
                        } else {
                            let j = choose|j: int|
                                0 <= j < old_out.len() && (old_out[j].0).index
                                    == self.entries@[p].0.index;
                            assert(out@[j].0.index == self.entries@[p].0.index);
                        }
                    }
                }
            }
            i = i + 1;
        }
        self.entries = out;
        proof {
            self.lemma_wf_facts();
            old(self).lemma_wf_facts();
            let keys_old = key_idxs(old(self).entries@);
            let keys_new = key_idxs(self.entries@);
            assert forall|x: int|
                self@.dom().contains(x) <==> (old(self)@.dom().contains(x) && x
                    != index as int) by {
                if self@.dom().contains(x) {
                    assert(keys_new.contains(x));
                    let j = choose|j: int| 0 <= j < keys_new.len() && keys_new[j] == x;
                    assert(self.entries@[j].0.index as int == x);
                    let p = choose|p: int|
                        0 <= p < n && old(self).entries@[p].0.index == self.entries@[j].0.index
                            && self.entries@[j].1@ =~= old(self).entries@[p].1@.remove(
                            index as int,
                        );
                    assert(keys_old[p] == x);
                    assert(keys_old.contains(x));
                    assert(x != index as int);
                }
                if old(self)@.dom().contains(x) && x != index as int {
                    assert(keys_old.contains(x));
                    let p = choose|p: int| 0 <= p < keys_old.len() && keys_old[p] == x;
                    assert(old(self).entries@[p].0.index as int == x);
                    let j = choose|j: int|
                        0 <= j < self.entries@.len() && self.entries@[j].0.index == old(
                            self,
                        ).entries@[p].0.index;
                    assert(keys_new[j] == x);
                    assert(keys_new.contains(x));
                }
            }
            assert(self@.dom() =~= old(self)@.dom().remove(index as int));
            assert forall|x: int| self@.dom().contains(x) implies self@[x] =~= old(
                self,
            )@[x].remove(index as int) by {
                let j = self.lemma_dom_index(x);
                assert(self@[x] == self.entries@[j].1@);
                let p = choose|p: int|
                    0 <= p < old(self).entries@.len() && old(self).entries@[p].0.index
                        == self.entries@[j].0.index && self.entries@[j].1@ =~= old(
                        self,
                    ).entries@[p].1@.remove(index as int);
                let k = old(self).lemma_dom_index(x);
                assert(k == p);
                assert(old(self)@[x] == old(self).entries@[p].1@);
            }
        }
    }

    /// A location whose recorded neighbour set has the fewest members; ties
    /// go to the smallest index.
    pub fn min_degree_key(&self) -> (a: Aloc)
        requires
            self.wf(),
            self@.dom().len() > 0,
        ensures
            self@.dom().contains(a.index as int),
            forall|x: int| self@.dom().contains(x) ==> self@[a.index as int].len() <= self@[x].len(),
            forall|x: int|
                self@.dom().contains(x) && self@[x].len() == self@[a.index as int].len()
                    ==> a.index as int <= x,
    {
        proof {
            self.lemma_wf_facts();
        }
        let n = self.entries.len();
        let mut best: usize = 0;
        let mut best_len: usize = self.entries[0].1.len();
        let mut i: usize = 1;
        while i < n
            invariant
                self.wf(),
                n == self.entries@.len(),
                0 < n,
                1 <= i <= n,
                0 <= best < i,
                best_len == self.entries@[best as int].1@.len(),
                forall|j: int|
                    0 <= j < i ==> best_len <= (#[trigger] self.entries@[j].1)@.len(),
                forall|j: int|
                    0 <= j < i && (#[trigger] self.entries@[j].1)@.len() == best_len ==> best <= j,
            decreases n - i,
        {
            let l = self.entries[i].1.len();
            if l < best_len {
                best = i;
                best_len = l;
            }
            i = i + 1;
        }
        let a = self.entries[best].0.clone();
        proof {
            assert(self@.dom().contains(a.index as int));
            assert(self@[a.index as int] == self.entries@[best as int].1@);
            assert forall|x: int| self@.dom().contains(x) implies self@[
                a.index as int
            ].len() <= self@[x].len() by {
                let j = self.lemma_dom_index(x);
                assert(self@[x] == self.entries@[j].1@);
            }
            assert forall|x: int|
                self@.dom().contains(x) && self@[x].len() == self@[a.index as int].len()
                implies a.index as int <= x by {
                let j = self.lemma_dom_index(x);
                assert(self@[x] == self.entries@[j].1@);
                assert(best <= j);
                if (best as int) < j {
                    assert(self.entries@[best as int].0.index < self.entries@[j].0.index);
                }
            }
        }
        a
    }
}

} // verus!
