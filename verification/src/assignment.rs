//! The allocator's result: a finite map from abstract location to assigned
//! physical location, held sorted by location index.

use vstd::prelude::*;

use crate::paren_x64_fvars::Loc;
use crate::utils::Aloc;

verus! {

/// A finite map from location index to physical location, sorted by key.
#[derive(Debug, PartialEq, Eq)]
pub struct Assignment {
    entries: Vec<(Aloc, Loc)>,
}

/// The key indices of a run of entries, in the order they stand.
spec fn key_idxs(s: Seq<(Aloc, Loc)>) -> Seq<int> {
    s.map_values(|e: (Aloc, Loc)| e.0.index as int)
}

/// The map a run of entries denotes, later entries overriding earlier ones.
spec fn entries_map(s: Seq<(Aloc, Loc)>) -> Map<int, Loc>
    decreases s.len(),
{
    if s.len() == 0 {
        Map::empty()
    } else {
        entries_map(s.drop_last()).insert(s.last().0.index as int, s.last().1)
    }
}

/// With distinct keys, the denoted map reads back exactly the entries.
proof fn lemma_entries_map(s: Seq<(Aloc, Loc)>)
    requires
        key_idxs(s).no_duplicates(),
    ensures
        entries_map(s).dom() =~= key_idxs(s).to_set(),
        entries_map(s).dom().finite(),
        entries_map(s).dom().len() == s.len(),
        forall|j: int|
            0 <= j < s.len() ==> entries_map(s)[#[trigger] s[j].0.index as int] == s[j].1,
    decreases s.len(),
{
    key_idxs(s).unique_seq_to_set();
    if s.len() > 0 {
        let rest = s.drop_last();
        assert(key_idxs(rest) =~= key_idxs(s).drop_last());
        assert(key_idxs(rest).no_duplicates());
        lemma_entries_map(rest);
        assert(entries_map(s).dom() =~= key_idxs(s).to_set()) by {
            assert forall|x: int| entries_map(s).dom().contains(x) implies key_idxs(s).to_set()
                .contains(x) by {
                if x == s.last().0.index as int {
                    assert(key_idxs(s)[s.len() - 1] == x);
                    assert(key_idxs(s).contains(x));
                } else {
                    assert(key_idxs(rest).to_set().contains(x));
                    let j = choose|j: int| 0 <= j < key_idxs(rest).len() && key_idxs(rest)[j] == x;
                    assert(key_idxs(s)[j] == x);
                    assert(key_idxs(s).contains(x));
                }
            }
            assert forall|x: int| key_idxs(s).to_set().contains(x)
                implies entries_map(s).dom().contains(x) by {
                let j = choose|j: int| 0 <= j < key_idxs(s).len() && key_idxs(s)[j] == x;
                if j == s.len() - 1 {
                } else {
                    assert(key_idxs(rest)[j] == x);
                    assert(key_idxs(rest).contains(x));
                    assert(key_idxs(rest).to_set().contains(x));
                }
            }
        }
        assert forall|j: int| 0 <= j < s.len() implies entries_map(s)[
        #[trigger] s[j].0.index as int] == s[j].1 by {
            if j == s.len() - 1 {
            } else {
                assert(rest[j] == s[j]);
                assert(entries_map(rest)[s[j].0.index as int] == s[j].1);
                assert(key_idxs(s)[j] == s[j].0.index as int);
                assert(key_idxs(s)[s.len() - 1] == s.last().0.index as int);
                assert(s[j].0.index as int != s.last().0.index as int);
            }
        }
    }
}

impl View for Assignment {
    type V = Map<int, Loc>;

    closed spec fn view(&self) -> Map<int, Loc> {
        entries_map(self.entries@)
    }
}

impl Assignment {
    /// Entries are strictly ascending by key index.
    pub closed spec fn wf(&self) -> bool {
        forall|i: int, j: int|
            0 <= i < j < self.entries@.len() ==> self.entries@[i].0.index < self.entries@[j].0.index
    }

    /// How many of the entries assign a frame variable.
    pub closed spec fn fvar_count(&self) -> int {
        count_fvar_entries(self.entries@)
    }

    /// How the map relates to the stored entries.
    proof fn lemma_view_facts(&self)
        requires
            self.wf(),
        ensures
            self@.dom().finite(),
            self@.dom().len() == self.entries@.len(),
            forall|x: int| self@.dom().contains(x) <==> key_idxs(self.entries@).contains(x),
            forall|j: int|
                0 <= j < self.entries@.len() ==> self@.dom().contains(
                    #[trigger] self.entries@[j].0.index as int,
                ),
            forall|j: int|
                0 <= j < self.entries@.len() ==> self@[#[trigger] self.entries@[j].0.index as int]
                    == self.entries@[j].1,
    {
        let s = self.entries@;
        let keys = key_idxs(s);
        assert(keys.no_duplicates()) by {
            assert forall|i: int, j: int|
                0 <= i < keys.len() && 0 <= j < keys.len() && i != j implies keys[i] != keys[j] by {
                if i < j {
                    assert(s[i].0.index < s[j].0.index);
                } else {
                    assert(s[j].0.index < s[i].0.index);
                }
            }
        }
        lemma_entries_map(s);
        keys.unique_seq_to_set();
        assert forall|j: int| 0 <= j < s.len() implies self@.dom().contains(
            #[trigger] s[j].0.index as int,
        ) by {
            assert(keys[j] == s[j].0.index as int);
            assert(keys.contains(keys[j]));
        }
    }

    /// The entry position a mapped index lives at.
    proof fn lemma_dom_index(&self, x: int) -> (j: int)
        requires
            self.wf(),
            self@.dom().contains(x),
        ensures
            0 <= j < self.entries@.len(),
            self.entries@[j].0.index as int == x,
            self@[x] == self.entries@[j].1,
    {
        self.lemma_view_facts();
        assert(key_idxs(self.entries@).contains(x));
        let j = choose|j: int|
            0 <= j < key_idxs(self.entries@).len() && key_idxs(self.entries@)[j] == x;
        assert(self.entries@[j].0.index as int == x);
        j
    }

    /// The empty assignment.
    pub fn new() -> (a: Assignment)
        ensures
            a.wf(),
            a@ =~= Map::<int, Loc>::empty(),
            a.fvar_count() == 0,
    {
        let a = Assignment { entries: Vec::new() };
        proof {
            assert(a@.dom() =~= Set::<int>::empty());
            assert(a@ =~= Map::<int, Loc>::empty());
        }
        a
    }

    /// How many locations are assigned.
    pub fn len(&self) -> (n: usize)
        requires
            self.wf(),
        ensures
            n == self@.dom().len(),
    {
        proof {
            self.lemma_view_facts();
        }
        self.entries.len()
    }

    /// The physical location assigned to the given index, if any.
    pub fn get(&self, index: usize) -> (r: Option<Loc>)
        requires
            self.wf(),
        ensures
            match r {
                Some(loc) => self@.dom().contains(index as int) && self@[index as int] == loc,
                None => !self@.dom().contains(index as int),
            },
    {
        proof {
            self.lemma_view_facts();
        }
        let n = self.entries.len();
        let mut i: usize = 0;
        while i < n
            invariant
                self.wf(),
                n == self.entries@.len(),
                0 <= i <= n,
                forall|j: int| 0 <= j < i ==> (#[trigger] self.entries@[j].0).index != index,
            decreases n - i,
        {
            if self.entries[i].0.index == index {
                proof {
                    self.lemma_view_facts();
                    let j = self.lemma_dom_index(index as int);
                    assert(j == i);
                }
                return Some(self.entries[i].1);
            }
            i = i + 1;
        }
        proof {
            if self@.dom().contains(index as int) {
                let j = self.lemma_dom_index(index as int);
            }
        }
        None
    }

    /// Whether the given physical location is already the target of some
    /// entry.
    pub fn uses_loc(&self, loc: Loc) -> (r: bool)
        requires
            self.wf(),
        ensures
            r == exists|x: int| #[trigger] self@.dom().contains(x) && self@[x] == loc,
    {
        proof {
            self.lemma_view_facts();
        }
        let n = self.entries.len();
        let mut i: usize = 0;
        while i < n
            invariant
                self.wf(),
                n == self.entries@.len(),
                0 <= i <= n,
                forall|j: int| 0 <= j < i ==> (#[trigger] self.entries@[j].1) != loc,
            decreases n - i,
        {
            if loc_eq(self.entries[i].1, loc) {
                proof {
                    self.lemma_view_facts();
                    assert(self@.dom().contains(self.entries@[i as int].0.index as int));
                    assert(self@[self.entries@[i as int].0.index as int] == loc);
                }
                return true;
            }
            i = i + 1;
        }
        proof {
            if exists|x: int| #[trigger] self@.dom().contains(x) && self@[x] == loc {
                let x = choose|x: int| #[trigger] self@.dom().contains(x) && self@[x] == loc;
                let j = self.lemma_dom_index(x);
                assert(self.entries@[j].1 == loc);
            }
        }
        false
    }

    /// How many entries assign a frame variable.
    pub fn count_fvars(&self) -> (n: usize)
        requires
            self.wf(),
        ensures
            n == self.fvar_count(),
            n <= self@.dom().len(),
    {
        proof {
            self.lemma_view_facts();
            lemma_count_fvar_entries_bound(self.entries@);
        }
        let len = self.entries.len();
        let mut n: usize = 0;
        let mut i: usize = 0;
        while i < len
            invariant
                self.wf(),
                len == self.entries@.len(),
                0 <= i <= len,
                n == count_fvar_entries(self.entries@.take(i as int)),
                n <= i,
            decreases len - i,
        {
            proof {
                assert(self.entries@.take(i + 1).drop_last() =~= self.entries@.take(i as int));
                lemma_count_fvar_entries_bound(self.entries@.take(i + 1));
            }
            match self.entries[i].1 {
                Loc::Fvar(_) => {
                    n = n + 1;
                },
                Loc::Reg(_) => {},
            }
            i = i + 1;
        }
        proof {
            assert(self.entries@.take(len as int) =~= self.entries@);
        }
        n
    }

    /// Adds an entry for a location that has none yet.
    #[verifier::rlimit(100)]
    pub fn insert(&mut self, a: Aloc, loc: Loc)
        requires
            old(self).wf(),
            !old(self)@.dom().contains(a.index as int),
        ensures
            final(self).wf(),
            final(self)@ =~= old(self)@.insert(a.index as int, loc),
            final(self).fvar_count() == old(self).fvar_count() + (if loc is Fvar {
                1int
            } else {
                0int
            }),
    {
        proof {
            self.lemma_view_facts();
        }
        let n = self.entries.len();
        let mut i: usize = 0;
        while i < n && self.entries[i].0.index < a.index
            invariant
                *self == *old(self),
                n == self.entries@.len(),
                0 <= i <= n,
                forall|j: int| 0 <= j < i ==> (#[trigger] self.entries@[j].0).index < a.index,
            decreases n - i,
        {
            i = i + 1;
        }
        assert(i < n ==> self.entries@[i as int].0.index >= a.index);
        assert(i < n ==> self.entries@[i as int].0.index != a.index) by {
            if i < n && self.entries@[i as int].0.index == a.index {
                assert(key_idxs(self.entries@)[i as int] == a.index as int);
                assert(key_idxs(self.entries@).contains(a.index as int));
                assert(old(self)@.dom().contains(a.index as int));
            }
        }
        let ghost old_entries = self.entries@;
        self.entries.insert(i, (a, loc));
        proof {
            assert(self.entries@ =~= old_entries.insert(i as int, (a, loc)));
            assert forall|p: int, q: int| 0 <= p < q < self.entries@.len()
                implies self.entries@[p].0.index < self.entries@[q].0.index by {
                if p < i && q == i {
                    assert(self.entries@[p] == old_entries[p]);
                } else if p == i && q > i {
                    assert(self.entries@[q] == old_entries[q - 1]);
                    if q - 1 > i {
                        assert(old_entries[i as int].0.index < old_entries[q - 1].0.index);
                    }
                } else if p < i && q > i {
                    assert(self.entries@[p] == old_entries[p]);
                    assert(self.entries@[q] == old_entries[q - 1]);
                    assert(old_entries[p].0.index < old_entries[q - 1].0.index);
                } else if p > i && q > i {
                    assert(self.entries@[p] == old_entries[p - 1]);
                    assert(self.entries@[q] == old_entries[q - 1]);
                    assert(old_entries[p - 1].0.index < old_entries[q - 1].0.index);
                }
            }
            self.lemma_view_facts();
            old(self).lemma_view_facts();
            let s_new = self.entries@;
            assert forall|x: int|
                self@.dom().contains(x) <==> old(self)@.insert(
                    a.index as int,
                    loc,
                ).dom().contains(x) by {
                if self@.dom().contains(x) {
                    assert(key_idxs(s_new).contains(x));
                    let j = choose|j: int|
                        0 <= j < key_idxs(s_new).len() && key_idxs(s_new)[j] == x;
                    if j == i {
                    } else if j < i {
                        assert(key_idxs(old_entries)[j] == x);
                        assert(key_idxs(old_entries).contains(x));
                    } else {
                        assert(key_idxs(old_entries)[j - 1] == x);
                        assert(key_idxs(old_entries).contains(x));
                    }
                }
                if old(self)@.dom().contains(x) {
                    assert(key_idxs(old_entries).contains(x));
                    let j = choose|j: int|
                        0 <= j < key_idxs(old_entries).len() && key_idxs(old_entries)[j] == x;
                    if j < i {
                        assert(key_idxs(s_new)[j] == x);
                    } else {
                        assert(key_idxs(s_new)[j + 1] == x);
                    }
                    assert(key_idxs(s_new).contains(x));
                }
                if x == a.index as int {
                    assert(key_idxs(s_new)[i as int] == x);
                    assert(key_idxs(s_new).contains(x));
                }
            }
            assert forall|x: int| self@.dom().contains(x) implies self@[x] == old(self)@.insert(
                a.index as int,
                loc,
            )[x] by {
                let j = self.lemma_dom_index(x);
                assert(self@[x] == s_new[j].1);
                if x == a.index as int {
                    assert(j == i) by {
                        if j < i {
                            assert(old_entries[j].0.index < a.index);
                        } else if j > i {
                            assert(s_new[j] == old_entries[j - 1]);
                            assert(old_entries[j - 1].0.index >= old_entries[i as int].0.index
                                || j - 1 == i);
                        }
                    }
                } else {
                    assert(j != i);
                    if j < i {
                        assert(s_new[j] == old_entries[j]);
                        let k = old(self).lemma_dom_index(x);
                        assert(k == j);
                    } else {
                        assert(s_new[j] == old_entries[j - 1]);
                        let k = old(self).lemma_dom_index(x);
                        assert(k == j - 1);
                    }
                }
            }
            assert(self@ =~= old(self)@.insert(a.index as int, loc));
            lemma_count_fvar_entries_insert(old_entries, i as int, (a, loc));
        }
    }
}

/// Compares two physical locations.
pub fn loc_eq(a: Loc, b: Loc) -> (r: bool)
    ensures
        r == (a == b),
{
    match (a, b) {
        (Loc::Reg(r1), Loc::Reg(r2)) => r1 == r2,
        (Loc::Fvar(f1), Loc::Fvar(f2)) => f1.index == f2.index,
        _ => false,
    }
}

/// How many of the entries assign a frame variable.
spec fn count_fvar_entries(s: Seq<(Aloc, Loc)>) -> int
    decreases s.len(),
{
    if s.len() == 0 {
        0
    } else {
        count_fvar_entries(s.drop_last()) + (if s.last().1 is Fvar {
            1int
        } else {
            0int
        })
    }
}

proof fn lemma_count_fvar_entries_bound(s: Seq<(Aloc, Loc)>)
    ensures
        0 <= count_fvar_entries(s) <= s.len(),
    decreases s.len(),
{
    if s.len() > 0 {
        lemma_count_fvar_entries_bound(s.drop_last());
    }
}

/// Counting is insensitive to where an entry is inserted.
proof fn lemma_count_fvar_entries_insert(s: Seq<(Aloc, Loc)>, i: int, e: (Aloc, Loc))
    requires
        0 <= i <= s.len(),
    ensures
        count_fvar_entries(s.insert(i, e)) == count_fvar_entries(s) + (if e.1 is Fvar {
            1int
        } else {
            0int
        }),
    decreases s.len(),
{
    if i == s.len() {
        assert(s.insert(i, e).drop_last() =~= s);
        assert(s.insert(i, e).last() == e);
    } else {
        assert(s.insert(i, e).drop_last() =~= s.drop_last().insert(i, e));
        assert(s.insert(i, e).last() == s.last());
        lemma_count_fvar_entries_insert(s.drop_last(), i, e);
    }
}

} // verus!
