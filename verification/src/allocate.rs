//! Graph-colouring register assignment with spill-to-frame fallback.
//!
//! Simplify: while locations remain, remove the one with the fewest
//! recorded neighbours (ties go to the smallest index) from the locals set
//! and the conflict graph.  Select, on the way back up: give the removed
//! location the first assignable register that no already-assigned location
//! holds — a deliberately conservative check against the whole partial
//! assignment, not just the neighbours — or, when none is free, a brand-new
//! frame slot.  Slots are numbered from zero in the order the select phase
//! mints them, so running out of registers is a designed fallback, never an
//! error.

use vstd::prelude::*;

use crate::asm_pred_lang::{locals_of, program_info, program_tail, AsmLang, Info, P};
use crate::assignment::Assignment;
use crate::graph::Graph;
use crate::paren_x64_fvars::Loc;
use crate::sets::AlocSet;
use crate::utils::{Fvar, Reg};

verus! {

/// Everything the allocator promises of its result: the assignment is
/// total over the locals, injective, hands out only assignable registers,
/// numbers its frame slots `0, 1, ...` without gaps, and spills everything
/// when no register is assignable.
/// Some location is assigned the frame slot numbered `j`.
pub open spec fn slot_used(asgn: Assignment, j: int) -> bool {
    exists|x: int|
        #[trigger] asgn@.dom().contains(x) && (asgn@[x] matches Loc::Fvar(f) && f.index as int
            == j)
}

pub open spec fn alloc_post(asgn: Assignment, locals: Set<int>, regs: Seq<Reg>) -> bool {
    &&& asgn@.dom() == locals
    &&& forall|x: int, y: int|
        asgn@.dom().contains(x) && asgn@.dom().contains(y) && x != y ==> asgn@[x] != asgn@[y]
    &&& forall|x: int|
        asgn@.dom().contains(x) ==> (#[trigger] asgn@[x] matches Loc::Reg(r) ==> regs.contains(r))
    &&& forall|x: int|
        asgn@.dom().contains(x) ==> (#[trigger] asgn@[x] matches Loc::Fvar(f) ==> 0 <= f.index
            < asgn.fvar_count())
    &&& forall|j: int| 0 <= j < asgn.fvar_count() ==> #[trigger] slot_used(asgn, j)
    &&& regs.len() == 0 ==> forall|x: int| asgn@.dom().contains(x) ==> asgn@[x] is Fvar
}

impl AsmLang {
    /// Replaces the locals and conflicts fields by a total assignment of
    /// physical locations, colouring with the given pool of assignable
    /// registers.
    pub fn assign_registers(self, regs: &Vec<Reg>) -> (r: AsmLang)
        requires
            program_info(self.0).locals matches Some(l) && l.wf(),
            program_info(self.0).conflicts matches Some(g) && g.wf() && g@.dom() == locals_of(
                program_info(self.0),
            )@,
        ensures
            program_tail(r.0) == program_tail(self.0),
            program_info(r.0).undead_out == program_info(self.0).undead_out,
            program_info(r.0).locals is None,
            program_info(r.0).conflicts is None,
            program_info(r.0).assignment matches Some(asgn) && asgn.wf() && alloc_post(
                asgn,
                locals_of(program_info(self.0))@,
                regs@,
            ),
    {
        let AsmLang(p) = self;
        match p {
            P::Module { info, tail } => {
                let Info { locals, assignment: _, undead_out, conflicts } = info;
                match (locals, conflicts) {
                    (Some(l), Some(g)) => {
                        let asgn = recursive_assign(l, g, regs);
                        let info = Info {
                            locals: None,
                            assignment: Some(asgn),
                            undead_out,
                            conflicts: None,
                        };
                        AsmLang(P::Module { info, tail })
                    },
                    (locals, conflicts) => {
                        let info = Info { locals, assignment: None, undead_out, conflicts: None };
                        AsmLang(P::Module { info, tail })
                    },
                }
            },
        }
    }
}

/// Simplify and select: eliminates the lowest-degree location, colours the
/// rest, then gives the eliminated location a free register or a fresh
/// frame slot.
fn recursive_assign(locals: AlocSet, conflicts: Graph, regs: &Vec<Reg>) -> (r: Assignment)
    requires
        locals.wf(),
        conflicts.wf(),
        conflicts@.dom() == locals@,
    ensures
        r.wf(),
        alloc_post(r, locals@, regs@),
    decreases locals@.len(),
{
    let ghost locals0 = locals@;
    proof {
        locals.lemma_view_facts();
    }
    if locals.is_empty() {
        let asgn = Assignment::new();
        proof {
            assert(asgn@.dom() =~= locals@);
            assert(locals@ =~= Set::<int>::empty());
        }
        asgn
    } else {
        let picked = conflicts.min_degree_key();
        proof {
            assert(locals@.contains(picked.index as int));
        }
        let mut locals = locals;
        locals.remove_index(picked.index);
        let mut conflicts = conflicts;
        conflicts.remove_node(picked.index);
        proof {
            assert(conflicts@.dom() =~= locals@);
        }
        let mut asgn = recursive_assign(locals, conflicts, regs);
        let loc = choose_loc(&asgn, regs);
        proof {
            assert(!asgn@.dom().contains(picked.index as int));
        }
        let ghost old_asgn = asgn;
        asgn.insert(picked, loc);
        proof {
            assert forall|x: int, y: int|
                asgn@.dom().contains(x) && asgn@.dom().contains(y) && x != y implies asgn@[x]
                != asgn@[y] by {
                if x != picked.index as int && y != picked.index as int {
                } else {
                    let other = if x == picked.index as int {
                        y
                    } else {
                        x
                    };
                    assert(asgn@[other] == old_asgn@[other]);
                    assert(asgn@[picked.index as int] == loc);
                    if loc is Fvar {
                        assert(old_asgn@[other] != loc);
                    }
                }
            }
            assert forall|j: int| 0 <= j < asgn.fvar_count() implies #[trigger] slot_used(
                asgn,
                j,
            ) by {
                if j < old_asgn.fvar_count() {
                    assert(slot_used(old_asgn, j));
                    let x = choose|x: int|
                        #[trigger] old_asgn@.dom().contains(x) && (old_asgn@[x] matches Loc::Fvar(
                            f,
                        ) && f.index as int == j);
                    assert(asgn@.dom().contains(x));
                    assert(asgn@[x] == old_asgn@[x]);
                } else {
                    assert(loc matches Loc::Fvar(f) && f.index as int == j);
                    assert(asgn@.dom().contains(picked.index as int));
                    assert(asgn@[picked.index as int] == loc);
                }
            }
            assert(asgn@.dom() =~= locals0);
            assert forall|x: int|
                asgn@.dom().contains(x) implies (#[trigger] asgn@[x] matches Loc::Reg(rr)
                ==> regs@.contains(rr)) by {
                if x != picked.index as int {
                    assert(asgn@[x] == old_asgn@[x]);
                } else {
                    assert(asgn@[x] == loc);
                }
            }
            assert forall|x: int|
                asgn@.dom().contains(x) implies (#[trigger] asgn@[x] matches Loc::Fvar(f) ==> 0
                <= f.index < asgn.fvar_count()) by {
                if x != picked.index as int {
                    assert(asgn@[x] == old_asgn@[x]);
                } else {
                    assert(asgn@[x] == loc);
                }
            }
            if regs@.len() == 0 {
                assert forall|x: int| asgn@.dom().contains(x) implies asgn@[x] is Fvar by {
                    if x != picked.index as int {
                        assert(asgn@[x] == old_asgn@[x]);
                    } else {
                        assert(asgn@[x] == loc);
                    }
                }
            }
        }
        asgn
    }
}

/// The first assignable register that no assigned location already holds,
/// or a brand-new frame slot when every register is taken or none is
/// assignable.
fn choose_loc(asgn: &Assignment, regs: &Vec<Reg>) -> (loc: Loc)
    requires
        asgn.wf(),
    ensures
        loc matches Loc::Reg(r) ==> regs@.contains(r) && !(exists|x: int|
            #[trigger] asgn@.dom().contains(x) && asgn@[x] == loc),
        loc matches Loc::Fvar(f) ==> f.index == asgn.fvar_count(),
        regs@.len() == 0 ==> loc is Fvar,
{
    let n = regs.len();
    let mut i: usize = 0;
    while i < n
        invariant
            asgn.wf(),
            n == regs@.len(),
            0 <= i <= n,
        decreases n - i,
    {
        let candidate = Loc::Reg(regs[i]);
        if !asgn.uses_loc(candidate) {
            return candidate;
        }
        i = i + 1;
    }
    let k = asgn.count_fvars();
    Loc::Fvar(Fvar { index: k })
}

} // verus!
