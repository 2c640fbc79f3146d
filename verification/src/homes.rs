//! The two ways home locations are handed out, and the passes that run the
//! whole allocation front to back.
//!
//! `assign_fvars` is the naive allocator: every local goes straight to a
//! frame variable, the k-th smallest index to slot k.  `assign_homes` runs
//! it after collecting the locals; `assign_homes_opt` runs the full
//! graph-colouring pipeline instead: locals, liveness, conflicts, register
//! assignment, then the rewrite.

use vstd::prelude::*;

use crate::allocate::alloc_post;
use crate::asm_pred_lang::{
    assignment_of, locals_of, program_info, program_tail, tail_alocs, AsmLang, Effect, Info,
    Pred, Tail, P,
};
use crate::assignment::Assignment;
use crate::conflicts::{conf_effect_model, conf_effects_model, conf_pred_model, conf_tail_model};
use crate::nested_asm_lang::{tail_view, NestedAsmLang};
use crate::paren_x64_fvars::Loc;
use crate::replace::replace_tail_model;
use crate::sets::AlocSet;
use crate::undead::{undead_effect_model, undead_effects_model, undead_pred_model, undead_tail_model};
use crate::utils::{Fvar, Reg};

verus! {

/// The slot number of a frame-variable location.
pub open spec fn fvar_slot(l: Loc) -> int
    recommends
        l is Fvar,
{
    l->Fvar_0.index as int
}

/// What the naive allocator promises: total over the locals, every value a
/// frame variable, slots below the number of locals, and slot order
/// matching index order — so the k-th smallest local holds slot k.
pub open spec fn fvar_assign_post(a: Map<int, Loc>, locals: Set<int>) -> bool {
    &&& a.dom() == locals
    &&& forall|x: int| #[trigger] a.dom().contains(x) ==> a[x] is Fvar
    &&& forall|x: int| #[trigger] a.dom().contains(x) ==> 0 <= fvar_slot(a[x]) < locals.len()
    &&& forall|x: int, y: int|
        a.dom().contains(x) && a.dom().contains(y) && x < y ==> fvar_slot(a[x]) < fvar_slot(a[y])
}

impl AsmLang {
    /// Assigns each local, in ascending index order, a fresh frame
    /// variable: slot 0, slot 1, and so on.
    pub fn assign_fvars(self) -> (r: AsmLang)
        requires
            program_info(self.0).locals matches Some(l) && l.wf(),
        ensures
            program_tail(r.0) == program_tail(self.0),
            program_info(r.0).locals == program_info(self.0).locals,
            program_info(r.0).undead_out == program_info(self.0).undead_out,
            program_info(r.0).conflicts == program_info(self.0).conflicts,
            program_info(r.0).assignment matches Some(a) && a.wf() && fvar_assign_post(
                a@,
                locals_of(program_info(self.0))@,
            ),
    {
        let AsmLang(p) = self;
        match p {
            P::Module { info, tail } => {
                let Info { locals, assignment: _, undead_out, conflicts } = info;
                match locals {
                    Some(l) => {
                        let a = fvars_for(&l);
                        let info = Info {
                            locals: Some(l),
                            assignment: Some(a),
                            undead_out,
                            conflicts,
                        };
                        AsmLang(P::Module { info, tail })
                    },
                    None => {
                        let info = Info { locals: None, assignment: None, undead_out, conflicts };
                        AsmLang(P::Module { info, tail })
                    },
                }
            },
        }
    }

    /// The whole naive pipeline: collect the locals, give each a frame
    /// variable, and rewrite the program.
    pub fn assign_homes(self) -> (r: NestedAsmLang)
        ensures
            exists|asgn: Assignment|
                (#[trigger] asgn.wf()) && fvar_assign_post(
                    asgn@,
                    tail_alocs(program_tail(self.0)),
                ) && (r.0 matches crate::nested_asm_lang::P::Module(t) && tail_view(t)
                    == replace_tail_model(program_tail(self.0), asgn@)),
    {
        let ghost tail0 = program_tail(self.0);
        let p = self.uncover_locals();
        let p = p.assign_fvars();
        let ghost w = assignment_of(program_info(p.0));
        proof {
            assert(tail_alocs(tail0) <= w@.dom());
        }
        let r = p.replace_locations();
        proof {
            assert(w.wf() && fvar_assign_post(w@, tail_alocs(tail0)) && (r.0
                matches crate::nested_asm_lang::P::Module(t) && tail_view(t)
                == replace_tail_model(tail0, w@)));
        }
        r
    }

    /// The whole graph-colouring pipeline: collect the locals, analyse
    /// liveness, build the conflict graph, colour with the given register
    /// pool, and rewrite the program.
    pub fn assign_homes_opt(self, regs: &Vec<Reg>) -> (r: NestedAsmLang)
        ensures
            exists|asgn: Assignment|
                (#[trigger] asgn.wf()) && alloc_post(
                    asgn,
                    tail_alocs(program_tail(self.0)),
                    regs@,
                ) && (r.0 matches crate::nested_asm_lang::P::Module(t) && tail_view(t)
                    == replace_tail_model(program_tail(self.0), asgn@)),
    {
        let ghost tail0 = program_tail(self.0);
        let p = self.uncover_locals();
        let ghost locals0 = locals_of(program_info(p.0));
        let p = p.undead_analysis();
        let p = p.conflict_analysis();
        proof {
            lemma_conf_tail_dom(tail0, Set::empty(), crate::conflicts::empty_graph_of(locals0@));
            assert(crate::conflicts::empty_graph_of(locals0@).dom() =~= locals0@);
            let g = program_info(p.0).conflicts->Some_0;
            assert(g@.dom() =~= locals0@) by {
                assert(g@.dom() <= crate::conflicts::empty_graph_of(locals0@).dom().union(
                    tail_alocs(tail0),
                ));
                assert(crate::conflicts::empty_graph_of(locals0@).dom() <= g@.dom());
            }
        }
        let p = p.assign_registers(regs);
        let ghost w = assignment_of(program_info(p.0));
        proof {
            assert(tail_alocs(tail0) <= w@.dom());
        }
        let r = p.replace_locations();
        proof {
            assert(w.wf() && alloc_post(w, tail_alocs(tail0), regs@) && (r.0
                matches crate::nested_asm_lang::P::Module(t) && tail_view(t)
                == replace_tail_model(tail0, w@)));
        }
        r
    }
}

/// The frame-variable assignment of a well-formed locals set.
fn fvars_for(l: &AlocSet) -> (a: Assignment)
    requires
        l.wf(),
    ensures
        a.wf(),
        fvar_assign_post(a@, l@),
{
    proof {
        l.lemma_view_facts();
        l.lemma_idx_seq_sorted();
    }
    let n = l.len();
    let mut a = Assignment::new();
    let mut k: usize = 0;
    proof {
        assert(l.idx_seq().take(0) =~= Seq::<int>::empty());
        assert(a@.dom() =~= l.idx_seq().take(0).to_set());
    }
    while k < n
        invariant
            l.wf(),
            n == l.idx_seq().len(),
            0 <= k <= n,
            a.wf(),
            a@.dom() =~= l.idx_seq().take(k as int).to_set(),
            forall|j: int| 0 <= j < k ==> a@.dom().contains(#[trigger] l.idx_seq()[j]),
            forall|j: int|
                0 <= j < k ==> a@[#[trigger] l.idx_seq()[j]] == Loc::Fvar(
                    Fvar { index: j as usize },
                ),
        decreases n - k,
    {
        let aloc = l.elem_at(k).clone();
        proof {
            l.lemma_idx_seq_sorted();
            if a@.dom().contains(aloc.index as int) {
                assert(l.idx_seq().take(k as int).to_set().contains(aloc.index as int));
                let j = choose|j: int|
                    0 <= j < l.idx_seq().take(k as int).len() && l.idx_seq().take(k as int)[j]
                        == aloc.index as int;
                assert(l.idx_seq()[j] == l.idx_seq()[k as int]);
            }
        }
        a.insert(aloc, Loc::Fvar(Fvar { index: k }));
        proof {
            assert(l.idx_seq().take(k + 1).drop_last() =~= l.idx_seq().take(k as int));
            assert(l.idx_seq().take(k + 1).last() == l.idx_seq()[k as int]);
            assert(l.idx_seq().take(k + 1).to_set() =~= l.idx_seq().take(k as int).to_set().insert(
                l.idx_seq()[k as int],
            ));
        }
        k = k + 1;
    }
    proof {
        l.lemma_view_facts();
        l.lemma_idx_seq_sorted();
        assert(l.idx_seq().take(n as int) =~= l.idx_seq());
        assert(a@.dom() =~= l@) by {
            assert(forall|x: int| l@.contains(x) <==> l.idx_seq().contains(x));
            assert(forall|x: int|
                l.idx_seq().to_set().contains(x) <==> l.idx_seq().contains(x));
        }
        assert forall|x: int| #[trigger] a@.dom().contains(x) implies a@[x] is Fvar && 0
            <= fvar_slot(a@[x]) < l@.len() by {
            assert(l.idx_seq().contains(x));
            let j = choose|j: int| 0 <= j < l.idx_seq().len() && l.idx_seq()[j] == x;
            assert(a@[l.idx_seq()[j]] == Loc::Fvar(Fvar { index: j as usize }));
        }
        assert forall|x: int, y: int|
            a@.dom().contains(x) && a@.dom().contains(y) && x < y implies fvar_slot(a@[x])
            < fvar_slot(a@[y]) by {
            assert(l.idx_seq().contains(x));
            assert(l.idx_seq().contains(y));
            let jx = choose|j: int| 0 <= j < l.idx_seq().len() && l.idx_seq()[j] == x;
            let jy = choose|j: int| 0 <= j < l.idx_seq().len() && l.idx_seq()[j] == y;
            assert(a@[l.idx_seq()[jx]] == Loc::Fvar(Fvar { index: jx as usize }));
            assert(a@[l.idx_seq()[jy]] == Loc::Fvar(Fvar { index: jy as usize }));
            if jx > jy {
                assert(l.idx_seq()[jy] < l.idx_seq()[jx]);
            }
            if jx == jy {
            }
            assert(jx < jy);
        }
    }
    a
}

/// The conflict walk only ever adds keys for locations the program
/// references.
pub proof fn lemma_conf_tail_dom(t: Tail, live: Set<int>, g: Map<int, Set<int>>)
    ensures
        g.dom() <= conf_tail_model(t, live, g).dom(),
        conf_tail_model(t, live, g).dom() <= g.dom().union(tail_alocs(t)),
    decreases t, 0int,
{
    match t {
        Tail::Halt(_) => {},
        Tail::Begin { effects, tail } => {
            let tl = undead_tail_model(*tail, live).1;
            let g1 = conf_tail_model(*tail, live, g);
            lemma_conf_tail_dom(*tail, live, g);
            lemma_conf_effects_dom(effects@, tl, g1);
        },
        Tail::IfElse { pred, tail1, tail2 } => {
            let l1 = undead_tail_model(*tail1, live).1;
            let l2 = undead_tail_model(*tail2, live).1;
            let g1 = conf_pred_model(pred, l1.union(l2), g);
            let g2 = conf_tail_model(*tail1, live, g1);
            lemma_conf_pred_dom(pred, l1.union(l2), g);
            lemma_conf_tail_dom(*tail1, live, g1);
            lemma_conf_tail_dom(*tail2, live, g2);
        },
    }
}

pub proof fn lemma_conf_effects_dom(es: Seq<Effect>, live: Set<int>, g: Map<int, Set<int>>)
    ensures
        g.dom() <= conf_effects_model(es, live, g).dom(),
        conf_effects_model(es, live, g).dom() <= g.dom().union(crate::asm_pred_lang::effects_alocs(
            es,
        )),
    decreases es, es.len(),
{
    if es.len() > 0 {
        let rest = es.subrange(1, es.len() as int);
        let rest_live = undead_effects_model(rest, live).1;
        let g1 = conf_effect_model(es[0], rest_live, g);
        lemma_conf_effect_dom(es[0], rest_live, g);
        lemma_conf_effects_dom(rest, live, g1);
    }
}

pub proof fn lemma_conf_effect_dom(e: Effect, live: Set<int>, g: Map<int, Set<int>>)
    ensures
        g.dom() <= conf_effect_model(e, live, g).dom(),
        conf_effect_model(e, live, g).dom() <= g.dom().union(crate::asm_pred_lang::effect_alocs(
            e,
        )),
    decreases e, 0int,
{
    match e {
        Effect::Assign { aloc, triv } => {},
        Effect::AssignBinop { aloc, binop, triv } => {},
        Effect::Begin(effects) => {
            lemma_conf_effects_dom(effects@, live, g);
        },
        Effect::IfElse { pred, effect1, effect2 } => {
            let l1 = undead_effect_model(*effect1, live).1;
            let l2 = undead_effect_model(*effect2, live).1;
            let g1 = conf_pred_model(pred, l1.union(l2), g);
            let g2 = conf_effect_model(*effect1, live, g1);
            lemma_conf_pred_dom(pred, l1.union(l2), g);
            lemma_conf_effect_dom(*effect1, live, g1);
            lemma_conf_effect_dom(*effect2, live, g2);
        },
    }
}

pub proof fn lemma_conf_pred_dom(p: Pred, live: Set<int>, g: Map<int, Set<int>>)
    ensures
        g.dom() <= conf_pred_model(p, live, g).dom(),
        conf_pred_model(p, live, g).dom() <= g.dom().union(crate::asm_pred_lang::pred_alocs(p)),
    decreases p, 0int,
{
    match p {
        Pred::Compare { relop, aloc, triv } => {},
        Pred::True => {},
        Pred::False => {},
        Pred::Not(pred) => {
            lemma_conf_pred_dom(*pred, live, g);
        },
        Pred::Begin { effects, pred } => {
            let pl = undead_pred_model(*pred, live).1;
            let g1 = conf_effects_model(effects@, pl, g);
            lemma_conf_effects_dom(effects@, pl, g);
            lemma_conf_pred_dom(*pred, live, g1);
        },
        Pred::IfElse { pred1, pred2, pred3 } => {
            let l2 = undead_pred_model(*pred2, live).1;
            let l3 = undead_pred_model(*pred3, live).1;
            let g1 = conf_pred_model(*pred1, l2.union(l3), g);
            let g2 = conf_pred_model(*pred2, live, g1);
            lemma_conf_pred_dom(*pred1, l2.union(l3), g);
            lemma_conf_pred_dom(*pred2, live, g1);
            lemma_conf_pred_dom(*pred3, live, g2);
        },
    }
}

} // verus!
