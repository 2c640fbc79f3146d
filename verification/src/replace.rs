//! The rewriter: replaces every abstract location in a program by the
//! physical location its assignment gives it, producing the isomorphic
//! tree of the next stage.  Looking up a location the assignment lacks
//! would be a compiler-internal bug, so the pass demands an assignment
//! that covers every referenced location.

use vstd::prelude::*;

use crate::asm_pred_lang::{
    assignment_of, effect_alocs, effects_alocs, pred_alocs, program_info, program_tail,
    tail_alocs, triv_alocs, AsmLang, Effect, Pred, Tail, Triv, P,
};
use crate::assignment::Assignment;
use crate::nested_asm_lang as target;
use crate::nested_asm_lang::{
    effect_view, effects_view, lemma_effects_view_push, pred_view, tail_view, EffectS,
    NestedAsmLang, PredS, TailS,
};
use crate::para_asm_lang::Opand;
use crate::paren_x64_fvars::Loc;

verus! {

/// What an operand becomes under an assignment.
pub open spec fn replace_triv_model(t: Triv, a: Map<int, Loc>) -> Opand {
    match t {
        Triv::Int64(i) => Opand::Int64(i),
        Triv::Loc(al) => Opand::Loc(a[al.index as int]),
    }
}

/// What a tail becomes under an assignment.
pub open spec fn replace_tail_model(t: Tail, a: Map<int, Loc>) -> TailS
    decreases t, 0int,
{
    match t {
        Tail::Halt(triv) => TailS::Halt(replace_triv_model(triv, a)),
        Tail::Begin { effects, tail } => TailS::Begin {
            effects: replace_effects_model(effects@, a),
            tail: Box::new(replace_tail_model(*tail, a)),
        },
        Tail::IfElse { pred, tail1, tail2 } => TailS::IfElse {
            pred: replace_pred_model(pred, a),
            tail1: Box::new(replace_tail_model(*tail1, a)),
            tail2: Box::new(replace_tail_model(*tail2, a)),
        },
    }
}

pub open spec fn replace_effects_model(es: Seq<Effect>, a: Map<int, Loc>) -> Seq<EffectS>
    decreases es, es.len(),
{
    if es.len() == 0 {
        Seq::empty()
    } else {
        replace_effects_model(es.drop_last(), a).push(replace_effect_model(es.last(), a))
    }
}

pub open spec fn replace_effect_model(e: Effect, a: Map<int, Loc>) -> EffectS
    decreases e, 0int,
{
    match e {
        Effect::Assign { aloc, triv } => EffectS::Assign {
            loc: a[aloc.index as int],
            triv: replace_triv_model(triv, a),
        },
        Effect::AssignBinop { aloc, binop, triv } => EffectS::AssignBinop {
            loc: a[aloc.index as int],
            binop,
            triv: replace_triv_model(triv, a),
        },
        Effect::Begin(effects) => EffectS::Begin(replace_effects_model(effects@, a)),
        Effect::IfElse { pred, effect1, effect2 } => EffectS::IfElse {
            pred: replace_pred_model(pred, a),
            effect1: Box::new(replace_effect_model(*effect1, a)),
            effect2: Box::new(replace_effect_model(*effect2, a)),
        },
    }
}

pub open spec fn replace_pred_model(p: Pred, a: Map<int, Loc>) -> PredS
    decreases p, 0int,
{
    match p {
        Pred::Compare { relop, aloc, triv } => PredS::Compare {
            relop,
            loc: a[aloc.index as int],
            triv: replace_triv_model(triv, a),
        },
        Pred::True => PredS::True,
        Pred::False => PredS::False,
        Pred::Not(pred) => PredS::Not(Box::new(replace_pred_model(*pred, a))),
        Pred::Begin { effects, pred } => PredS::Begin {
            effects: replace_effects_model(effects@, a),
            pred: Box::new(replace_pred_model(*pred, a)),
        },
        Pred::IfElse { pred1, pred2, pred3 } => PredS::IfElse {
            pred1: Box::new(replace_pred_model(*pred1, a)),
            pred2: Box::new(replace_pred_model(*pred2, a)),
            pred3: Box::new(replace_pred_model(*pred3, a)),
        },
    }
}

/// Each effect of a run only references locations the whole run does.
pub proof fn lemma_effects_alocs_element(es: Seq<Effect>, j: int)
    requires
        0 <= j < es.len(),
    ensures
        effect_alocs(es[j]) <= effects_alocs(es),
    decreases es.len(),
{
    if j > 0 {
        lemma_effects_alocs_element(es.subrange(1, es.len() as int), j - 1);
        assert(es.subrange(1, es.len() as int)[j - 1] == es[j]);
    }
}

impl AsmLang {
    /// Rewrites the program into the next stage, replacing every abstract
    /// location by the physical location the assignment gives it.
    pub fn replace_locations(self) -> (r: NestedAsmLang)
        requires
            program_info(self.0).assignment matches Some(a) && a.wf() && tail_alocs(
                program_tail(self.0),
            ) <= a@.dom(),
        ensures
            r.0 matches target::P::Module(t) && tail_view(t) == replace_tail_model(
                program_tail(self.0),
                assignment_of(program_info(self.0))@,
            ),
    {
        let AsmLang(p) = self;
        match p {
            P::Module { info, tail } => {
                match info.assignment {
                    Some(a) => {
                        let t = replace_tail(&tail, &a);
                        NestedAsmLang(target::P::Module(t))
                    },
                    None => NestedAsmLang(target::P::Module(target::Tail::Halt(Opand::Int64(0)))),
                }
            },
        }
    }
}

fn replace_tail(t: &Tail, a: &Assignment) -> (r: target::Tail)
    requires
        a.wf(),
        tail_alocs(*t) <= a@.dom(),
    ensures
        tail_view(r) == replace_tail_model(*t, a@),
    decreases *t, 0int,
{
    match t {
        Tail::Halt(triv) => target::Tail::Halt(replace_triv(triv, a)),
        Tail::Begin { effects, tail } => {
            let es = replace_effects(effects, a);
            let nt = replace_tail(tail, a);
            target::Tail::Begin { effects: es, tail: Box::new(nt) }
        },
        Tail::IfElse { pred, tail1, tail2 } => {
            let np = replace_pred(pred, a);
            let n1 = replace_tail(tail1, a);
            let n2 = replace_tail(tail2, a);
            target::Tail::IfElse { pred: np, tail1: Box::new(n1), tail2: Box::new(n2) }
        },
    }
}

fn replace_effects(es: &Vec<Effect>, a: &Assignment) -> (r: Vec<target::Effect>)
    requires
        a.wf(),
        effects_alocs(es@) <= a@.dom(),
    ensures
        effects_view(r@) == replace_effects_model(es@, a@),
    decreases es@, es@.len(),
{
    let n = es.len();
    let mut out: Vec<target::Effect> = Vec::new();
    let mut i: usize = 0;
    proof {
        assert(es@.take(0) =~= Seq::<Effect>::empty());
        assert(effects_view(Seq::<target::Effect>::empty()) =~= Seq::<EffectS>::empty());
        assert(replace_effects_model(Seq::<Effect>::empty(), a@) =~= Seq::<EffectS>::empty());
    }
    while i < n
        invariant
            a.wf(),
            effects_alocs(es@) <= a@.dom(),
            n == es@.len(),
            0 <= i <= n,
            effects_view(out@) == replace_effects_model(es@.take(i as int), a@),
        decreases n - i,
    {
        proof {
            lemma_effects_alocs_element(es@, i as int);
        }
        let ne = replace_effect(&es[i], a);
        let ghost out0 = out@;
        out.push(ne);
        proof {
            lemma_effects_view_push(out0, ne);
            assert(es@.take(i + 1).drop_last() =~= es@.take(i as int));
            assert(es@.take(i + 1).last() == es@[i as int]);
        }
        i = i + 1;
    }
    proof {
        assert(es@.take(n as int) =~= es@);
    }
    out
}

fn replace_effect(e: &Effect, a: &Assignment) -> (r: target::Effect)
    requires
        a.wf(),
        effect_alocs(*e) <= a@.dom(),
    ensures
        effect_view(r) == replace_effect_model(*e, a@),
    decreases *e, 0int,
{
    match e {
        Effect::Assign { aloc, triv } => {
            proof {
                assert(effect_alocs(*e).contains(aloc.index as int));
            }
            let loc = lookup(aloc.index, a);
            target::Effect::Assign { loc, triv: replace_triv(triv, a) }
        },
        Effect::AssignBinop { aloc, binop, triv } => {
            proof {
                assert(effect_alocs(*e).contains(aloc.index as int));
            }
            let loc = lookup(aloc.index, a);
            target::Effect::AssignBinop { loc, binop: *binop, triv: replace_triv(triv, a) }
        },
        Effect::Begin(effects) => {
            let es = replace_effects(effects, a);
            target::Effect::Begin(es)
        },
        Effect::IfElse { pred, effect1, effect2 } => {
            let np = replace_pred(pred, a);
            let n1 = replace_effect(effect1, a);
            let n2 = replace_effect(effect2, a);
            target::Effect::IfElse { pred: np, effect1: Box::new(n1), effect2: Box::new(n2) }
        },
    }
}

fn replace_pred(p: &Pred, a: &Assignment) -> (r: target::Pred)
    requires
        a.wf(),
        pred_alocs(*p) <= a@.dom(),
    ensures
        pred_view(r) == replace_pred_model(*p, a@),
    decreases *p, 0int,
{
    match p {
        Pred::Compare { relop, aloc, triv } => {
            proof {
                assert(pred_alocs(*p).contains(aloc.index as int));
            }
            let loc = lookup(aloc.index, a);
            target::Pred::Compare { relop: *relop, loc, triv: replace_triv(triv, a) }
        },
        Pred::True => target::Pred::True,
        Pred::False => target::Pred::False,
        Pred::Not(pred) => target::Pred::Not(Box::new(replace_pred(pred, a))),
        Pred::Begin { effects, pred } => {
            let es = replace_effects(effects, a);
            let np = replace_pred(pred, a);
            target::Pred::Begin { effects: es, pred: Box::new(np) }
        },
        Pred::IfElse { pred1, pred2, pred3 } => {
            let n1 = replace_pred(pred1, a);
            let n2 = replace_pred(pred2, a);
            let n3 = replace_pred(pred3, a);
            target::Pred::IfElse {
                pred1: Box::new(n1),
                pred2: Box::new(n2),
                pred3: Box::new(n3),
            }
        },
    }
}

fn replace_triv(t: &Triv, a: &Assignment) -> (r: Opand)
    requires
        a.wf(),
        triv_alocs(*t) <= a@.dom(),
    ensures
        r == replace_triv_model(*t, a@),
{
    match t {
        Triv::Int64(i) => Opand::Int64(*i),
        Triv::Loc(aloc) => {
            proof {
                assert(triv_alocs(*t).contains(aloc.index as int));
            }
            Opand::Loc(lookup(aloc.index, a))
        },
    }
}

/// The location assigned to the given index, which the assignment must
/// cover.
fn lookup(index: usize, a: &Assignment) -> (r: Loc)
    requires
        a.wf(),
        a@.dom().contains(index as int),
    ensures
        r == a@[index as int],
{
    match a.get(index) {
        Some(loc) => loc,
        None => Loc::Reg(crate::utils::Reg::Rax),
    }
}

} // verus!
