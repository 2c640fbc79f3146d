//! Collecting the locals: the set of every abstract location a program
//! references, reading or writing, through all nesting.

use vstd::prelude::*;

use crate::asm_pred_lang::{
    effect_alocs, effects_alocs, pred_alocs, program_info, program_tail, tail_alocs, AsmLang,
    Effect, Info, Pred, Tail, Triv, P,
};
use crate::sets::AlocSet;

verus! {

impl AsmLang {
    /// Decorates the program with its locals set: exactly the abstract
    /// locations referenced anywhere in the tail.  The other side-table
    /// fields start over as not yet computed.
    pub fn uncover_locals(self) -> (r: AsmLang)
        ensures
            program_tail(r.0) == program_tail(self.0),
            program_info(r.0).locals matches Some(locals) && locals.wf() && locals@ =~= tail_alocs(
                program_tail(self.0),
            ),
            program_info(r.0).assignment is None,
            program_info(r.0).undead_out is None,
            program_info(r.0).conflicts is None,
    {
        let AsmLang(p) = self;
        match p {
            P::Module { info: _, tail } => {
                let locals = uncover_tail(&tail, AlocSet::new());
                let mut info = Info::new();
                info.locals = Some(locals);
                AsmLang(P::Module { info, tail })
            },
        }
    }
}

/// Folds the locations a tail references into the accumulator.
fn uncover_tail(t: &Tail, locals: AlocSet) -> (r: AlocSet)
    requires
        locals.wf(),
    ensures
        r.wf(),
        r@ =~= locals@.union(tail_alocs(*t)),
    decreases *t, 0int,
{
    match t {
        Tail::Halt(triv) => uncover_triv(triv, locals),
        Tail::Begin { effects, tail } => {
            let locals = uncover_effects(effects, 0, locals);
            proof {
                assert(effects@.subrange(0, effects@.len() as int) =~= effects@);
            }
            uncover_tail(tail, locals)
        },
        Tail::IfElse { pred, tail1, tail2 } => {
            let locals = uncover_pred(pred, locals);
            let locals = uncover_tail(tail1, locals);
            uncover_tail(tail2, locals)
        },
    }
}

/// Folds the locations of `es[k..]` into the accumulator.
fn uncover_effects(es: &Vec<Effect>, k: usize, locals: AlocSet) -> (r: AlocSet)
    requires
        locals.wf(),
        k <= es@.len(),
    ensures
        r.wf(),
        r@ =~= locals@.union(effects_alocs(es@.subrange(k as int, es@.len() as int))),
    decreases es@, es@.len() - k,
{
    if k == es.len() {
        proof {
            assert(effects_alocs(es@.subrange(k as int, es@.len() as int)) =~= Set::empty());
        }
        locals
    } else {
        let locals = uncover_effect(&es[k], locals);
        let r = uncover_effects(es, k + 1, locals);
        proof {
            let tailpart = es@.subrange(k as int, es@.len() as int);
            assert(tailpart[0] == es@[k as int]);
            assert(tailpart.subrange(1, tailpart.len() as int) =~= es@.subrange(
                k + 1,
                es@.len() as int,
            ));
        }
        r
    }
}

/// Folds the locations one effect references into the accumulator.
fn uncover_effect(e: &Effect, locals: AlocSet) -> (r: AlocSet)
    requires
        locals.wf(),
    ensures
        r.wf(),
        r@ =~= locals@.union(effect_alocs(*e)),
    decreases *e, 0int,
{
    match e {
        Effect::Assign { aloc, triv } => {
            let mut locals = locals;
            locals.insert(aloc.clone());
            uncover_triv(triv, locals)
        },
        Effect::AssignBinop { aloc, binop: _, triv } => {
            let mut locals = locals;
            locals.insert(aloc.clone());
            uncover_triv(triv, locals)
        },
        Effect::Begin(effects) => {
            let r = uncover_effects(effects, 0, locals);
            proof {
                assert(effects@.subrange(0, effects@.len() as int) =~= effects@);
            }
            r
        },
        Effect::IfElse { pred, effect1, effect2 } => {
            let locals = uncover_pred(pred, locals);
            let locals = uncover_effect(effect1, locals);
            uncover_effect(effect2, locals)
        },
    }
}

/// Folds the locations a predicate references into the accumulator.
fn uncover_pred(p: &Pred, locals: AlocSet) -> (r: AlocSet)
    requires
        locals.wf(),
    ensures
        r.wf(),
        r@ =~= locals@.union(pred_alocs(*p)),
    decreases *p, 0int,
{
    match p {
        Pred::Compare { relop: _, aloc, triv } => {
            let mut locals = locals;
            locals.insert(aloc.clone());
            uncover_triv(triv, locals)
        },
        Pred::True => locals,
        Pred::False => locals,
        Pred::Not(pred) => uncover_pred(pred, locals),
        Pred::Begin { effects, pred } => {
            let locals = uncover_effects(effects, 0, locals);
            let r = uncover_pred(pred, locals);
            proof {
                assert(effects@.subrange(0, effects@.len() as int) =~= effects@);
            }
            r
        },
        Pred::IfElse { pred1, pred2, pred3 } => {
            let locals = uncover_pred(pred1, locals);
            let locals = uncover_pred(pred2, locals);
            uncover_pred(pred3, locals)
        },
    }
}

/// Folds the location an operand reads, if any, into the accumulator.
fn uncover_triv(t: &Triv, locals: AlocSet) -> (r: AlocSet)
    requires
        locals.wf(),
    ensures
        r.wf(),
        r@ =~= locals@.union(crate::asm_pred_lang::triv_alocs(*t)),
{
    match t {
        Triv::Int64(_) => locals,
        Triv::Loc(aloc) => {
            let mut locals = locals;
            locals.insert(aloc.clone());
            locals
        },
    }
}

} // verus!
