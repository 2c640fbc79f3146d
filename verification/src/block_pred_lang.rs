//! Labelled blocks whose conditional tails still carry a small predicate
//! language, and the pass that resolves those predicates into direct
//! comparison branches.

use vstd::prelude::*;

use crate::block_asm_lang as target;
use crate::block_asm_lang::{BlockAsmLang, Effect, EffectS};
use crate::para_asm_lang::{trg_view, Opand, Trg, TrgS};
use crate::paren_x64_fvars::Loc;
use crate::utils::{label_key, Label, Relop};

verus! {

/// A predicate deciding which target a conditional tail jumps to.
#[derive(Debug, PartialEq, Eq)]
pub enum Pred {
    Compare { relop: Relop, loc: Loc, opand: Opand },
    True,
    False,
    Not(Box<Pred>),
}

/// The tail of a block.
#[derive(Debug, PartialEq, Eq)]
pub enum Tail {
    Halt(Opand),
    Jump(Trg),
    Begin { effects: Vec<Effect>, tail: Box<Tail> },
    IfBranch { pred: Pred, trg1: Trg, trg2: Trg },
}

/// A labelled block.
#[derive(Debug, PartialEq, Eq)]
pub enum B {
    Define { label: Label, tail: Tail },
}

/// A whole program: a run of labelled blocks.
#[derive(Debug, PartialEq, Eq)]
pub enum P {
    Module(Vec<B>),
}

/// A program of labelled blocks with predicate branches.
#[derive(Debug, PartialEq, Eq)]
pub struct BlockPredLang(pub P);

/// The mathematical shape of a predicate.
pub enum PredS {
    Compare { relop: Relop, loc: Loc, opand: Opand },
    True,
    False,
    Not(Box<PredS>),
}

pub open spec fn pred_view(p: Pred) -> PredS
    decreases p,
{
    match p {
        Pred::Compare { relop, loc, opand } => PredS::Compare { relop, loc, opand },
        Pred::True => PredS::True,
        Pred::False => PredS::False,
        Pred::Not(pred) => PredS::Not(Box::new(pred_view(*pred))),
    }
}

/// The mathematical shape of a block tail.
pub enum TailS {
    Halt(Opand),
    Jump(TrgS),
    Begin { effects: Seq<EffectS>, tail: Box<TailS> },
    IfBranch { pred: PredS, trg1: TrgS, trg2: TrgS },
}

pub open spec fn tail_view(t: Tail) -> TailS
    decreases t,
{
    match t {
        Tail::Halt(op) => TailS::Halt(op),
        Tail::Jump(trg) => TailS::Jump(trg_view(trg)),
        Tail::Begin { effects, tail } => TailS::Begin {
            effects: target::effects_view(effects@),
            tail: Box::new(tail_view(*tail)),
        },
        Tail::IfBranch { pred, trg1, trg2 } => TailS::IfBranch {
            pred: pred_view(pred),
            trg1: trg_view(trg1),
            trg2: trg_view(trg2),
        },
    }
}

/// The mathematical shape of a block.
pub struct BS {
    pub label: (Seq<char>, int),
    pub tail: TailS,
}

pub open spec fn b_view(b: B) -> BS {
    match b {
        B::Define { label, tail } => BS { label: label_key(label), tail: tail_view(tail) },
    }
}

pub open spec fn bs_view(bs: Seq<B>) -> Seq<BS> {
    bs.map_values(|b: B| b_view(b))
}

/// What a conditional branch resolves to: a comparison branch, a direct
/// jump, or — under a negation — the same with the targets swapped.
pub open spec fn resolve_if_model(p: PredS, trg1: TrgS, trg2: TrgS) -> target::TailS
    decreases p,
{
    match p {
        PredS::Compare { relop, loc, opand } => target::TailS::IfBranch {
            relop,
            loc,
            opand,
            trg1,
            trg2,
        },
        PredS::True => target::TailS::Jump(trg1),
        PredS::False => target::TailS::Jump(trg2),
        PredS::Not(pred) => resolve_if_model(*pred, trg2, trg1),
    }
}

/// What a tail resolves to.
pub open spec fn resolve_tail_model(t: TailS) -> target::TailS
    decreases t,
{
    match t {
        TailS::Halt(op) => target::TailS::Halt(op),
        TailS::Jump(trg) => target::TailS::Jump(trg),
        TailS::Begin { effects, tail } => target::TailS::Begin {
            effects,
            tail: Box::new(resolve_tail_model(*tail)),
        },
        TailS::IfBranch { pred, trg1, trg2 } => resolve_if_model(pred, trg1, trg2),
    }
}

/// What a run of blocks resolves to, block by block.
pub open spec fn resolve_bs_model(bs: Seq<BS>) -> Seq<target::BS> {
    bs.map_values(|b: BS| target::BS { label: b.label, tail: resolve_tail_model(b.tail) })
}

impl BlockPredLang {
    /// Resolves every predicate branch into a direct comparison branch or
    /// jump, negations swapping the two targets.
    pub fn resolve_predicates(self) -> (r: BlockAsmLang)
        ensures
            r.0 matches target::P::Module(out) && target::bs_view(out@) == resolve_bs_model(
                bs_view(program_blocks(self.0)@),
            ),
    {
        let BlockPredLang(p) = self;
        match p {
            P::Module(bs) => {
                let mut bs = bs;
                let ghost bs0 = bs@;
                let mut out: Vec<target::B> = Vec::new();
                let ghost mut done: int = 0;
                proof {
                    assert(target::bs_view(out@) =~= resolve_bs_model(bs_view(bs0).subrange(0, 0)));
                }
                while bs.len() > 0
                    invariant
                        0 <= done <= bs0.len(),
                        bs@ =~= bs0.subrange(done, bs0.len() as int),
                        target::bs_view(out@) =~= resolve_bs_model(
                            bs_view(bs0).subrange(0, done),
                        ),
                    decreases bs@.len(),
                {
                    let b = bs.remove(0);
                    proof {
                        assert(b == bs0[done]);
                        assert(bs@ =~= bs0.subrange(done + 1, bs0.len() as int));
                    }
                    let ghost bv = b_view(b);
                    let nb = match b {
                        B::Define { label, tail } => {
                            let nt = resolve_tail(tail);
                            target::B::Define { label, tail: nt }
                        },
                    };
                    let ghost outp = out@;
                    out.push(nb);
                    proof {
                        assert(target::bs_view(out@) =~= target::bs_view(outp).push(
                            target::b_view(nb),
                        ));
                        assert(target::b_view(nb) == target::BS {
                            label: bv.label,
                            tail: resolve_tail_model(bv.tail),
                        });
                        assert(resolve_bs_model(bs_view(bs0).subrange(0, done + 1))
                            =~= resolve_bs_model(bs_view(bs0).subrange(0, done)).push(
                            target::BS { label: bv.label, tail: resolve_tail_model(bv.tail) },
                        ));
                        done = done + 1;
                    }
                }
                proof {
                    assert(bs_view(bs0).subrange(0, done) =~= bs_view(bs0));
                }
                BlockAsmLang(target::P::Module(out))
            },
        }
    }
}

/// The blocks a program holds.
pub open spec fn program_blocks(p: P) -> Vec<B> {
    match p {
        P::Module(bs) => bs,
    }
}

fn resolve_tail(t: Tail) -> (r: target::Tail)
    ensures
        target::tail_view(r) == resolve_tail_model(tail_view(t)),
    decreases t,
{
    match t {
        Tail::Halt(op) => target::Tail::Halt(op),
        Tail::Jump(trg) => target::Tail::Jump(trg),
        Tail::Begin { effects, tail } => {
            let nt = resolve_tail(*tail);
            target::Tail::Begin { effects, tail: Box::new(nt) }
        },
        Tail::IfBranch { pred, trg1, trg2 } => resolve_if(pred, trg1, trg2),
    }
}

fn resolve_if(p: Pred, trg1: Trg, trg2: Trg) -> (r: target::Tail)
    ensures
        target::tail_view(r) == resolve_if_model(pred_view(p), trg_view(trg1), trg_view(trg2)),
    decreases p,
{
    match p {
        Pred::Compare { relop, loc, opand } => target::Tail::IfBranch {
            relop,
            loc,
            opand,
            trg1,
            trg2,
        },
        Pred::True => target::Tail::Jump(trg1),
        Pred::False => target::Tail::Jump(trg2),
        Pred::Not(pred) => resolve_if(*pred, trg2, trg1),
    }
}

} // verus!
