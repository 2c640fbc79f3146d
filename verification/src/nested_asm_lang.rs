//! The language the rewriter lands in: the same tree grammar as the
//! allocation source, but every storage position holds a physical location.

use vstd::prelude::*;

use crate::para_asm_lang::Opand;
use crate::paren_x64_fvars::Loc;
use crate::utils::{Binop, Relop};

verus! {

/// The tail position of a program.
#[derive(Debug, PartialEq, Eq)]
pub enum Tail {
    Halt(Opand),
    Begin { effects: Vec<Effect>, tail: Box<Tail> },
    IfElse { pred: Pred, tail1: Box<Tail>, tail2: Box<Tail> },
}

/// A predicate deciding which branch of a conditional runs.
#[derive(Debug, PartialEq, Eq)]
pub enum Pred {
    Compare { relop: Relop, loc: Loc, triv: Opand },
    True,
    False,
    Not(Box<Pred>),
    Begin { effects: Vec<Effect>, pred: Box<Pred> },
    IfElse { pred1: Box<Pred>, pred2: Box<Pred>, pred3: Box<Pred> },
}

/// A single step of computation.
#[derive(Debug, PartialEq, Eq)]
pub enum Effect {
    Assign { loc: Loc, triv: Opand },
    AssignBinop { loc: Loc, binop: Binop, triv: Opand },
    Begin(Vec<Effect>),
    IfElse { pred: Pred, effect1: Box<Effect>, effect2: Box<Effect> },
}

/// A whole program.
#[derive(Debug, PartialEq, Eq)]
pub enum P {
    Module(Tail),
}

/// A program whose locations are all physical.
#[derive(Debug, PartialEq, Eq)]
pub struct NestedAsmLang(pub P);

impl NestedAsmLang {
    /// Simplifies predicates where the analysis finds an opportunity; the
    /// current analysis finds none, so every program is kept exactly as it
    /// is.
    pub fn optimize_predicates(self) -> (r: NestedAsmLang)
        ensures
            r == self,
    {
        self
    }
}

/// The mathematical shape of a tail: `Vec` fields become sequences.
pub enum TailS {
    Halt(Opand),
    Begin { effects: Seq<EffectS>, tail: Box<TailS> },
    IfElse { pred: PredS, tail1: Box<TailS>, tail2: Box<TailS> },
}

pub enum PredS {
    Compare { relop: Relop, loc: Loc, triv: Opand },
    True,
    False,
    Not(Box<PredS>),
    Begin { effects: Seq<EffectS>, pred: Box<PredS> },
    IfElse { pred1: Box<PredS>, pred2: Box<PredS>, pred3: Box<PredS> },
}

pub enum EffectS {
    Assign { loc: Loc, triv: Opand },
    AssignBinop { loc: Loc, binop: Binop, triv: Opand },
    Begin(Seq<EffectS>),
    IfElse { pred: PredS, effect1: Box<EffectS>, effect2: Box<EffectS> },
}

/// What a tail denotes.
pub open spec fn tail_view(t: Tail) -> TailS
    decreases t, 0int,
{
    match t {
        Tail::Halt(op) => TailS::Halt(op),
        Tail::Begin { effects, tail } => TailS::Begin {
            effects: effects_view(effects@),
            tail: Box::new(tail_view(*tail)),
        },
        Tail::IfElse { pred, tail1, tail2 } => TailS::IfElse {
            pred: pred_view(pred),
            tail1: Box::new(tail_view(*tail1)),
            tail2: Box::new(tail_view(*tail2)),
        },
    }
}

pub open spec fn effects_view(es: Seq<Effect>) -> Seq<EffectS>
    decreases es, es.len(),
{
    if es.len() == 0 {
        Seq::empty()
    } else {
        effects_view(es.drop_last()).push(effect_view(es.last()))
    }
}

pub open spec fn effect_view(e: Effect) -> EffectS
    decreases e, 0int,
{
    match e {
        Effect::Assign { loc, triv } => EffectS::Assign { loc, triv },
        Effect::AssignBinop { loc, binop, triv } => EffectS::AssignBinop { loc, binop, triv },
        Effect::Begin(effects) => EffectS::Begin(effects_view(effects@)),
        Effect::IfElse { pred, effect1, effect2 } => EffectS::IfElse {
            pred: pred_view(pred),
            effect1: Box::new(effect_view(*effect1)),
            effect2: Box::new(effect_view(*effect2)),
        },
    }
}

pub open spec fn pred_view(p: Pred) -> PredS
    decreases p, 0int,
{
    match p {
        Pred::Compare { relop, loc, triv } => PredS::Compare { relop, loc, triv },
        Pred::True => PredS::True,
        Pred::False => PredS::False,
        Pred::Not(pred) => PredS::Not(Box::new(pred_view(*pred))),
        Pred::Begin { effects, pred } => PredS::Begin {
            effects: effects_view(effects@),
            pred: Box::new(pred_view(*pred)),
        },
        Pred::IfElse { pred1, pred2, pred3 } => PredS::IfElse {
            pred1: Box::new(pred_view(*pred1)),
            pred2: Box::new(pred_view(*pred2)),
            pred3: Box::new(pred_view(*pred3)),
        },
    }
}

/// Appending an effect appends its denotation.
pub proof fn lemma_effects_view_push(s: Seq<Effect>, e: Effect)
    ensures
        effects_view(s.push(e)) =~= effects_view(s).push(effect_view(e)),
{
    assert(s.push(e).drop_last() =~= s);
    assert(s.push(e).last() == e);
}

impl NestedAsmLang {
    /// Explodes the nested tree into labelled basic blocks: conditionals
    /// become comparison branches to freshly labelled blocks, nested begins
    /// are spliced into one instruction run, and the program's entry block
    /// comes last, labelled `main`.
    pub fn expose_basic_blocks(self) -> (r: crate::block_pred_lang::BlockPredLang)
        ensures
            r.0 matches crate::block_pred_lang::P::Module(bs) && bs@.len() >= 1 && (bs@[bs@.len()
                - 1] matches crate::block_pred_lang::B::Define { label, tail } && label.name@
                == "main"@),
    {
        let NestedAsmLang(p) = self;
        match p {
            P::Module(tail) => {
                let mut gen = crate::utils::LabelGen::new();
                let mut bs: Vec<crate::block_pred_lang::B> = Vec::new();
                let t = expose_tail(&tail, &mut bs, &mut gen);
                let label = gen.fresh_with_name("main");
                bs.push(crate::block_pred_lang::B::Define { label, tail: t });
                crate::block_pred_lang::BlockPredLang(crate::block_pred_lang::P::Module(bs))
            },
        }
    }
}

/// Merges a run of effects onto the front of a tail, splicing into an
/// existing instruction run the way the whole pass maintains it.
fn make_begin(effects: Vec<crate::block_asm_lang::Effect>, end: crate::block_pred_lang::Tail) -> (r:
    crate::block_pred_lang::Tail)
{
    if effects.len() == 0 {
        end
    } else {
        match end {
            crate::block_pred_lang::Tail::Begin { effects: t_effects, tail } => {
                let mut merged = t_effects;
                let mut effects = effects;
                merged.append(&mut effects);
                crate::block_pred_lang::Tail::Begin { effects: merged, tail }
            },
            end => crate::block_pred_lang::Tail::Begin { effects, tail: Box::new(end) },
        }
    }
}

fn expose_tail(
    t: &Tail,
    bs: &mut Vec<crate::block_pred_lang::B>,
    gen: &mut crate::utils::LabelGen,
) -> (r: crate::block_pred_lang::Tail)
    decreases *t, 0int,
{
    match t {
        Tail::Halt(op) => crate::block_pred_lang::Tail::Halt(*op),
        Tail::Begin { effects, tail } => {
            let inner = expose_tail(tail, bs, gen);
            expose_effects(effects, inner, bs, gen)
        },
        Tail::IfElse { pred, tail1, tail2 } => {
            let label_true = gen.fresh_with_name("true");
            let label_false = gen.fresh_with_name("false");
            let t1 = expose_tail(tail1, bs, gen);
            let t2 = expose_tail(tail2, bs, gen);
            bs.push(crate::block_pred_lang::B::Define { label: label_true.clone(), tail: t1 });
            bs.push(crate::block_pred_lang::B::Define { label: label_false.clone(), tail: t2 });
            expose_pred(pred, label_true, label_false, bs, gen)
        },
    }
}

/// Folds a run of effects, left to right, in front of an already-exposed
/// continuation.
fn expose_effects(
    effects: &Vec<Effect>,
    tail: crate::block_pred_lang::Tail,
    bs: &mut Vec<crate::block_pred_lang::B>,
    gen: &mut crate::utils::LabelGen,
) -> (r: crate::block_pred_lang::Tail)
    decreases effects@, effects@.len(),
{
    let mut tail = tail;
    let mut i: usize = 0;
    let n = effects.len();
    while i < n
        invariant
            n == effects@.len(),
            0 <= i <= n,
        decreases n - i,
    {
        tail = expose_effect(&effects[i], tail, bs, gen);
        i = i + 1;
    }
    tail
}

fn expose_effect(
    e: &Effect,
    tail: crate::block_pred_lang::Tail,
    bs: &mut Vec<crate::block_pred_lang::B>,
    gen: &mut crate::utils::LabelGen,
) -> (r: crate::block_pred_lang::Tail)
    decreases *e, 0int,
{
    match e {
        Effect::Assign { loc, triv } => {
            let effect = crate::block_asm_lang::Effect::Assign {
                loc: *loc,
                triv: crate::para_asm_lang::Triv::Opand(*triv),
            };
            make_begin(vec![effect], tail)
        },
        Effect::AssignBinop { loc, binop, triv } => {
            let effect = crate::block_asm_lang::Effect::AssignBinop {
                loc: *loc,
                binop: *binop,
                opand: *triv,
            };
            make_begin(vec![effect], tail)
        },
        Effect::Begin(effects) => expose_effects(effects, tail, bs, gen),
        Effect::IfElse { pred, effect1, effect2 } => {
            let join = gen.fresh_with_name("final");
            bs.push(crate::block_pred_lang::B::Define { label: join.clone(), tail });
            let jump1 = crate::block_pred_lang::Tail::Jump(
                crate::para_asm_lang::Trg::Label(join.clone()),
            );
            let jump2 = crate::block_pred_lang::Tail::Jump(crate::para_asm_lang::Trg::Label(join));
            let t1 = expose_effect(effect1, jump1, bs, gen);
            let t2 = expose_effect(effect2, jump2, bs, gen);
            let label_true = gen.fresh_with_name("true");
            let label_false = gen.fresh_with_name("false");
            bs.push(crate::block_pred_lang::B::Define { label: label_true.clone(), tail: t1 });
            bs.push(crate::block_pred_lang::B::Define { label: label_false.clone(), tail: t2 });
            expose_pred(pred, label_true, label_false, bs, gen)
        },
    }
}

/// Exposes a predicate as a conditional branch between the two labelled
/// targets.
fn expose_pred(
    p: &Pred,
    label_true: crate::utils::Label,
    label_false: crate::utils::Label,
    bs: &mut Vec<crate::block_pred_lang::B>,
    gen: &mut crate::utils::LabelGen,
) -> (r: crate::block_pred_lang::Tail)
    decreases *p, 0int,
{
    match p {
        Pred::True => crate::block_pred_lang::Tail::Jump(
            crate::para_asm_lang::Trg::Label(label_true),
        ),
        Pred::False => crate::block_pred_lang::Tail::Jump(
            crate::para_asm_lang::Trg::Label(label_false),
        ),
        Pred::Not(pred) => expose_pred(pred, label_false, label_true, bs, gen),
        Pred::Compare { relop, loc, triv } => {
            let pred = crate::block_pred_lang::Pred::Compare {
                relop: *relop,
                loc: *loc,
                opand: *triv,
            };
            crate::block_pred_lang::Tail::IfBranch {
                pred,
                trg1: crate::para_asm_lang::Trg::Label(label_true),
                trg2: crate::para_asm_lang::Trg::Label(label_false),
            }
        },
        Pred::IfElse { pred1, pred2, pred3 } => {
            let l_true = gen.fresh_with_name("true");
            let l_false = gen.fresh_with_name("false");
            let t = expose_pred(pred1, l_true.clone(), l_false.clone(), bs, gen);
            let t2 = expose_pred(pred2, label_true.clone(), label_false.clone(), bs, gen);
            let t3 = expose_pred(pred3, label_true, label_false, bs, gen);
            bs.push(crate::block_pred_lang::B::Define { label: l_true, tail: t2 });
            bs.push(crate::block_pred_lang::B::Define { label: l_false, tail: t3 });
            t
        },
        Pred::Begin { effects, pred } => {
            let t = expose_pred(pred, label_true, label_false, bs, gen);
            expose_effects(effects, t, bs, gen)
        },
    }
}

} // verus!
