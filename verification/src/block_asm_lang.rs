//! Labelled basic blocks whose conditional tails branch directly on a
//! comparison, and the pass that flattens them into one linear run of
//! labelled instructions.

use vstd::prelude::*;

use crate::para_asm_lang as target;
use crate::para_asm_lang::{trg_view, triv_view, Opand, ParaAsmLang, Trg, Triv, TrgS, TrivS};
use crate::paren_x64_fvars::Loc;
use crate::utils::{label_key, Binop, Label, Relop};

verus! {

/// One step of computation inside a block.
#[derive(Debug, PartialEq, Eq)]
pub enum Effect {
    Assign { loc: Loc, triv: Triv },
    AssignBinop { loc: Loc, binop: Binop, opand: Opand },
}

/// The tail of a block.
#[derive(Debug, PartialEq, Eq)]
pub enum Tail {
    Halt(Opand),
    Jump(Trg),
    Begin { effects: Vec<Effect>, tail: Box<Tail> },
    IfBranch { relop: Relop, loc: Loc, opand: Opand, trg1: Trg, trg2: Trg },
}

/// A labelled block.
#[derive(Debug, PartialEq, Eq)]
pub enum B {
    Define { label: Label, tail: Tail },
}

/// A whole program: a run of labelled blocks.
#[derive(Debug, PartialEq, Eq)]
pub enum P {
    Module(Vec<B>),
}

/// A program of labelled basic blocks.
#[derive(Debug, PartialEq, Eq)]
pub struct BlockAsmLang(pub P);

/// The mathematical shape of an effect.
pub enum EffectS {
    Assign { loc: Loc, triv: TrivS },
    AssignBinop { loc: Loc, binop: Binop, opand: Opand },
}

pub open spec fn effect_view(e: Effect) -> EffectS {
    match e {
        Effect::Assign { loc, triv } => EffectS::Assign { loc, triv: triv_view(triv) },
        Effect::AssignBinop { loc, binop, opand } => EffectS::AssignBinop { loc, binop, opand },
    }
}

pub open spec fn effects_view(es: Seq<Effect>) -> Seq<EffectS> {
    es.map_values(|e: Effect| effect_view(e))
}

/// The mathematical shape of a block tail.
pub enum TailS {
    Halt(Opand),
    Jump(TrgS),
    Begin { effects: Seq<EffectS>, tail: Box<TailS> },
    IfBranch { relop: Relop, loc: Loc, opand: Opand, trg1: TrgS, trg2: TrgS },
}

pub open spec fn tail_view(t: Tail) -> TailS
    decreases t,
{
    match t {
        Tail::Halt(op) => TailS::Halt(op),
        Tail::Jump(trg) => TailS::Jump(trg_view(trg)),
        Tail::Begin { effects, tail } => TailS::Begin {
            effects: effects_view(effects@),
            tail: Box::new(tail_view(*tail)),
        },
        Tail::IfBranch { relop, loc, opand, trg1, trg2 } => TailS::IfBranch {
            relop,
            loc,
            opand,
            trg1: trg_view(trg1),
            trg2: trg_view(trg2),
        },
    }
}

/// The mathematical shape of a block: its label's key and its tail.
pub struct BS {
    pub label: (Seq<char>, int),
    pub tail: TailS,
}

pub open spec fn b_view(b: B) -> BS {
    match b {
        B::Define { label, tail } => BS { label: label_key(label), tail: tail_view(tail) },
    }
}

pub open spec fn bs_view(bs: Seq<B>) -> Seq<BS> {
    bs.map_values(|b: B| b_view(b))
}

/// The instructions a run of effects flattens to.
pub open spec fn flatten_effects_model(es: Seq<EffectS>) -> Seq<target::SV>
    decreases es.len(),
{
    if es.len() == 0 {
        Seq::empty()
    } else {
        seq![flatten_effect_model(es[0])] + flatten_effects_model(es.subrange(1, es.len() as int))
    }
}

pub open spec fn flatten_effect_model(e: EffectS) -> target::SV {
    match e {
        EffectS::Assign { loc, triv } => target::SV::SetTriv { loc, triv },
        EffectS::AssignBinop { loc, binop, opand } => target::SV::SetBinop { loc, binop, opand },
    }
}

/// The instructions a block tail flattens to.
pub open spec fn flatten_tail_model(t: TailS) -> Seq<target::SV>
    decreases t,
{
    match t {
        TailS::Halt(op) => seq![target::SV::Halt(op)],
        TailS::Jump(trg) => seq![target::SV::Jump(trg)],
        TailS::Begin { effects, tail } => flatten_effects_model(effects) + flatten_tail_model(
            *tail,
        ),
        TailS::IfBranch { relop, loc, opand, trg1, trg2 } => seq![
            target::SV::CompareJump { loc, opand, relop, trg: trg1 },
            target::SV::Jump(trg2),
        ],
    }
}

/// The instructions a block flattens to: its tail's run, the first
/// instruction carrying the block's label.
pub open spec fn flatten_b_model(b: BS) -> Seq<target::SV> {
    let ss = flatten_tail_model(b.tail);
    if ss.len() == 0 {
        ss
    } else {
        seq![target::SV::WithLabel { label: b.label, s: Box::new(ss[0]) }] + ss.subrange(
            1,
            ss.len() as int,
        )
    }
}

/// The instructions a whole program flattens to.
pub open spec fn flatten_p_model(bs: Seq<BS>) -> Seq<target::SV>
    decreases bs.len(),
{
    if bs.len() == 0 {
        Seq::empty()
    } else {
        flatten_b_model(bs[0]) + flatten_p_model(bs.subrange(1, bs.len() as int))
    }
}

/// A block's tail always flattens to at least one instruction.
pub proof fn lemma_flatten_tail_nonempty(t: TailS)
    ensures
        flatten_tail_model(t).len() >= 1,
    decreases t,
{
    match t {
        TailS::Begin { effects, tail } => {
            lemma_flatten_tail_nonempty(*tail);
        },
        _ => {},
    }
}

impl BlockAsmLang {
    /// Flattens the labelled blocks into one linear run of instructions:
    /// each block contributes its instructions in order, the first one
    /// carrying the block's label.
    pub fn flatten_program(self) -> (r: ParaAsmLang)
        ensures
            r.0 matches target::P::Begin(ss) && target::ss_view(ss@) == flatten_p_model(
                bs_view(program_blocks(self.0)@),
            ),
    {
        let BlockAsmLang(p) = self;
        match p {
            P::Module(bs) => {
                let mut bs = bs;
                let ghost bs0 = bs@;
                let mut out: Vec<target::S> = Vec::new();
                proof {
                    assert(bs_view(bs0).subrange(0, 0) =~= Seq::<BS>::empty());
                    assert(target::ss_view(Seq::<target::S>::empty()) =~= Seq::<
                        target::SV,
                    >::empty());
                    assert(flatten_p_model(Seq::<BS>::empty()) =~= Seq::<target::SV>::empty());
                }
                let ghost mut done: int = 0;
                while bs.len() > 0
                    invariant
                        0 <= done <= bs0.len(),
                        bs@ =~= bs0.subrange(done, bs0.len() as int),
                        target::ss_view(out@) == flatten_p_model(bs_view(bs0).subrange(0, done)),
                    decreases bs@.len(),
                {
                    let b = bs.remove(0);
                    proof {
                        assert(b == bs0[done]);
                        assert(bs@ =~= bs0.subrange(done + 1, bs0.len() as int));
                    }
                    flatten_b(b, &mut out);
                    proof {
                        assert(bs_view(bs0).subrange(0, done + 1).drop_last() =~= bs_view(
                            bs0,
                        ).subrange(0, done));
                        lemma_flatten_p_snoc(bs_view(bs0).subrange(0, done + 1));
                        assert(bs_view(bs0).subrange(0, done + 1).last() == b_view(b));
                        done = done + 1;
                    }
                }
                proof {
                    assert(bs_view(bs0).subrange(0, done) =~= bs_view(bs0));
                }
                ParaAsmLang(target::P::Begin(out))
            },
        }
    }
}

/// The blocks a program holds.
pub open spec fn program_blocks(p: P) -> Vec<B> {
    match p {
        P::Module(bs) => bs,
    }
}

/// Splitting a run of blocks at its last block splits its flattening.
proof fn lemma_flatten_p_snoc(bs: Seq<BS>)
    requires
        bs.len() > 0,
    ensures
        flatten_p_model(bs) =~= flatten_p_model(bs.drop_last()) + flatten_b_model(bs.last()),
    decreases bs.len(),
{
    if bs.len() == 1 {
        assert(bs.drop_last() =~= Seq::<BS>::empty());
        assert(bs.subrange(1, bs.len() as int) =~= Seq::<BS>::empty());
        assert(flatten_p_model(Seq::<BS>::empty()) =~= Seq::<target::SV>::empty());
    } else {
        let rest = bs.subrange(1, bs.len() as int);
        lemma_flatten_p_snoc(rest);
        assert(rest.drop_last() =~= bs.drop_last().subrange(1, bs.drop_last().len() as int));
        assert(rest.last() == bs.last());
        assert(bs.drop_last()[0] == bs[0]);
    }
}

/// Appends the flattening of one block.
fn flatten_b(b: B, out: &mut Vec<target::S>)
    ensures
        target::ss_view(final(out)@) =~= target::ss_view(old(out)@) + flatten_b_model(b_view(b)),
{
    match b {
        B::Define { label, tail } => {
            let ghost tview = tail_view(tail);
            let ghost lkey = label_key(label);
            let mut ss: Vec<target::S> = Vec::new();
            flatten_tail(tail, &mut ss);
            proof {
                lemma_flatten_tail_nonempty(tview);
                target::lemma_ss_view_len(ss@);
                assert(target::ss_view(ss@) =~= flatten_tail_model(tview));
            }
            let ghost whole = ss@;
            let first = ss.remove(0);
            proof {
                assert(ss@ =~= whole.subrange(1, whole.len() as int));
            }
            let labelled = target::S::WithLabel { label, s: Box::new(first) };
            let ghost out0 = out@;
            out.push(labelled);
            proof {
                target::lemma_ss_view_push(out0, labelled);
                assert(target::s_view(labelled) == target::SV::WithLabel {
                    label: lkey,
                    s: Box::new(flatten_tail_model(tview)[0]),
                });
            }
            let mut rest = ss;
            let ghost rest0 = rest@;
            let ghost head = target::ss_view(out0).push(target::s_view(labelled));
            let ghost mut moved: int = 0;
            while rest.len() > 0
                invariant
                    0 <= moved <= rest0.len(),
                    rest@ =~= rest0.subrange(moved, rest0.len() as int),
                    target::ss_view(out@) =~= head + target::ss_view(
                        rest0.subrange(0, moved),
                    ),
                decreases rest@.len(),
            {
                let s = rest.remove(0);
                proof {
                    assert(s == rest0[moved]);
                    assert(rest@ =~= rest0.subrange(moved + 1, rest0.len() as int));
                }
                let ghost outp = out@;
                out.push(s);
                proof {
                    target::lemma_ss_view_push(outp, s);
                    assert(target::ss_view(rest0.subrange(0, moved + 1)) =~= target::ss_view(
                        rest0.subrange(0, moved),
                    ).push(target::s_view(s)));
                    moved = moved + 1;
                }
            }
            proof {
                assert(rest0.subrange(0, moved) =~= rest0);
                assert(target::ss_view(out@) =~= head + target::ss_view(rest0));
                assert(target::ss_view(rest0) =~= flatten_tail_model(tview).subrange(
                    1,
                    flatten_tail_model(tview).len() as int,
                )) by {
                    assert forall|i: int| 0 <= i < rest0.len() implies target::ss_view(rest0)[i]
                        == flatten_tail_model(tview).subrange(
                        1,
                        flatten_tail_model(tview).len() as int,
                    )[i] by {
                        assert(rest0[i] == whole[i + 1]);
                        assert(target::ss_view(whole)[i + 1] == target::s_view(whole[i + 1]));
                    }
                }
                assert(target::ss_view(out@) =~= target::ss_view(out0) + flatten_b_model(
                    b_view(b),
                ));
            }
        },
    }
}

/// Appends the flattening of a block tail.
fn flatten_tail(t: Tail, out: &mut Vec<target::S>)
    ensures
        target::ss_view(final(out)@) =~= target::ss_view(old(out)@) + flatten_tail_model(
            tail_view(t),
        ),
    decreases t,
{
    match t {
        Tail::Halt(op) => {
            let ghost out0 = out@;
            let s = target::S::Halt(op);
            out.push(s);
            proof {
                target::lemma_ss_view_push(out0, s);
            }
        },
        Tail::Jump(trg) => {
            let ghost out0 = out@;
            let s = target::S::Jump(trg);
            out.push(s);
            proof {
                target::lemma_ss_view_push(out0, s);
            }
        },
        Tail::Begin { effects, tail } => {
            let ghost out0 = out@;
            let ghost eview = effects_view(effects@);
            flatten_effects(effects, out);
            let ghost out1 = out@;
            flatten_tail(*tail, out);
            proof {
                assert(target::ss_view(out@) =~= target::ss_view(out0) + (flatten_effects_model(
                    eview,
                ) + flatten_tail_model(tail_view(*tail))));
            }
        },
        Tail::IfBranch { relop, loc, opand, trg1, trg2 } => {
            let ghost out0 = out@;
            let s1 = target::S::CompareJump { loc, opand, relop, trg: trg1 };
            out.push(s1);
            let ghost out1 = out@;
            let s2 = target::S::Jump(trg2);
            out.push(s2);
            proof {
                target::lemma_ss_view_push(out0, s1);
                target::lemma_ss_view_push(out1, s2);
                assert(target::ss_view(out@) =~= target::ss_view(out0) + flatten_tail_model(
                    tail_view(t),
                ));
            }
        },
    }
}

/// Appends the flattening of a run of effects.
fn flatten_effects(es: Vec<Effect>, out: &mut Vec<target::S>)
    ensures
        target::ss_view(final(out)@) =~= target::ss_view(old(out)@) + flatten_effects_model(
            effects_view(es@),
        ),
{
    let mut es = es;
    let ghost es0 = es@;
    let ghost out0 = out@;
    let ghost mut done: int = 0;
    proof {
        assert(effects_view(es0).subrange(0, 0) =~= Seq::<EffectS>::empty());
        assert(flatten_effects_model(Seq::<EffectS>::empty()) =~= Seq::<target::SV>::empty());
        assert(target::ss_view(out@) =~= target::ss_view(out0) + flatten_effects_model(
            effects_view(es0).subrange(0, 0),
        ));
    }
    while es.len() > 0
        invariant
            0 <= done <= es0.len(),
            es@ =~= es0.subrange(done, es0.len() as int),
            target::ss_view(out@) =~= target::ss_view(out0) + flatten_effects_model(
                effects_view(es0).subrange(0, done),
            ),
        decreases es@.len(),
    {
        let e = es.remove(0);
        proof {
            assert(e == es0[done]);
            assert(es@ =~= es0.subrange(done + 1, es0.len() as int));
        }
        let s = match e {
            Effect::Assign { loc, triv } => target::S::SetTriv { loc, triv },
            Effect::AssignBinop { loc, binop, opand } => target::S::SetBinop { loc, binop, opand },
        };
        let ghost outp = out@;
        out.push(s);
        proof {
            target::lemma_ss_view_push(outp, s);
            lemma_flatten_effects_snoc(effects_view(es0).subrange(0, done + 1));
            assert(effects_view(es0).subrange(0, done + 1).drop_last() =~= effects_view(
                es0,
            ).subrange(0, done));
            assert(effects_view(es0).subrange(0, done + 1).last() == effect_view(e));
            assert(target::s_view(s) == flatten_effect_model(effect_view(e)));
            done = done + 1;
        }
    }
    proof {
        assert(effects_view(es0).subrange(0, done) =~= effects_view(es0));
    }
}

/// Splitting a run of effects at its last effect splits its flattening.
proof fn lemma_flatten_effects_snoc(es: Seq<EffectS>)
    requires
        es.len() > 0,
    ensures
        flatten_effects_model(es) =~= flatten_effects_model(es.drop_last()) + seq![
            flatten_effect_model(es.last()),
        ],
    decreases es.len(),
{
    if es.len() == 1 {
        assert(es.drop_last() =~= Seq::<EffectS>::empty());
        assert(es.subrange(1, es.len() as int) =~= Seq::<EffectS>::empty());
        assert(flatten_effects_model(Seq::<EffectS>::empty()) =~= Seq::<target::SV>::empty());
    } else {
        let rest = es.subrange(1, es.len() as int);
        lemma_flatten_effects_snoc(rest);
        assert(rest.drop_last() =~= es.drop_last().subrange(1, es.drop_last().len() as int));
        assert(rest.last() == es.last());
        assert(es.drop_last()[0] == es[0]);
    }
}

} // verus!
