//! The linear language the flattened blocks land in: labelled straight-line
//! instructions over physical locations.

use vstd::prelude::*;

use crate::paren_x64_fvars::Loc;
use crate::utils::{Binop, Label, Relop};

verus! {

/// An operand: an immediate integer or a read of a physical location.
#[derive(Debug, Clone, Copy, PartialEq, Eq, Structural)]
pub enum Opand {
    Int64(i64),
    Loc(Loc),
}

/// A value an instruction can move: an operand or a code label.
#[derive(Debug, PartialEq, Eq)]
pub enum Triv {
    Opand(Opand),
    Label(Label),
}

/// A jump target: a label or a location holding an address.
#[derive(Debug, PartialEq, Eq)]
pub enum Trg {
    Label(Label),
    Loc(Loc),
}

/// One instruction.
#[derive(Debug, PartialEq, Eq)]
pub enum S {
    Halt(Opand),
    SetTriv { loc: Loc, triv: Triv },
    SetBinop { loc: Loc, binop: Binop, opand: Opand },
    Jump(Trg),
    WithLabel { label: Label, s: Box<S> },
    CompareJump { loc: Loc, opand: Opand, relop: Relop, trg: Trg },
    Nop,
}

/// A whole program: a linear run of instructions.
#[derive(Debug, PartialEq, Eq)]
pub enum P {
    Begin(Vec<S>),
}

/// A program awaiting instruction patching.
#[derive(Debug, PartialEq, Eq)]
pub struct ParaAsmLang(pub P);

/// The mathematical shape of a movable value: labels by their key.
pub enum TrivS {
    Opand(Opand),
    Label((Seq<char>, int)),
}

pub open spec fn triv_view(t: Triv) -> TrivS {
    match t {
        Triv::Opand(op) => TrivS::Opand(op),
        Triv::Label(l) => TrivS::Label(crate::utils::label_key(l)),
    }
}

/// The mathematical shape of a jump target: labels by their key.
pub enum TrgS {
    Label((Seq<char>, int)),
    Loc(Loc),
}

pub open spec fn trg_view(t: Trg) -> TrgS {
    match t {
        Trg::Label(l) => TrgS::Label(crate::utils::label_key(l)),
        Trg::Loc(loc) => TrgS::Loc(loc),
    }
}

/// The mathematical shape of an instruction: labels by their key.
pub enum SV {
    Halt(Opand),
    SetTriv { loc: Loc, triv: TrivS },
    SetBinop { loc: Loc, binop: Binop, opand: Opand },
    Jump(TrgS),
    WithLabel { label: (Seq<char>, int), s: Box<SV> },
    CompareJump { loc: Loc, opand: Opand, relop: Relop, trg: TrgS },
    Nop,
}

pub open spec fn s_view(s: S) -> SV
    decreases s,
{
    match s {
        S::Halt(op) => SV::Halt(op),
        S::SetTriv { loc, triv } => SV::SetTriv { loc, triv: triv_view(triv) },
        S::SetBinop { loc, binop, opand } => SV::SetBinop { loc, binop, opand },
        S::Jump(trg) => SV::Jump(trg_view(trg)),
        S::WithLabel { label, s } => SV::WithLabel {
            label: crate::utils::label_key(label),
            s: Box::new(s_view(*s)),
        },
        S::CompareJump { loc, opand, relop, trg } => SV::CompareJump {
            loc,
            opand,
            relop,
            trg: trg_view(trg),
        },
        S::Nop => SV::Nop,
    }
}

pub open spec fn ss_view(ss: Seq<S>) -> Seq<SV> {
    ss.map_values(|s: S| s_view(s))
}

pub proof fn lemma_ss_view_len(ss: Seq<S>)
    ensures
        ss_view(ss).len() == ss.len(),
{
}

pub proof fn lemma_ss_view_push(ss: Seq<S>, s: S)
    ensures
        ss_view(ss.push(s)) =~= ss_view(ss).push(s_view(s)),
{
    assert forall|i: int| 0 <= i < ss.len() + 1 implies ss_view(ss.push(s))[i] == ss_view(ss).push(
        s_view(s),
    )[i] by {
        if i < ss.len() {
            assert(ss.push(s)[i] == ss[i]);
        } else {
            assert(ss.push(s)[i] == s);
        }
    }
}

} // verus!
