//! The source language of the register-allocation passes: a tree of
//! straight-line effects and conditionals over abstract locations, together
//! with the analysis side-table (`Info`) the passes fill in.
//!
//! A program is a module holding one [`Tail`]; every location-bearing
//! position holds an [`Aloc`].  The passes on [`AsmLang`] stand in their own
//! files: collecting locals, liveness analysis, conflict-graph construction,
//! register assignment and the final rewrite into `nested_asm_lang`.

use vstd::prelude::*;

use crate::graph::Graph;
use crate::sets::AlocSet;
use crate::ust::Node;
use crate::utils::{Aloc, Binop, Label, Relop};

verus! {

/// An operand: an immediate integer or a read of an abstract location.
#[derive(Debug, PartialEq, Eq)]
pub enum Triv {
    Int64(i64),
    Loc(Aloc),
}

/// The tail position of a program: what runs last.
#[derive(Debug, PartialEq, Eq)]
pub enum Tail {
    Halt(Triv),
    Begin { effects: Vec<Effect>, tail: Box<Tail> },
    IfElse { pred: Pred, tail1: Box<Tail>, tail2: Box<Tail> },
}

/// A predicate deciding which branch of a conditional runs.
#[derive(Debug, PartialEq, Eq)]
pub enum Pred {
    Compare { relop: Relop, aloc: Aloc, triv: Triv },
    True,
    False,
    Not(Box<Pred>),
    Begin { effects: Vec<Effect>, pred: Box<Pred> },
    IfElse { pred1: Box<Pred>, pred2: Box<Pred>, pred3: Box<Pred> },
}

/// A single step of computation.
#[derive(Debug, PartialEq, Eq)]
pub enum Effect {
    /// `aloc := triv`
    Assign { aloc: Aloc, triv: Triv },
    /// `aloc := aloc binop triv`
    AssignBinop { aloc: Aloc, binop: Binop, triv: Triv },
    Begin(Vec<Effect>),
    IfElse { pred: Pred, effect1: Box<Effect>, effect2: Box<Effect> },
}

/// The analysis side-table: each pass reads the fields it needs and fills in
/// the fields it is responsible for.  A field not yet computed is `None`.
#[derive(Debug, PartialEq, Eq)]
pub struct Info {
    pub locals: Option<AlocSet>,
    pub assignment: Option<crate::assignment::Assignment>,
    pub undead_out: Option<Node>,
    pub conflicts: Option<Graph>,
}

impl Info {
    /// The side-table with nothing computed yet.
    pub fn new() -> (info: Info)
        ensures
            info.locals is None,
            info.assignment is None,
            info.undead_out is None,
            info.conflicts is None,
    {
        Info { locals: None, assignment: None, undead_out: None, conflicts: None }
    }
}

/// A whole program: the side-table and the tail it annotates.
#[derive(Debug, PartialEq, Eq)]
pub enum P {
    Module { info: Info, tail: Tail },
}

/// A program of the register-allocation source language.
#[derive(Debug, PartialEq, Eq)]
pub struct AsmLang(pub P);

/// A storage location as later passes see it: still abstract, or already
/// physical.
#[derive(Debug, PartialEq, Eq)]
pub enum Loc {
    Aloc(Aloc),
    Rloc(Rloc),
}

/// A physical ("real") location: a register or a frame variable.
#[derive(Debug, Clone, Copy, PartialEq, Eq, Structural)]
pub enum Rloc {
    Reg(crate::utils::Reg),
    Fvar(crate::utils::Fvar),
}

/// A jump target: a label or a location holding an address.
#[derive(Debug, PartialEq, Eq)]
pub enum Trg {
    Label(Label),
    Loc(Loc),
}

/// The indices of the abstract locations an operand reads.
pub open spec fn triv_alocs(t: Triv) -> Set<int> {
    match t {
        Triv::Int64(_) => Set::empty(),
        Triv::Loc(a) => Set::empty().insert(a.index as int),
    }
}

/// The indices of every abstract location a tail references, reading or
/// writing, through all nesting.
pub open spec fn tail_alocs(t: Tail) -> Set<int>
    decreases t, 0int,
{
    match t {
        Tail::Halt(triv) => triv_alocs(triv),
        Tail::Begin { effects, tail } => effects_alocs(effects@).union(tail_alocs(*tail)),
        Tail::IfElse { pred, tail1, tail2 } => pred_alocs(pred).union(
            tail_alocs(*tail1).union(tail_alocs(*tail2)),
        ),
    }
}

/// The locations a run of effects references.
pub open spec fn effects_alocs(es: Seq<Effect>) -> Set<int>
    decreases es, es.len(),
{
    if es.len() == 0 {
        Set::empty()
    } else {
        effect_alocs(es[0]).union(effects_alocs(es.subrange(1, es.len() as int)))
    }
}

/// The locations one effect references.
pub open spec fn effect_alocs(e: Effect) -> Set<int>
    decreases e, 0int,
{
    match e {
        Effect::Assign { aloc, triv } => triv_alocs(triv).insert(aloc.index as int),
        Effect::AssignBinop { aloc, binop, triv } => triv_alocs(triv).insert(aloc.index as int),
        Effect::Begin(effects) => effects_alocs(effects@),
        Effect::IfElse { pred, effect1, effect2 } => pred_alocs(pred).union(
            effect_alocs(*effect1).union(effect_alocs(*effect2)),
        ),
    }
}

/// The locations a predicate references.
pub open spec fn pred_alocs(p: Pred) -> Set<int>
    decreases p, 0int,
{
    match p {
        Pred::Compare { relop, aloc, triv } => triv_alocs(triv).insert(aloc.index as int),
        Pred::True => Set::empty(),
        Pred::False => Set::empty(),
        Pred::Not(pred) => pred_alocs(*pred),
        Pred::Begin { effects, pred } => effects_alocs(effects@).union(pred_alocs(*pred)),
        Pred::IfElse { pred1, pred2, pred3 } => pred_alocs(*pred1).union(
            pred_alocs(*pred2).union(pred_alocs(*pred3)),
        ),
    }
}

/// The tail a program annotates.
pub open spec fn program_tail(p: P) -> Tail {
    match p {
        P::Module { info, tail } => tail,
    }
}

/// The side-table a program carries.
pub open spec fn program_info(p: P) -> Info {
    match p {
        P::Module { info, tail } => info,
    }
}

/// The assignment a side-table carries.
pub open spec fn assignment_of(i: Info) -> crate::assignment::Assignment
    recommends
        i.assignment is Some,
{
    i.assignment->Some_0
}

/// The locals set a side-table carries.
pub open spec fn locals_of(i: Info) -> crate::sets::AlocSet
    recommends
        i.locals is Some,
{
    i.locals->Some_0
}

} // verus!
