//! The conflict analysis and the allocator on concrete inputs, including
//! the deterministic spill behaviour when no register is assignable.

use asm_pipeline::asm_pred_lang::{AsmLang, Effect, Info, Tail, Triv, P};
use asm_pipeline::assignment::Assignment;
use asm_pipeline::graph::Graph;
use asm_pipeline::paren_x64_fvars::Loc;
use asm_pipeline::sets::AlocSet;
use asm_pipeline::ust::Node;
use asm_pipeline::utils::{AlocGen, Fvar, Reg};

#[test]
fn conflict_analysis_basic() {
    let mut gen = AlocGen::new();
    let aloc = gen.fresh();

    let mut locals = AlocSet::new();
    locals.insert(aloc.clone());

    let mut leaf_with = AlocSet::new();
    leaf_with.insert(aloc.clone());

    let program = AsmLang(P::Module {
        info: Info {
            locals: Some(locals),
            undead_out: Some(Node::Tree {
                nodes: vec![
                    Node::Leaf { alocs: leaf_with },
                    Node::Leaf { alocs: AlocSet::new() },
                ],
            }),
            assignment: None,
            conflicts: None,
        },
        tail: Tail::Begin {
            effects: vec![],
            tail: Box::new(Tail::Halt(Triv::Loc(aloc.clone()))),
        },
    });

    let AsmLang(P::Module { info, .. }) = program.conflict_analysis();

    let mut expected_locals = AlocSet::new();
    expected_locals.insert(aloc);
    let expected = Graph::new_from(&expected_locals);

    assert_eq!(info.conflicts.unwrap(), expected);
}

#[test]
fn assign_registers_basic_without_registers() {
    let mut gen = AlocGen::new();
    let aloc = gen.fresh();

    let mut locals = AlocSet::new();
    locals.insert(aloc.clone());
    let conflicts = Graph::new_from(&locals);

    let program = AsmLang(P::Module {
        info: Info {
            locals: Some(locals),
            conflicts: Some(conflicts),
            assignment: None,
            undead_out: None,
        },
        tail: Tail::Begin {
            effects: vec![Effect::Assign { aloc: aloc.clone(), triv: Triv::Int64(42) }],
            tail: Box::new(Tail::Halt(Triv::Loc(aloc.clone()))),
        },
    });

    let no_regs: Vec<Reg> = Vec::new();
    let AsmLang(P::Module { info, .. }) = program.assign_registers(&no_regs);

    let mut expected = Assignment::new();
    expected.insert(aloc, Loc::Fvar(Fvar { index: 0 }));

    assert_eq!(info.assignment.unwrap(), expected);
}

#[test]
fn assign_registers_scenario_first_free_register() {
    let mut gen = AlocGen::new();
    let t = gen.fresh_with_name("t");

    let mut locals = AlocSet::new();
    locals.insert(t.clone());
    let conflicts = Graph::new_from(&locals);

    let program = AsmLang(P::Module {
        info: Info {
            locals: Some(locals),
            conflicts: Some(conflicts),
            assignment: None,
            undead_out: None,
        },
        tail: Tail::Halt(Triv::Loc(t.clone())),
    });

    let regs = asm_pipeline::default_assignable_registers();
    let AsmLang(P::Module { info, .. }) = program.assign_registers(&regs);

    let mut expected = Assignment::new();
    expected.insert(t, Loc::Reg(Reg::Rax));

    assert_eq!(info.assignment.unwrap(), expected);
}

#[test]
fn assign_registers_scenario_r9_first_pool() {
    let mut gen = AlocGen::new();
    let t = gen.fresh_with_name("t");

    let mut locals = AlocSet::new();
    locals.insert(t.clone());
    let conflicts = Graph::new_from(&locals);

    let program = AsmLang(P::Module {
        info: Info {
            locals: Some(locals),
            conflicts: Some(conflicts),
            assignment: None,
            undead_out: None,
        },
        tail: Tail::Halt(Triv::Loc(t.clone())),
    });

    let regs = vec![Reg::R9, Reg::Rax, Reg::Rbx];
    let AsmLang(P::Module { info, .. }) = program.assign_registers(&regs);

    let mut expected = Assignment::new();
    expected.insert(t, Loc::Reg(Reg::R9));

    assert_eq!(info.assignment.unwrap(), expected);
}

#[test]
fn assign_registers_spills_in_elimination_order() {
    let mut gen = AlocGen::new();
    let a = gen.fresh();
    let b = gen.fresh();
    let c = gen.fresh();

    let mut locals = AlocSet::new();
    locals.insert(a.clone());
    locals.insert(b.clone());
    locals.insert(c.clone());
    let conflicts = Graph::new_from(&locals);

    let program = AsmLang(P::Module {
        info: Info {
            locals: Some(locals),
            conflicts: Some(conflicts),
            assignment: None,
            undead_out: None,
        },
        tail: Tail::Halt(Triv::Int64(0)),
    });

    let no_regs: Vec<Reg> = Vec::new();
    let AsmLang(P::Module { info, .. }) = program.assign_registers(&no_regs);

    // All degrees are zero, so elimination removes the smallest index first
    // and the select phase assigns slots in the reverse order.
    let mut expected = Assignment::new();
    expected.insert(a, Loc::Fvar(Fvar { index: 2 }));
    expected.insert(b, Loc::Fvar(Fvar { index: 1 }));
    expected.insert(c, Loc::Fvar(Fvar { index: 0 }));

    assert_eq!(info.assignment.unwrap(), expected);
}

#[test]
fn uncover_locals_sees_reads_and_writes() {
    let mut gen = AlocGen::new();
    let a = gen.fresh();
    let b = gen.fresh();

    let program = AsmLang(P::Module {
        info: Info::new(),
        tail: Tail::Begin {
            effects: vec![Effect::Assign { aloc: a.clone(), triv: Triv::Int64(1) }],
            tail: Box::new(Tail::Halt(Triv::Loc(b.clone()))),
        },
    });

    let AsmLang(P::Module { info, .. }) = program.uncover_locals();
    let locals = info.locals.unwrap();
    assert_eq!(locals.len(), 2);
    assert!(locals.contains_index(a.index));
    assert!(locals.contains_index(b.index));
}
