//! The allocation pipelines end to end, and the later linearisation
//! stages on small programs.

use asm_pipeline::asm_pred_lang as src;
use asm_pipeline::asm_pred_lang::AsmLang;
use asm_pipeline::block_asm_lang as ba;
use asm_pipeline::block_pred_lang as bp;
use asm_pipeline::nested_asm_lang as nested;
use asm_pipeline::para_asm_lang as para;
use asm_pipeline::paren_x64_fvars::Loc;
use asm_pipeline::utils::{AlocGen, Fvar, Label, Reg, Relop};

#[test]
fn assign_homes_gives_every_local_a_frame_slot() {
    let mut gen = AlocGen::new();
    let a = gen.fresh();

    let program = AsmLang(src::P::Module {
        info: src::Info::new(),
        tail: src::Tail::Begin {
            effects: vec![src::Effect::Assign { aloc: a.clone(), triv: src::Triv::Int64(5) }],
            tail: Box::new(src::Tail::Halt(src::Triv::Loc(a.clone()))),
        },
    });

    let actual = program.assign_homes();
    let expected = nested::NestedAsmLang(nested::P::Module(nested::Tail::Begin {
        effects: vec![nested::Effect::Assign {
            loc: Loc::Fvar(Fvar { index: 0 }),
            triv: para::Opand::Int64(5),
        }],
        tail: Box::new(nested::Tail::Halt(para::Opand::Loc(Loc::Fvar(Fvar { index: 0 })))),
    }));
    assert_eq!(actual, expected);
}

#[test]
fn assign_homes_opt_colours_with_the_first_free_register() {
    let mut gen = AlocGen::new();
    let a = gen.fresh();

    let program = AsmLang(src::P::Module {
        info: src::Info::new(),
        tail: src::Tail::Begin {
            effects: vec![src::Effect::Assign { aloc: a.clone(), triv: src::Triv::Int64(5) }],
            tail: Box::new(src::Tail::Halt(src::Triv::Loc(a.clone()))),
        },
    });

    let regs = asm_pipeline::default_assignable_registers();
    let actual = program.assign_homes_opt(&regs);
    let expected = nested::NestedAsmLang(nested::P::Module(nested::Tail::Begin {
        effects: vec![nested::Effect::Assign {
            loc: Loc::Reg(Reg::Rax),
            triv: para::Opand::Int64(5),
        }],
        tail: Box::new(nested::Tail::Halt(para::Opand::Loc(Loc::Reg(Reg::Rax)))),
    }));
    assert_eq!(actual, expected);
}

#[test]
fn compile_runs_the_allocation_stage() {
    let program = AsmLang(src::P::Module {
        info: src::Info::new(),
        tail: src::Tail::Halt(src::Triv::Int64(42)),
    });
    let regs = asm_pipeline::default_assignable_registers();
    let actual = asm_pipeline::compile(program, &regs).unwrap();
    let expected =
        nested::NestedAsmLang(nested::P::Module(nested::Tail::Halt(para::Opand::Int64(42))));
    assert_eq!(actual, expected);
}

#[test]
fn resolve_predicates_true_branch_becomes_a_jump() {
    let l1 = Label::new("yes", 0);
    let l2 = Label::new("no", 1);
    let program = bp::BlockPredLang(bp::P::Module(vec![bp::B::Define {
        label: Label::new("main", 2),
        tail: bp::Tail::IfBranch {
            pred: bp::Pred::True,
            trg1: para::Trg::Label(l1),
            trg2: para::Trg::Label(l2),
        },
    }]));

    let actual = program.resolve_predicates();
    let expected = ba::BlockAsmLang(ba::P::Module(vec![ba::B::Define {
        label: Label::new("main", 2),
        tail: ba::Tail::Jump(para::Trg::Label(Label::new("yes", 0))),
    }]));
    assert_eq!(actual, expected);
}

#[test]
fn resolve_predicates_negation_swaps_the_targets() {
    let l1 = Label::new("yes", 0);
    let l2 = Label::new("no", 1);
    let program = bp::BlockPredLang(bp::P::Module(vec![bp::B::Define {
        label: Label::new("main", 2),
        tail: bp::Tail::IfBranch {
            pred: bp::Pred::Not(Box::new(bp::Pred::Compare {
                relop: Relop::Lt,
                loc: Loc::Reg(Reg::Rax),
                opand: para::Opand::Int64(3),
            })),
            trg1: para::Trg::Label(l1),
            trg2: para::Trg::Label(l2),
        },
    }]));

    let actual = program.resolve_predicates();
    let expected = ba::BlockAsmLang(ba::P::Module(vec![ba::B::Define {
        label: Label::new("main", 2),
        tail: ba::Tail::IfBranch {
            relop: Relop::Lt,
            loc: Loc::Reg(Reg::Rax),
            opand: para::Opand::Int64(3),
            trg1: para::Trg::Label(Label::new("no", 1)),
            trg2: para::Trg::Label(Label::new("yes", 0)),
        },
    }]));
    assert_eq!(actual, expected);
}

#[test]
fn flatten_program_labels_the_first_instruction_of_each_block() {
    let program = ba::BlockAsmLang(ba::P::Module(vec![
        ba::B::Define {
            label: Label::new("main", 0),
            tail: ba::Tail::Begin {
                effects: vec![ba::Effect::Assign {
                    loc: Loc::Reg(Reg::Rax),
                    triv: para::Triv::Opand(para::Opand::Int64(1)),
                }],
                tail: Box::new(ba::Tail::Halt(para::Opand::Loc(Loc::Reg(Reg::Rax)))),
            },
        },
        ba::B::Define {
            label: Label::new("other", 1),
            tail: ba::Tail::Jump(para::Trg::Label(Label::new("main", 0))),
        },
    ]));

    let actual = program.flatten_program();
    let expected = para::ParaAsmLang(para::P::Begin(vec![
        para::S::WithLabel {
            label: Label::new("main", 0),
            s: Box::new(para::S::SetTriv {
                loc: Loc::Reg(Reg::Rax),
                triv: para::Triv::Opand(para::Opand::Int64(1)),
            }),
        },
        para::S::Halt(para::Opand::Loc(Loc::Reg(Reg::Rax))),
        para::S::WithLabel {
            label: Label::new("other", 1),
            s: Box::new(para::S::Jump(para::Trg::Label(Label::new("main", 0)))),
        },
    ]));
    assert_eq!(actual, expected);
}

#[test]
fn assign_homes_opt_colours_a_conditional() {
    let mut gen = AlocGen::new();
    let a = gen.fresh_with_name("a");
    let b = gen.fresh_with_name("b");

    let program = AsmLang(src::P::Module {
        info: src::Info::new(),
        tail: src::Tail::IfElse {
            pred: src::Pred::Compare {
                relop: Relop::Lt,
                aloc: a.clone(),
                triv: src::Triv::Int64(7),
            },
            tail1: Box::new(src::Tail::Halt(src::Triv::Loc(a.clone()))),
            tail2: Box::new(src::Tail::Halt(src::Triv::Loc(b.clone()))),
        },
    });

    // The comparison sees both locals live, so `a` conflicts with `b` but
    // not the other way round; `b` has the lower degree and is eliminated
    // first, leaving `a` to take the first register and `b` the second.
    let regs = asm_pipeline::default_assignable_registers();
    let actual = program.assign_homes_opt(&regs);
    let expected = nested::NestedAsmLang(nested::P::Module(nested::Tail::IfElse {
        pred: nested::Pred::Compare {
            relop: Relop::Lt,
            loc: Loc::Reg(Reg::Rax),
            triv: para::Opand::Int64(7),
        },
        tail1: Box::new(nested::Tail::Halt(para::Opand::Loc(Loc::Reg(Reg::Rax)))),
        tail2: Box::new(nested::Tail::Halt(para::Opand::Loc(Loc::Reg(Reg::Rbx)))),
    }));
    assert_eq!(actual, expected);
}

#[test]
fn relop_negate_flips_each_comparison() {
    assert_eq!(Relop::Gt.negate(), Relop::Lte);
    assert_eq!(Relop::Gte.negate(), Relop::Lt);
    assert_eq!(Relop::Lt.negate(), Relop::Gte);
    assert_eq!(Relop::Lte.negate(), Relop::Gt);
    assert_eq!(Relop::Eq.negate(), Relop::Neq);
    assert_eq!(Relop::Neq.negate(), Relop::Eq);
}
