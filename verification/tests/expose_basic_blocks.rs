//! Exposing basic blocks on straight-line programs: empty begins vanish,
//! nested begins splice, and the entry block is labelled `main`.

use asm_pipeline::block_asm_lang as ba;
use asm_pipeline::block_pred_lang as bp;
use asm_pipeline::nested_asm_lang::{Effect, NestedAsmLang, Tail, P};
use asm_pipeline::para_asm_lang::{Opand, Triv};
use asm_pipeline::paren_x64_fvars::Loc;
use asm_pipeline::utils::{Label, Reg};

fn main_block(tail: bp::Tail) -> bp::BlockPredLang {
    bp::BlockPredLang(bp::P::Module(vec![bp::B::Define {
        label: Label::new("main", 0),
        tail,
    }]))
}

#[test]
fn basic_halt() {
    let program = NestedAsmLang(P::Module(Tail::Halt(Opand::Int64(5))));
    let actual = program.expose_basic_blocks();
    let expected = main_block(bp::Tail::Halt(Opand::Int64(5)));
    assert_eq!(actual, expected);
}

#[test]
fn with_no_effects() {
    let program = NestedAsmLang(P::Module(Tail::Begin {
        effects: vec![],
        tail: Box::new(Tail::Halt(Opand::Int64(5))),
    }));
    let actual = program.expose_basic_blocks();
    let expected = main_block(bp::Tail::Halt(Opand::Int64(5)));
    assert_eq!(actual, expected);
}

#[test]
fn with_effect() {
    let program = NestedAsmLang(P::Module(Tail::Begin {
        effects: vec![Effect::Assign { loc: Loc::Reg(Reg::R10), triv: Opand::Int64(5) }],
        tail: Box::new(Tail::Halt(Opand::Int64(5))),
    }));
    let actual = program.expose_basic_blocks();
    let expected = main_block(bp::Tail::Begin {
        effects: vec![ba::Effect::Assign {
            loc: Loc::Reg(Reg::R10),
            triv: Triv::Opand(Opand::Int64(5)),
        }],
        tail: Box::new(bp::Tail::Halt(Opand::Int64(5))),
    });
    assert_eq!(actual, expected);
}

#[test]
fn nested_begin_with_no_effects() {
    let program = NestedAsmLang(P::Module(Tail::Begin {
        effects: vec![
            Effect::Assign { loc: Loc::Reg(Reg::R10), triv: Opand::Int64(5) },
            Effect::Begin(vec![]),
        ],
        tail: Box::new(Tail::Halt(Opand::Int64(5))),
    }));
    let actual = program.expose_basic_blocks();
    let expected = main_block(bp::Tail::Begin {
        effects: vec![ba::Effect::Assign {
            loc: Loc::Reg(Reg::R10),
            triv: Triv::Opand(Opand::Int64(5)),
        }],
        tail: Box::new(bp::Tail::Halt(Opand::Int64(5))),
    });
    assert_eq!(actual, expected);
}

#[test]
fn nested_begin() {
    let program = NestedAsmLang(P::Module(Tail::Begin {
        effects: vec![
            Effect::Assign { loc: Loc::Reg(Reg::R10), triv: Opand::Int64(5) },
            Effect::Begin(vec![
                Effect::Assign { loc: Loc::Reg(Reg::R11), triv: Opand::Int64(5) },
                Effect::Assign { loc: Loc::Reg(Reg::R12), triv: Opand::Int64(5) },
            ]),
        ],
        tail: Box::new(Tail::Halt(Opand::Int64(5))),
    }));
    let actual = program.expose_basic_blocks();
    let expected = main_block(bp::Tail::Begin {
        effects: vec![
            ba::Effect::Assign { loc: Loc::Reg(Reg::R10), triv: Triv::Opand(Opand::Int64(5)) },
            ba::Effect::Assign { loc: Loc::Reg(Reg::R11), triv: Triv::Opand(Opand::Int64(5)) },
            ba::Effect::Assign { loc: Loc::Reg(Reg::R12), triv: Triv::Opand(Opand::Int64(5)) },
        ],
        tail: Box::new(bp::Tail::Halt(Opand::Int64(5))),
    });
    assert_eq!(actual, expected);
}

#[test]
fn optimize_predicates_keeps_the_program() {
    let program = NestedAsmLang(P::Module(Tail::Halt(Opand::Int64(7))));
    let expected = NestedAsmLang(P::Module(Tail::Halt(Opand::Int64(7))));
    assert_eq!(program.optimize_predicates(), expected);
}
