//! The liveness analysis on concrete programs: the undead-set tree mirrors
//! the program's nesting, one leaf per program point.

use asm_pipeline::asm_pred_lang::{AsmLang, Effect, Info, Tail, Triv, P};
use asm_pipeline::sets::AlocSet;
use asm_pipeline::ust::Node;
use asm_pipeline::utils::{Aloc, AlocGen};

fn module(tail: Tail) -> AsmLang {
    AsmLang(P::Module { info: Info::new(), tail })
}

fn undead_out(p: AsmLang) -> Node {
    let AsmLang(P::Module { info, .. }) = p.undead_analysis();
    info.undead_out.unwrap()
}

fn set_of(alocs: &[&Aloc]) -> AlocSet {
    let mut s = AlocSet::new();
    for a in alocs {
        s.insert((*a).clone());
    }
    s
}

#[test]
fn undead_analysis_basic_recursion_depth_0() {
    let program = module(Tail::Halt(Triv::Int64(10)));
    assert_eq!(undead_out(program), Node::Leaf { alocs: set_of(&[]) });
}

#[test]
fn undead_analysis_basic_recursion_depth_1() {
    let program = module(Tail::Begin {
        effects: vec![],
        tail: Box::new(Tail::Halt(Triv::Int64(10))),
    });
    assert_eq!(
        undead_out(program),
        Node::Tree { nodes: vec![Node::Leaf { alocs: set_of(&[]) }] }
    );
}

#[test]
fn undead_analysis_basic_recursion_depth_2() {
    let program = module(Tail::Begin {
        effects: vec![],
        tail: Box::new(Tail::Begin {
            effects: vec![],
            tail: Box::new(Tail::Halt(Triv::Int64(10))),
        }),
    });
    assert_eq!(
        undead_out(program),
        Node::Tree {
            nodes: vec![Node::Tree { nodes: vec![Node::Leaf { alocs: set_of(&[]) }] }]
        }
    );
}

#[test]
fn undead_analysis_basic_begins_with_triv_ref() {
    let mut gen = AlocGen::new();
    let aloc = gen.fresh();

    let program = module(Tail::Begin {
        effects: vec![Effect::Assign { aloc: aloc.clone(), triv: Triv::Int64(10) }],
        tail: Box::new(Tail::Halt(Triv::Loc(aloc.clone()))),
    });

    assert_eq!(
        undead_out(program),
        Node::Tree {
            nodes: vec![
                Node::Leaf { alocs: set_of(&[&aloc]) },
                Node::Leaf { alocs: set_of(&[]) },
            ]
        }
    );
}

#[test]
fn undead_analysis_basic_begins_with_multiple_effects() {
    let mut gen = AlocGen::new();
    let aloc = gen.fresh();
    let aloc2 = gen.fresh();

    let program = module(Tail::Begin {
        effects: vec![
            Effect::Assign { aloc: aloc2.clone(), triv: Triv::Int64(10) },
            Effect::Assign { aloc: aloc.clone(), triv: Triv::Int64(10) },
        ],
        tail: Box::new(Tail::Halt(Triv::Loc(aloc2.clone()))),
    });

    assert_eq!(
        undead_out(program),
        Node::Tree {
            nodes: vec![
                Node::Leaf { alocs: set_of(&[&aloc2]) },
                Node::Leaf { alocs: set_of(&[&aloc2]) },
                Node::Leaf { alocs: set_of(&[]) },
            ]
        }
    );
}

#[test]
fn undead_analysis_basic_begins_with_multiple_effects_2() {
    let mut gen = AlocGen::new();
    let aloc = gen.fresh();
    let aloc2 = gen.fresh();

    let program = module(Tail::Begin {
        effects: vec![
            Effect::Assign { aloc: aloc2.clone(), triv: Triv::Int64(10) },
            Effect::Assign { aloc: aloc.clone(), triv: Triv::Int64(10) },
            Effect::Assign { aloc: aloc2.clone(), triv: Triv::Loc(aloc.clone()) },
        ],
        tail: Box::new(Tail::Halt(Triv::Loc(aloc2.clone()))),
    });

    assert_eq!(
        undead_out(program),
        Node::Tree {
            nodes: vec![
                Node::Leaf { alocs: set_of(&[]) },
                Node::Leaf { alocs: set_of(&[&aloc]) },
                Node::Leaf { alocs: set_of(&[&aloc2]) },
                Node::Leaf { alocs: set_of(&[]) },
            ]
        }
    );
}

#[test]
fn undead_analysis_intermediary_begins_with_empty_nested_begin() {
    let mut gen = AlocGen::new();
    let aloc = gen.fresh();

    let program = module(Tail::Begin {
        effects: vec![Effect::Begin(vec![])],
        tail: Box::new(Tail::Halt(Triv::Loc(aloc))),
    });

    assert_eq!(
        undead_out(program),
        Node::Tree {
            nodes: vec![
                Node::Tree { nodes: vec![] },
                Node::Leaf { alocs: set_of(&[]) },
            ]
        }
    );
}

#[test]
fn undead_analysis_intermediary_begins_with_nested_begin() {
    let mut gen = AlocGen::new();
    let aloc = gen.fresh();

    let program = module(Tail::Begin {
        effects: vec![Effect::Begin(vec![Effect::Assign {
            aloc: aloc.clone(),
            triv: Triv::Int64(10),
        }])],
        tail: Box::new(Tail::Halt(Triv::Loc(aloc.clone()))),
    });

    assert_eq!(
        undead_out(program),
        Node::Tree {
            nodes: vec![
                Node::Tree { nodes: vec![Node::Leaf { alocs: set_of(&[&aloc]) }] },
                Node::Leaf { alocs: set_of(&[]) },
            ]
        }
    );
}

#[test]
fn undead_analysis_binop_kills_without_reading() {
    let mut gen = AlocGen::new();
    let a1 = gen.fresh();
    let a2 = gen.fresh();

    // The compound assignment kills its target and adds only the
    // right-hand operand, so `a2` is not undead between its two
    // definitions even though the second one reads its old value.
    let program = module(Tail::Begin {
        effects: vec![
            Effect::Assign { aloc: a2.clone(), triv: Triv::Int64(10) },
            Effect::AssignBinop {
                aloc: a2.clone(),
                binop: asm_pipeline::utils::Binop::Plus,
                triv: Triv::Loc(a1.clone()),
            },
        ],
        tail: Box::new(Tail::Halt(Triv::Loc(a2.clone()))),
    });

    assert_eq!(
        undead_out(program),
        Node::Tree {
            nodes: vec![
                Node::Leaf { alocs: set_of(&[&a1]) },
                Node::Leaf { alocs: set_of(&[&a2]) },
                Node::Leaf { alocs: set_of(&[]) },
            ]
        }
    );
}

#[test]
fn undead_analysis_scenario_chained_definitions() {
    let mut gen = AlocGen::new();
    let a1 = gen.fresh();
    let a2 = gen.fresh();

    let program = module(Tail::Begin {
        effects: vec![
            Effect::Assign { aloc: a2.clone(), triv: Triv::Int64(5) },
            Effect::Assign { aloc: a1.clone(), triv: Triv::Int64(3) },
        ],
        tail: Box::new(Tail::Halt(Triv::Loc(a2.clone()))),
    });

    assert_eq!(
        undead_out(program),
        Node::Tree {
            nodes: vec![
                Node::Leaf { alocs: set_of(&[&a2]) },
                Node::Leaf { alocs: set_of(&[&a2]) },
                Node::Leaf { alocs: set_of(&[]) },
            ]
        }
    );
}
