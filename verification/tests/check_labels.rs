//! Label checking on finished programs: duplicates and dangling jump
//! targets are rejected, and a sound program comes back unchanged.

use asm_pipeline::paren_x64::{ParenX64, P, S, Trg, Triv};
use asm_pipeline::utils::{Label, Reg};

fn labelled_nop(name: &str, index: usize) -> S {
    S::WithLabel { label: Label::new(name, index), s: Box::new(S::Nop) }
}

#[test]
fn check_labels_accepts_a_sound_program() {
    let program = ParenX64(P::Begin(vec![
        labelled_nop("main", 0),
        S::Jump(Trg::Label(Label::new("done", 1))),
        labelled_nop("done", 1),
    ]));
    let expected = ParenX64(P::Begin(vec![
        labelled_nop("main", 0),
        S::Jump(Trg::Label(Label::new("done", 1))),
        labelled_nop("done", 1),
    ]));
    assert_eq!(program.check_labels().unwrap(), expected);
}

#[test]
fn check_labels_rejects_a_duplicate_label() {
    let program = ParenX64(P::Begin(vec![
        labelled_nop("main", 0),
        labelled_nop("main", 0),
    ]));
    assert!(program.check_labels().is_err());
}

#[test]
fn check_labels_rejects_a_dangling_jump() {
    let program = ParenX64(P::Begin(vec![
        labelled_nop("main", 0),
        S::Jump(Trg::Label(Label::new("elsewhere", 7))),
    ]));
    assert!(program.check_labels().is_err());
}

#[test]
fn check_labels_ignores_register_jumps() {
    let program = ParenX64(P::Begin(vec![
        S::SetRegTriv { reg: Reg::Rax, triv: Triv::Int64(3) },
        S::Jump(Trg::Reg(Reg::Rax)),
    ]));
    assert!(program.check_labels().is_ok());
}
