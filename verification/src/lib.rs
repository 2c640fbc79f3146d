//! A verified register-allocation backend for a small assembly-like
//! intermediate representation.
//!
//! The heart of the crate is the `asm_pred_lang` module and the passes on its
//! `AsmLang` programs: collecting the referenced abstract locations, the
//! backward liveness ("undeadness") analysis, conflict-graph construction,
//! graph-colouring register assignment with spill-to-frame fallback, and the
//! rewrite that replaces every abstract location by its assigned physical
//! location.  The later modules carry the resulting tree further down the
//! pipeline: predicate resolution, block flattening and frame-variable
//! reification.

pub mod asm_pred_lang;
pub mod block_asm_lang;
pub mod block_pred_lang;
pub mod nested_asm_lang;
pub mod para_asm_lang;
pub mod assignment;
pub mod graph;
pub mod laws;
pub mod paren_x64;
pub mod paren_x64_fvars;
pub mod sets;
pub mod ust;
pub mod utils;
mod uncover;
mod undead;
mod conflicts;
mod allocate;
mod homes;
mod replace;

use vstd::prelude::*;

verus! {

use crate::allocate::alloc_post;
use crate::asm_pred_lang::{program_tail, tail_alocs, AsmLang};
use crate::assignment::Assignment;
use crate::nested_asm_lang::{tail_view, NestedAsmLang};
use crate::replace::replace_tail_model;
use crate::utils::Reg;

/// Runs the register-allocation stage of the pipeline: graph-colouring
/// allocation over the given pool of assignable registers, then the rewrite
/// into the next intermediate representation.  Allocation never fails:
/// exhausting the pool spills to fresh frame slots.
pub fn compile(p: AsmLang, regs: &Vec<Reg>) -> (r: Result<NestedAsmLang, String>)
    ensures
        r matches Ok(out) && exists|asgn: Assignment|
            (#[trigger] asgn.wf()) && alloc_post(asgn, tail_alocs(program_tail(p.0)), regs@) && (
            out.0 matches crate::nested_asm_lang::P::Module(t) && tail_view(t)
                == replace_tail_model(program_tail(p.0), asgn@)),
{
    Ok(p.assign_homes_opt(regs))
}

/// The registers handed to the allocator when the caller does not restrict
/// the pool: every machine register except the frame/stack pointers and the
/// two auxiliary scratch registers reserved for later patching passes.
pub fn default_assignable_registers() -> (regs: Vec<Reg>)
    ensures
        regs@ =~= default_register_pool(),
{
    let mut regs: Vec<Reg> = Vec::new();
    regs.push(Reg::Rax);
    regs.push(Reg::Rbx);
    regs.push(Reg::Rcx);
    regs.push(Reg::Rdx);
    regs.push(Reg::Rsi);
    regs.push(Reg::Rdi);
    regs.push(Reg::R8);
    regs.push(Reg::R9);
    regs.push(Reg::R12);
    regs.push(Reg::R13);
    regs.push(Reg::R14);
    regs.push(Reg::R15);
    assert(regs@ =~= default_register_pool());
    regs
}

/// The default pool, in the order the allocator prefers its members.
pub open spec fn default_register_pool() -> Seq<Reg> {
    seq![
        Reg::Rax,
        Reg::Rbx,
        Reg::Rcx,
        Reg::Rdx,
        Reg::Rsi,
        Reg::Rdi,
        Reg::R8,
        Reg::R9,
        Reg::R12,
        Reg::R13,
        Reg::R14,
        Reg::R15,
    ]
}

} // verus!
