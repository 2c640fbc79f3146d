//! The language of linear instructions whose storage is registers and
//! numbered frame variables; the step before frame variables are reified
//! into displacement-mode addresses.

use vstd::prelude::*;

use crate::utils::{Binop, Fvar, Label, Reg, Relop};

verus! {

/// A storage location: a register or a frame variable.
#[derive(Debug, Clone, Copy, PartialEq, Eq, Structural)]
pub enum Loc {
    Reg(Reg),
    Fvar(Fvar),
}

/// A whole program: a linear run of instructions.
#[derive(Debug, PartialEq, Eq)]
pub enum P {
    Begin(Vec<S>),
}

/// One instruction.
#[derive(Debug, PartialEq, Eq)]
pub enum S {
    SetFvarInt32 { fvar: Fvar, int32: i32 },
    SetFvarTrg { fvar: Fvar, trg: crate::paren_x64::Trg },
    SetRegLoc { reg: Reg, loc: Loc },
    SetRegTriv { reg: Reg, triv: crate::paren_x64::Triv },
    SetRegBinopInt32 { reg: Reg, binop: Binop, int32: i32 },
    SetRegBinopLoc { reg: Reg, binop: Binop, loc: Loc },
    WithLabel { label: Label, s: Box<S> },
    Jump(crate::paren_x64::Trg),
    CompareJump { reg: Reg, opand: crate::paren_x64::Opand, relop: Relop, label: Label },
    Nop,
}

/// A program awaiting frame-variable reification.
#[derive(Debug, PartialEq, Eq)]
pub struct ParenX64Fvars(pub P);

/// The mathematical shape of an instruction: labels by their key.
pub enum SV {
    SetFvarInt32 { fvar: Fvar, int32: i32 },
    SetFvarTrg { fvar: Fvar, trg: crate::paren_x64::TrgS },
    SetRegLoc { reg: Reg, loc: Loc },
    SetRegTriv { reg: Reg, triv: crate::paren_x64::TrivS },
    SetRegBinopInt32 { reg: Reg, binop: Binop, int32: i32 },
    SetRegBinopLoc { reg: Reg, binop: Binop, loc: Loc },
    WithLabel { label: (Seq<char>, int), s: Box<SV> },
    Jump(crate::paren_x64::TrgS),
    CompareJump {
        reg: Reg,
        opand: crate::paren_x64::Opand,
        relop: Relop,
        label: (Seq<char>, int),
    },
    Nop,
}

pub open spec fn s_view(s: S) -> SV
    decreases s,
{
    match s {
        S::SetFvarInt32 { fvar, int32 } => SV::SetFvarInt32 { fvar, int32 },
        S::SetFvarTrg { fvar, trg } => SV::SetFvarTrg {
            fvar,
            trg: crate::paren_x64::trg_view(trg),
        },
        S::SetRegLoc { reg, loc } => SV::SetRegLoc { reg, loc },
        S::SetRegTriv { reg, triv } => SV::SetRegTriv {
            reg,
            triv: crate::paren_x64::triv_view(triv),
        },
        S::SetRegBinopInt32 { reg, binop, int32 } => SV::SetRegBinopInt32 { reg, binop, int32 },
        S::SetRegBinopLoc { reg, binop, loc } => SV::SetRegBinopLoc { reg, binop, loc },
        S::WithLabel { label, s } => SV::WithLabel {
            label: crate::utils::label_key(label),
            s: Box::new(s_view(*s)),
        },
        S::Jump(trg) => SV::Jump(crate::paren_x64::trg_view(trg)),
        S::CompareJump { reg, opand, relop, label } => SV::CompareJump {
            reg,
            opand,
            relop,
            label: crate::utils::label_key(label),
        },
        S::Nop => SV::Nop,
    }
}

pub open spec fn ss_view(ss: Seq<S>) -> Seq<SV> {
    ss.map_values(|s: S| s_view(s))
}

/// Every frame variable of the instruction fits in a frame once scaled to
/// a byte offset.
pub open spec fn sv_small(s: SV) -> bool
    decreases s,
{
    match s {
        SV::SetFvarInt32 { fvar, int32 } => 8 * fvar.index <= usize::MAX,
        SV::SetFvarTrg { fvar, trg } => 8 * fvar.index <= usize::MAX,
        SV::SetRegLoc { reg, loc } => loc_small(loc),
        SV::SetRegBinopLoc { reg, binop, loc } => loc_small(loc),
        SV::WithLabel { label, s } => sv_small(*s),
        _ => true,
    }
}

pub open spec fn loc_small(l: Loc) -> bool {
    match l {
        Loc::Reg(_) => true,
        Loc::Fvar(f) => 8 * f.index <= usize::MAX,
    }
}

/// The frame variable as a displacement from the frame base pointer: eight
/// bytes per slot.
pub open spec fn fvar_addr(f: Fvar) -> crate::utils::Addr {
    crate::utils::Addr { fbp: Reg::Rbp, disp_offset: (8 * f.index) as usize }
}

pub open spec fn implement_loc_model(l: Loc) -> crate::paren_x64::Loc {
    match l {
        Loc::Reg(r) => crate::paren_x64::Loc::Reg(r),
        Loc::Fvar(f) => crate::paren_x64::Loc::Addr(fvar_addr(f)),
    }
}

/// What one instruction becomes once its frame variables are reified.
pub open spec fn implement_s_model(s: SV) -> crate::paren_x64::SV
    decreases s,
{
    match s {
        SV::SetFvarInt32 { fvar, int32 } => crate::paren_x64::SV::SetAddrInt32 {
            addr: fvar_addr(fvar),
            int32,
        },
        SV::SetFvarTrg { fvar, trg } => crate::paren_x64::SV::SetAddrTrg {
            addr: fvar_addr(fvar),
            trg,
        },
        SV::SetRegLoc { reg, loc } => crate::paren_x64::SV::SetRegLoc {
            reg,
            loc: implement_loc_model(loc),
        },
        SV::SetRegTriv { reg, triv } => crate::paren_x64::SV::SetRegTriv { reg, triv },
        SV::SetRegBinopInt32 { reg, binop, int32 } => crate::paren_x64::SV::SetRegBinopInt32 {
            reg,
            binop,
            int32,
        },
        SV::SetRegBinopLoc { reg, binop, loc } => crate::paren_x64::SV::SetRegBinopLoc {
            reg,
            binop,
            loc: implement_loc_model(loc),
        },
        SV::WithLabel { label, s } => crate::paren_x64::SV::WithLabel {
            label,
            s: Box::new(implement_s_model(*s)),
        },
        SV::Jump(trg) => crate::paren_x64::SV::Jump(trg),
        SV::CompareJump { reg, opand, relop, label } => crate::paren_x64::SV::CompareJump {
            reg,
            opand,
            relop,
            label,
        },
        SV::Nop => crate::paren_x64::SV::Nop,
    }
}

impl ParenX64Fvars {
    /// Reifies every frame variable into a displacement-mode address off
    /// the frame base pointer, eight bytes per slot.
    pub fn implement_fvars(self) -> (r: crate::paren_x64::ParenX64)
        requires
            self.0 matches P::Begin(ss) && (forall|i: int|
                0 <= i < ss@.len() ==> sv_small(#[trigger] ss_view(ss@)[i])),
        ensures
            r.0 matches crate::paren_x64::P::Begin(out) && crate::paren_x64::ss_view(out@)
                == ss_view(program_instrs(self.0)@).map_values(
                |s: SV| implement_s_model(s),
            ),
    {
        let ParenX64Fvars(p) = self;
        match p {
            P::Begin(ss) => {
                let mut ss = ss;
                let ghost ss0 = ss@;
                let mut out: Vec<crate::paren_x64::S> = Vec::new();
                let ghost mut done: int = 0;
                while ss.len() > 0
                    invariant
                        0 <= done <= ss0.len(),
                        ss@ =~= ss0.subrange(done, ss0.len() as int),
                        forall|i: int|
                            0 <= i < ss0.len() ==> sv_small(#[trigger] ss_view(ss0)[i]),
                        crate::paren_x64::ss_view(out@) =~= ss_view(ss0).map_values(
                            |s: SV| implement_s_model(s),
                        ).subrange(0, done),
                    decreases ss@.len(),
                {
                    let s = ss.remove(0);
                    proof {
                        assert(s == ss0[done]);
                        assert(ss@ =~= ss0.subrange(done + 1, ss0.len() as int));
                        assert(sv_small(ss_view(ss0)[done]));
                        assert(ss_view(ss0)[done] == s_view(s));
                    }
                    let ns = implement_s(s);
                    let ghost outp = out@;
                    out.push(ns);
                    proof {
                        crate::paren_x64::lemma_ss_view_push(outp, ns);
                        assert(crate::paren_x64::ss_view(out@) =~= ss_view(ss0).map_values(
                            |s: SV| implement_s_model(s),
                        ).subrange(0, done + 1));
                        done = done + 1;
                    }
                }
                proof {
                    assert(ss_view(ss0).map_values(|s: SV| implement_s_model(s)).subrange(
                        0,
                        done,
                    ) =~= ss_view(ss0).map_values(|s: SV| implement_s_model(s)));
                }
                crate::paren_x64::ParenX64(crate::paren_x64::P::Begin(out))
            },
        }
    }
}

/// The instructions a program holds.
pub open spec fn program_instrs(p: P) -> Vec<S> {
    match p {
        P::Begin(ss) => ss,
    }
}

fn implement_s(s: S) -> (r: crate::paren_x64::S)
    requires
        sv_small(s_view(s)),
    ensures
        crate::paren_x64::s_view(r) == implement_s_model(s_view(s)),
    decreases s,
{
    match s {
        S::SetFvarInt32 { fvar, int32 } => crate::paren_x64::S::SetAddrInt32 {
            addr: implement_fvar(fvar),
            int32,
        },
        S::SetFvarTrg { fvar, trg } => crate::paren_x64::S::SetAddrTrg {
            addr: implement_fvar(fvar),
            trg,
        },
        S::SetRegLoc { reg, loc } => crate::paren_x64::S::SetRegLoc {
            reg,
            loc: implement_loc(loc),
        },
        S::SetRegTriv { reg, triv } => crate::paren_x64::S::SetRegTriv { reg, triv },
        S::SetRegBinopInt32 { reg, binop, int32 } => crate::paren_x64::S::SetRegBinopInt32 {
            reg,
            binop,
            int32,
        },
        S::SetRegBinopLoc { reg, binop, loc } => crate::paren_x64::S::SetRegBinopLoc {
            reg,
            binop,
            loc: implement_loc(loc),
        },
        S::WithLabel { label, s } => {
            let inner = implement_s(*s);
            crate::paren_x64::S::WithLabel { label, s: Box::new(inner) }
        },
        S::Jump(trg) => crate::paren_x64::S::Jump(trg),
        S::CompareJump { reg, opand, relop, label } => crate::paren_x64::S::CompareJump {
            reg,
            opand,
            relop,
            label,
        },
        S::Nop => crate::paren_x64::S::Nop,
    }
}

/// The displacement-mode address of a frame variable.
fn implement_fvar(f: Fvar) -> (r: crate::utils::Addr)
    requires
        8 * f.index <= usize::MAX,
    ensures
        r == fvar_addr(f),
{
    let fbp = Reg::current_frame_base_pointer();
    crate::utils::Addr { fbp, disp_offset: f.index * 8 }
}

fn implement_loc(l: Loc) -> (r: crate::paren_x64::Loc)
    requires
        loc_small(l),
    ensures
        r == implement_loc_model(l),
{
    match l {
        Loc::Reg(r) => crate::paren_x64::Loc::Reg(r),
        Loc::Fvar(f) => crate::paren_x64::Loc::Addr(implement_fvar(f)),
    }
}

} // verus!
