//! Reifying frame variables into displacement-mode addresses, eight bytes
//! per slot off the frame base pointer.

use asm_pipeline::paren_x64 as target;
use asm_pipeline::paren_x64_fvars::{Loc, ParenX64Fvars, P, S};
use asm_pipeline::utils::{Addr, Binop, Fvar, Reg};

#[test]
fn empty() {
    let actual = ParenX64Fvars(P::Begin(vec![])).implement_fvars();
    let expected = target::ParenX64(target::P::Begin(vec![]));
    assert_eq!(actual, expected);
}

#[test]
fn basic() {
    let actual = ParenX64Fvars(P::Begin(vec![
        S::SetRegTriv { reg: Reg::R10, triv: target::Triv::Int64(5) },
        S::SetRegBinopInt32 { reg: Reg::R10, binop: Binop::Plus, int32: 5 },
    ]))
    .implement_fvars();

    let expected = target::ParenX64(target::P::Begin(vec![
        target::S::SetRegTriv { reg: Reg::R10, triv: target::Triv::Int64(5) },
        target::S::SetRegBinopInt32 { reg: Reg::R10, binop: Binop::Plus, int32: 5 },
    ]));

    assert_eq!(actual, expected);
}

#[test]
fn one_fvar_conversion() {
    let actual = ParenX64Fvars(P::Begin(vec![S::SetFvarInt32 {
        fvar: Fvar { index: 0 },
        int32: 5,
    }]))
    .implement_fvars();

    let expected = target::ParenX64(target::P::Begin(vec![target::S::SetAddrInt32 {
        addr: Addr { fbp: Reg::Rbp, disp_offset: 0 },
        int32: 5,
    }]));

    assert_eq!(actual, expected);
}

#[test]
fn many_fvar_conversions() {
    let actual = ParenX64Fvars(P::Begin(vec![
        S::SetFvarInt32 { fvar: Fvar { index: 0 }, int32: 5 },
        S::SetFvarInt32 { fvar: Fvar { index: 1 }, int32: 6 },
    ]))
    .implement_fvars();

    let expected = target::ParenX64(target::P::Begin(vec![
        target::S::SetAddrInt32 { addr: Addr { fbp: Reg::Rbp, disp_offset: 0 }, int32: 5 },
        target::S::SetAddrInt32 { addr: Addr { fbp: Reg::Rbp, disp_offset: 8 }, int32: 6 },
    ]));

    assert_eq!(actual, expected);
}

#[test]
fn many_loc_conversions() {
    let actual = ParenX64Fvars(P::Begin(vec![
        S::SetRegLoc { reg: Reg::R10, loc: Loc::Fvar(Fvar { index: 0 }) },
        S::SetRegBinopLoc {
            reg: Reg::R11,
            binop: Binop::Multiply,
            loc: Loc::Fvar(Fvar { index: 1 }),
        },
    ]))
    .implement_fvars();

    let expected = target::ParenX64(target::P::Begin(vec![
        target::S::SetRegLoc {
            reg: Reg::R10,
            loc: target::Loc::Addr(Addr { fbp: Reg::Rbp, disp_offset: 0 }),
        },
        target::S::SetRegBinopLoc {
            reg: Reg::R11,
            binop: Binop::Multiply,
            loc: target::Loc::Addr(Addr { fbp: Reg::Rbp, disp_offset: 8 }),
        },
    ]));

    assert_eq!(actual, expected);
}
