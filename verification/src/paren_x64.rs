//! The lowest structured language of the pipeline: linear x64-like
//! instructions whose memory operands are explicit displacement-mode
//! addresses.

use vstd::prelude::*;

use crate::utils::{Addr, Binop, Label, Reg, Relop};

verus! {

/// A storage location: a register or a memory address.
#[derive(Debug, Clone, Copy, PartialEq, Eq, Structural)]
pub enum Loc {
    Reg(Reg),
    Addr(Addr),
}

/// A jump target: a register holding an address, or a label.
#[derive(Debug, PartialEq, Eq)]
pub enum Trg {
    Reg(Reg),
    Label(Label),
}

/// A value an instruction can move: a jump target or an immediate.
#[derive(Debug, PartialEq, Eq)]
pub enum Triv {
    Trg(Trg),
    Int64(i64),
}

/// An operand of a comparison: an immediate or a register.
#[derive(Debug, Clone, Copy, PartialEq, Eq, Structural)]
pub enum Opand {
    Int64(i64),
    Reg(Reg),
}

/// A whole program: a linear run of instructions.
#[derive(Debug, PartialEq, Eq)]
pub enum P {
    Begin(Vec<S>),
}

/// One instruction.
#[derive(Debug, PartialEq, Eq)]
pub enum S {
    SetAddrInt32 { addr: Addr, int32: i32 },
    SetAddrTrg { addr: Addr, trg: Trg },
    SetRegLoc { reg: Reg, loc: Loc },
    SetRegTriv { reg: Reg, triv: Triv },
    SetRegBinopInt32 { reg: Reg, binop: Binop, int32: i32 },
    SetRegBinopLoc { reg: Reg, binop: Binop, loc: Loc },
    WithLabel { label: Label, s: Box<S> },
    Jump(Trg),
    CompareJump { reg: Reg, opand: Opand, relop: Relop, label: Label },
    Nop,
}

/// A finished machine-level program.
#[derive(Debug, PartialEq, Eq)]
pub struct ParenX64(pub P);

/// The mathematical shape of a jump target: labels by their key.
pub enum TrgS {
    Reg(Reg),
    Label((Seq<char>, int)),
}

pub open spec fn trg_view(t: Trg) -> TrgS {
    match t {
        Trg::Reg(r) => TrgS::Reg(r),
        Trg::Label(l) => TrgS::Label(crate::utils::label_key(l)),
    }
}

/// The mathematical shape of a movable value.
pub enum TrivS {
    Trg(TrgS),
    Int64(i64),
}

pub open spec fn triv_view(t: Triv) -> TrivS {
    match t {
        Triv::Trg(trg) => TrivS::Trg(trg_view(trg)),
        Triv::Int64(i) => TrivS::Int64(i),
    }
}

/// The mathematical shape of an instruction.
pub enum SV {
    SetAddrInt32 { addr: Addr, int32: i32 },
    SetAddrTrg { addr: Addr, trg: TrgS },
    SetRegLoc { reg: Reg, loc: Loc },
    SetRegTriv { reg: Reg, triv: TrivS },
    SetRegBinopInt32 { reg: Reg, binop: Binop, int32: i32 },
    SetRegBinopLoc { reg: Reg, binop: Binop, loc: Loc },
    WithLabel { label: (Seq<char>, int), s: Box<SV> },
    Jump(TrgS),
    CompareJump { reg: Reg, opand: Opand, relop: Relop, label: (Seq<char>, int) },
    Nop,
}

pub open spec fn s_view(s: S) -> SV
    decreases s,
{
    match s {
        S::SetAddrInt32 { addr, int32 } => SV::SetAddrInt32 { addr, int32 },
        S::SetAddrTrg { addr, trg } => SV::SetAddrTrg { addr, trg: trg_view(trg) },
        S::SetRegLoc { reg, loc } => SV::SetRegLoc { reg, loc },
        S::SetRegTriv { reg, triv } => SV::SetRegTriv { reg, triv: triv_view(triv) },
        S::SetRegBinopInt32 { reg, binop, int32 } => SV::SetRegBinopInt32 { reg, binop, int32 },
        S::SetRegBinopLoc { reg, binop, loc } => SV::SetRegBinopLoc { reg, binop, loc },
        S::WithLabel { label, s } => SV::WithLabel {
            label: crate::utils::label_key(label),
            s: Box::new(s_view(*s)),
        },
        S::Jump(trg) => SV::Jump(trg_view(trg)),
        S::CompareJump { reg, opand, relop, label } => SV::CompareJump {
            reg,
            opand,
            relop,
            label: crate::utils::label_key(label),
        },
        S::Nop => SV::Nop,
    }
}

pub open spec fn ss_view(ss: Seq<S>) -> Seq<SV> {
    ss.map_values(|s: S| s_view(s))
}

pub proof fn lemma_ss_view_push(ss: Seq<S>, s: S)
    ensures
        ss_view(ss.push(s)) =~= ss_view(ss).push(s_view(s)),
{
    assert forall|i: int| 0 <= i < ss.len() + 1 implies ss_view(ss.push(s))[i] == ss_view(ss).push(
        s_view(s),
    )[i] by {
        if i < ss.len() {
            assert(ss.push(s)[i] == ss[i]);
        } else {
            assert(ss.push(s)[i] == s);
        }
    }
}

/// The instructions a program holds.
pub open spec fn program_instrs(p: P) -> Vec<S> {
    match p {
        P::Begin(ss) => ss,
    }
}

/// The keys of the labels the run defines, in order.  Only an
/// instruction's own label defines it; a label buried deeper is none.
pub open spec fn defined_keys(ss: Seq<SV>) -> Seq<(Seq<char>, int)>
    decreases ss.len(),
{
    if ss.len() == 0 {
        Seq::empty()
    } else {
        let rest = defined_keys(ss.subrange(1, ss.len() as int));
        match ss[0] {
            SV::WithLabel { label, s } => seq![label] + rest,
            _ => rest,
        }
    }
}

/// The instruction jumps only to defined labels; a jump to a register and
/// everything that is not a jump pass.
pub open spec fn jump_ok(s: SV, defined: Seq<(Seq<char>, int)>) -> bool {
    match s {
        SV::Jump(TrgS::Label(k)) => defined.contains(k),
        SV::CompareJump { reg, opand, relop, label } => defined.contains(label),
        _ => true,
    }
}

/// Every label is defined once and every jump targets a defined label.
pub open spec fn labels_ok(ss: Seq<SV>) -> bool {
    &&& defined_keys(ss).no_duplicates()
    &&& forall|i: int| 0 <= i < ss.len() ==> jump_ok(#[trigger] ss[i], defined_keys(ss))
}

/// The defined labels of a split run are the two halves' labels in order.
proof fn lemma_defined_keys_split(ss: Seq<SV>, i: int)
    requires
        0 <= i <= ss.len(),
    ensures
        defined_keys(ss) =~= defined_keys(ss.subrange(0, i)) + defined_keys(
            ss.subrange(i, ss.len() as int),
        ),
    decreases i,
{
    if i == 0 {
        assert(ss.subrange(0, 0) =~= Seq::<SV>::empty());
        assert(ss.subrange(0, ss.len() as int) =~= ss);
    } else {
        let rest = ss.subrange(1, ss.len() as int);
        lemma_defined_keys_split(rest, i - 1);
        assert(rest.subrange(0, i - 1) =~= ss.subrange(0, i).subrange(
            1,
            ss.subrange(0, i).len() as int,
        ));
        assert(rest.subrange(i - 1, rest.len() as int) =~= ss.subrange(i, ss.len() as int));
        assert(ss.subrange(0, i)[0] == ss[0]);
    }
}

impl ParenX64 {
    /// Checks that every label is defined exactly once and that every jump
    /// references a defined label; a program that passes comes back
    /// unchanged.
    pub fn check_labels(self) -> (r: Result<ParenX64, String>)
        ensures
            r is Ok <==> labels_ok(ss_view(program_instrs(self.0)@)),
            r matches Ok(p) ==> p == self,
    {
        let ss = match &self.0 {
            P::Begin(ss) => ss,
        };
        let ghost whole = ss_view(ss@);
        let n = ss.len();
        let mut defined: Vec<Label> = Vec::new();
        let mut i: usize = 0;
        proof {
            assert(whole.subrange(0, 0) =~= Seq::<SV>::empty());
        }
        while i < n
            invariant
                n == ss@.len(),
                whole == ss_view(ss@),
                whole == ss_view(program_instrs(self.0)@),
                0 <= i <= n,
                label_keys(defined@) =~= defined_keys(whole.subrange(0, i as int)),
                defined_keys(whole.subrange(0, i as int)).no_duplicates(),
            decreases n - i,
        {
            proof {
                assert(whole.subrange(0, i + 1).drop_last() =~= whole.subrange(0, i as int));
                lemma_defined_keys_split(whole.subrange(0, i + 1), i as int);
                assert(whole.subrange(0, i + 1).subrange(0, i as int) =~= whole.subrange(
                    0,
                    i as int,
                ));
                assert(whole.subrange(0, i + 1).subrange(i as int, i + 1) =~= seq![whole[i as int]]);
                assert(whole[i as int] == s_view(ss@[i as int]));
            }
            proof {
                assert(defined_keys(Seq::<SV>::empty()) =~= Seq::<(Seq<char>, int)>::empty());
            }
            match &ss[i] {
                S::WithLabel { label, s: _ } => {
                    if contains_label(&defined, label) {
                        proof {
                            let key = crate::utils::label_key(*label);
                            let pk = defined_keys(whole.subrange(0, i as int));
                            let ext = defined_keys(whole.subrange(0, i + 1));
                            assert(defined_keys(seq![whole[i as int]]) =~= seq![key]) by {
                                assert(seq![whole[i as int]].subrange(1, 1) =~= Seq::<SV>::empty());
                            }
                            assert(ext =~= pk + seq![key]);
                            assert(pk.contains(key));
                            let k = choose|k: int| 0 <= k < pk.len() && pk[k] == key;
                            assert(ext[k] == key);
                            assert(ext[ext.len() - 1] == key);
                            assert(!ext.no_duplicates());
                            lemma_defined_keys_split(whole, i + 1);
                            lemma_dup_across(
                                ext,
                                defined_keys(whole.subrange(i + 1, whole.len() as int)),
                            );
                        }
                        return Err(duplicate_label_message());
                    }
                    let ghost defined0 = defined@;
                    defined.push(label.clone());
                    proof {
                        assert(label_keys(defined@) =~= label_keys(defined0).push(
                            crate::utils::label_key(defined@.last()),
                        ));
                        assert(defined_keys(seq![whole[i as int]]) =~= seq![
                            crate::utils::label_key(*label),
                        ]) by {
                            assert(seq![whole[i as int]].subrange(1, 1) =~= Seq::<SV>::empty());
                        }
                        assert(label_keys(defined@) =~= defined_keys(whole.subrange(0, i + 1)));
                    }
                },
                _ => {
                    proof {
                        assert(defined_keys(seq![whole[i as int]]) =~= Seq::<
                            (Seq<char>, int),
                        >::empty()) by {
                            assert(seq![whole[i as int]].subrange(1, 1) =~= Seq::<SV>::empty());
                        }
                        assert(defined_keys(whole.subrange(0, i + 1)) =~= defined_keys(
                            whole.subrange(0, i as int),
                        ));
                    }
                },
            }
            i = i + 1;
        }
        proof {
            assert(whole.subrange(0, n as int) =~= whole);
        }
        let mut j: usize = 0;
        while j < n
            invariant
                n == ss@.len(),
                whole == ss_view(ss@),
                whole == ss_view(program_instrs(self.0)@),
                label_keys(defined@) =~= defined_keys(whole),
                defined_keys(whole).no_duplicates(),
                0 <= j <= n,
                forall|k: int| 0 <= k < j ==> jump_ok(#[trigger] whole[k], defined_keys(whole)),
            decreases n - j,
        {
            proof {
                assert(whole[j as int] == s_view(ss@[j as int]));
            }
            match &ss[j] {
                S::Jump(Trg::Label(l)) => {
                    if !contains_label(&defined, l) {
                        proof {
                            assert(!jump_ok(whole[j as int], defined_keys(whole)));
                        }
                        return Err(missing_label_message());
                    }
                },
                S::CompareJump { reg: _, opand: _, relop: _, label } => {
                    if !contains_label(&defined, label) {
                        proof {
                            assert(!jump_ok(whole[j as int], defined_keys(whole)));
                        }
                        return Err(missing_label_message());
                    }
                },
                _ => {},
            }
            j = j + 1;
        }
        Ok(self)
    }
}

/// The keys of a run of labels, in order.
pub open spec fn label_keys(ls: Seq<Label>) -> Seq<(Seq<char>, int)> {
    ls.map_values(|l: Label| crate::utils::label_key(l))
}

/// Whether the run holds the label.
fn contains_label(ls: &Vec<Label>, l: &Label) -> (r: bool)
    ensures
        r == label_keys(ls@).contains(crate::utils::label_key(*l)),
{
    let n = ls.len();
    let mut i: usize = 0;
    while i < n
        invariant
            n == ls@.len(),
            0 <= i <= n,
            forall|k: int|
                0 <= k < i ==> crate::utils::label_key(#[trigger] ls@[k])
                    != crate::utils::label_key(*l),
        decreases n - i,
    {
        if ls[i].same_label(l) {
            proof {
                assert(label_keys(ls@)[i as int] == crate::utils::label_key(*l));
            }
            return true;
        }
        i = i + 1;
    }
    proof {
        if label_keys(ls@).contains(crate::utils::label_key(*l)) {
            let k = choose|k: int|
                0 <= k < label_keys(ls@).len() && label_keys(ls@)[k] == crate::utils::label_key(
                    *l,
                );
            assert(crate::utils::label_key(ls@[k]) == crate::utils::label_key(*l));
        }
    }
    false
}

/// A run with a repeated element stays repeated under extension.
proof fn lemma_dup_across(a: Seq<(Seq<char>, int)>, b: Seq<(Seq<char>, int)>)
    requires
        !a.no_duplicates(),
    ensures
        !(a + b).no_duplicates(),
{
    let (i, j) = choose|i: int, j: int|
        0 <= i < a.len() && 0 <= j < a.len() && i != j && a[i] == a[j];
    assert((a + b)[i] == a[i]);
    assert((a + b)[j] == a[j]);
}

/// The diagnostic for a label defined twice.
fn duplicate_label_message() -> String {
    "a label is defined more than once".to_owned()
}

/// The diagnostic for a jump to a label no instruction defines.
fn missing_label_message() -> String {
    "a jump references a label that is not defined".to_owned()
}

} // verus!
