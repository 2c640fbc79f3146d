//! The atoms every language in the pipeline shares: abstract locations,
//! machine registers, operators, frame variables, labels and memory
//! addresses, together with the explicit generators that mint fresh
//! locations and labels.
//!
//! An abstract location is identified by its globally unique index; the
//! human-readable tag is carried along for the compiler writer's benefit and
//! plays no part in any comparison the passes make.

use vstd::prelude::*;

verus! {

/// An abstract (virtual) storage location: a readable tag plus the globally
/// unique, monotonically increasing index that identifies it.
#[derive(Debug, PartialEq, Eq)]
pub struct Aloc {
    pub name: String,
    pub index: usize,
}

impl Aloc {
    /// Builds the location with the given tag and index.  Passes never mint
    /// locations themselves; they come from an [`AlocGen`] threaded through
    /// the earlier lowering stages.
    pub fn new(name: &str, index: usize) -> (a: Aloc)
        ensures
            a.index == index,
            a.name@ == name@,
    {
        Aloc { name: name.to_owned(), index }
    }
}

impl Clone for Aloc {
    fn clone(&self) -> (a: Aloc)
        ensures
            a.index == self.index,
            a.name@ == self.name@,
    {
        Aloc { name: self.name.clone(), index: self.index }
    }
}

/// Mints abstract locations with strictly increasing indices.  Threading the
/// generator explicitly keeps every compilation independent of ambient
/// state and reproducible.
#[derive(Debug, PartialEq, Eq)]
pub struct AlocGen {
    pub next_index: usize,
}

impl AlocGen {
    pub fn new() -> (g: AlocGen)
        ensures
            g.next_index == 0,
    {
        AlocGen { next_index: 0 }
    }

    /// A fresh location with the default tag.
    pub fn fresh(&mut self) -> (a: Aloc)
        requires
            old(self).next_index < usize::MAX,
        ensures
            a.index == old(self).next_index,
            final(self).next_index == old(self).next_index + 1,
    {
        self.fresh_with_name("tmp")
    }

    /// A fresh location with the given tag.
    pub fn fresh_with_name(&mut self, name: &str) -> (a: Aloc)
        requires
            old(self).next_index < usize::MAX,
        ensures
            a.index == old(self).next_index,
            a.name@ == name@,
            final(self).next_index == old(self).next_index + 1,
    {
        let index = self.next_index;
        self.next_index = self.next_index + 1;
        Aloc::new(name, index)
    }
}

/// A machine register.
#[derive(Debug, Clone, Copy, PartialEq, Eq, Structural)]
pub enum Reg {
    Rsp,
    Rbp,
    Rax,
    Rbx,
    Rcx,
    Rdx,
    Rsi,
    Rdi,
    R8,
    R9,
    R10,
    R11,
    R12,
    R13,
    R14,
    R15,
}

impl Reg {
    /// The register that carries a program's final value.
    pub fn current_return_reg() -> (r: Reg)
        ensures
            r == Reg::Rax,
    {
        Reg::Rax
    }

    /// The register that addresses the stack frame.
    pub fn current_frame_base_pointer() -> (r: Reg)
        ensures
            r == Reg::Rbp,
    {
        Reg::Rbp
    }

    /// The two scratch registers reserved for the instruction-patching pass;
    /// the allocator must never hand them out.
    pub fn current_auxiliary_registers() -> (r: (Reg, Reg))
        ensures
            r == (Reg::R10, Reg::R11),
    {
        (Reg::R10, Reg::R11)
    }
}

/// A binary arithmetic operator.
#[derive(Debug, Clone, Copy, PartialEq, Eq, Structural)]
pub enum Binop {
    Plus,
    Multiply,
}

/// A relational comparison operator.
#[derive(Debug, Clone, Copy, PartialEq, Eq, Structural)]
pub enum Relop {
    Gt,
    Gte,
    Lt,
    Lte,
    Eq,
    Neq,
}

impl Relop {
    /// The operator that accepts exactly the pairs this one rejects.
    pub fn negate(self) -> (r: Relop)
        ensures
            r == self.spec_negate(),
    {
        match self {
            Relop::Gt => Relop::Lte,
            Relop::Gte => Relop::Lt,
            Relop::Lt => Relop::Gte,
            Relop::Lte => Relop::Gt,
            Relop::Eq => Relop::Neq,
            Relop::Neq => Relop::Eq,
        }
    }

    pub open spec fn spec_negate(self) -> Relop {
        match self {
            Relop::Gt => Relop::Lte,
            Relop::Gte => Relop::Lt,
            Relop::Lt => Relop::Gte,
            Relop::Lte => Relop::Gt,
            Relop::Eq => Relop::Neq,
            Relop::Neq => Relop::Eq,
        }
    }
}

/// A frame variable: a numbered, unbounded stack cell.
#[derive(Debug, Clone, Copy, PartialEq, Eq, Structural)]
pub struct Fvar {
    pub index: usize,
}

/// A displacement-mode memory operand: the frame base pointer plus a byte
/// offset.
#[derive(Debug, Clone, Copy, PartialEq, Eq, Structural)]
pub struct Addr {
    pub fbp: Reg,
    pub disp_offset: usize,
}

/// A block label: a readable tag plus the index that makes it unique.
#[derive(Debug, PartialEq, Eq)]
pub struct Label {
    pub name: String,
    pub index: usize,
}

/// What identifies a label: its tag and its index together.
pub open spec fn label_key(l: Label) -> (Seq<char>, int) {
    (l.name@, l.index as int)
}

impl Label {
    pub fn new(name: &str, index: usize) -> (l: Label)
        ensures
            l.index == index,
            l.name@ == name@,
    {
        Label { name: name.to_owned(), index }
    }

    /// The one well-known label: where a finished program jumps to stop.
    pub fn halt_label() -> (l: Label)
        ensures
            l.name@ == "done"@,
            l.index == 0,
    {
        Label::new("done", 0)
    }

    /// True exactly when the two labels are the same label.
    pub fn same_label(&self, other: &Label) -> (r: bool)
        ensures
            r == (label_key(*self) == label_key(*other)),
    {
        let r = self.index == other.index && self.name == other.name;
        if r {
            assert(label_key(*self) == label_key(*other));
        }
        r
    }
}

impl Clone for Label {
    fn clone(&self) -> (l: Label)
        ensures
            label_key(l) == label_key(*self),
    {
        Label { name: self.name.clone(), index: self.index }
    }
}

/// Mints labels with strictly increasing indices, so that no two labels
/// minted by one generator collide.
#[derive(Debug, PartialEq, Eq)]
pub struct LabelGen {
    pub next_index: usize,
}

impl LabelGen {
    pub fn new() -> (g: LabelGen)
        ensures
            g.next_index == 0,
    {
        LabelGen { next_index: 0 }
    }

    pub fn fresh_with_name(&mut self, name: &str) -> (l: Label)
        ensures
            l.index == old(self).next_index,
            l.name@ == name@,
            final(self).next_index >= old(self).next_index,
    {
        let index = self.next_index;
        if self.next_index < usize::MAX {
            self.next_index = self.next_index + 1;
        }
        Label::new(name, index)
    }
}

} // verus!
