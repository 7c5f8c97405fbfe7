//! The instruction set understood by the stack machine.

use vstd::prelude::*;

verus! {

/// One machine instruction.  A compiled program is a flat, ordered sequence
/// of these; there is no nested structure and no jump.
#[derive(Debug, PartialEq, Eq)]
pub enum Code {
    /// Push the current binding of the named variable.
    Get(String),
    /// Pop one value, bind the name to it, and push the previous binding
    /// (or the default `0` if the name was never bound).
    Store(String),
    /// Pop one value and discard it.
    Drop,
    /// Push a literal.
    Load(isize),
    /// Pop one value and push its negation.
    Neg,
    /// Pop two values and push their sum.
    Add,
}

/// The mathematical shape of an instruction: variable names are abstracted
/// to their character sequences.  Contracts and the spec interpreter speak
/// of instructions in this form.
pub ghost enum CodeV {
    Get(Seq<char>),
    Store(Seq<char>),
    Drop,
    Load(isize),
    Neg,
    Add,
}

impl DeepView for Code {
    type V = CodeV;

    open spec fn deep_view(&self) -> CodeV {
        match *self {
            Code::Get(ref name) => CodeV::Get(name@),
            Code::Store(ref name) => CodeV::Store(name@),
            Code::Drop => CodeV::Drop,
            Code::Load(num) => CodeV::Load(num),
            Code::Neg => CodeV::Neg,
            Code::Add => CodeV::Add,
        }
    }
}

} // verus!
