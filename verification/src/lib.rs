//! A minimal expression compiler and interpreter.
//!
//! Expressions are described through an abstract algebra (`ST`): literals,
//! negation, addition, variable reads and writes, and blocks.  Two unrelated
//! realizations interpret that algebra: one assembles a flat instruction
//! sequence (`Vec<Code>`), the other a human-readable source text (`Source`).
//! A stack machine (`VM`) executes an instruction sequence against a value
//! stack and a variable environment and yields a single integer.

pub mod algebra;
pub mod bytecode;
pub mod code;
pub mod machine;
pub mod text;
pub mod vm;

pub use algebra::Auto;
pub use algebra::ParseST;
pub use algebra::ST;
pub use algebra::Sub;
pub use code::Code;
pub use machine::Fault;
pub use text::Source;
pub use vm::VM;
