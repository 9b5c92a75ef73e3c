//! An x86 binary lifter: translates machine-code bytes into a small
//! architecture-neutral intermediate representation, and models the target
//! address space as a sparse, page-granular store of symbolic expressions.

pub mod cfg;
pub mod decode;
pub mod hexfmt;
pub mod image;
pub mod ir;
pub mod lift;
pub mod mem;
pub mod program;
pub mod render;
pub mod state;

use vstd::prelude::*;

verus! {

/// The ways lifting or image loading can fail.
#[derive(Debug, Clone, Copy, PartialEq, Eq, Structural)]
pub enum LiftError {
    /// The decoder could not be constructed or could not decode the bytes.
    Decode,
    /// A recognized opcode came with an operand shape the lifter does not
    /// support.
    Operands,
    /// The executable image could not be parsed.
    BadImage,
    /// An address had no covering section, or a segment range did not fit.
    Range,
}

} // verus!
