//! Integer arithmetic on columns of bits.

pub mod u32;

use vstd::prelude::*;

verus! {

/// Whether a gadget asserts that its result did not overflow.
#[derive(Clone, Copy, Debug, PartialEq, Eq, Structural)]
pub enum Flags {
    /// Overflow makes the constraint system unsatisfiable.
    Checked,
    /// The result wraps around.
    Unchecked,
}

} // verus!
