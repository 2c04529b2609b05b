//! The error of the circuit-building functions.

use vstd::prelude::*;

verus! {

/// Why a circuit could not be built. Every error ends the construction call
/// that met it.
#[derive(Clone, Copy, Debug, PartialEq, Eq, Structural)]
pub enum Error {
    /// An oracle could not be declared.
    Oracle(crate::oracle::Error),
    /// A witness column could not be read or stored.
    Witness(crate::builder::witness::Error),
    /// A tuple of oracles is empty.
    NoOracles,
    /// A flush covers more rows than its oracles have.
    FlushCountExceedsRows { count: usize, log_rows: usize },
    /// The composition of the constraint of this index names a variable that
    /// the constraint has no oracle for.
    InvalidComposition { index: usize },
    /// A column of this shape is beyond what the machine can address.
    ColumnTooLarge { log_rows: usize, tower_level: usize },
    /// A gadget on 32-bit words needs oracles of at least five variables.
    NotEnoughVariables { n_vars: usize },
    /// A bit index is not below 32.
    BitIndexOutOfRange { index: usize },
    /// A row count is zero.
    EmptyTable,
    /// A column has fewer rows than are to be read from it or written to it.
    CountExceedsColumn { count: usize, rows: usize },
    /// The values of a lookup must be elements of at least a byte.
    UnsupportedTowerLevel { tower_level: usize },
    /// An entry of a lookup mapping names no row of the table.
    MappingOutOfRange { index: usize, rows: usize },
    /// The builder holds a witness, and no lookup mapping was given.
    MissingMapping,
    /// The trace of a permutation does not end in the expected state.
    TraceMismatch { permutation: usize },
    /// The numbers of inputs and of outputs are not the number of
    /// permutations that the columns hold.
    PermutationCountMismatch { expected: usize, inputs: usize, outputs: usize },
    /// The system gave no random bytes to draw a witness from.
    RandomnessUnavailable,
}

} // verus!
