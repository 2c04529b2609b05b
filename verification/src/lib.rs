//! Arithmetization layer of a SNARK proving framework over binary tower
//! fields.
//!
//! A circuit is described by named columns, arithmetic relations between
//! them and table lookups. This crate turns such a description into a
//! constraint system, a set of virtual polynomials ("oracles") related by
//! zero-check constraints and by flushes of multiset-equality channels,
//! and, for the prover, into the witness: the column data of the oracles.
//!
//! - [`oracle`] holds the oracle set, [`constraint`] the zero-check
//!   constraints and [`channel`] the flushes; [`rows`] says what the rows of
//!   shifted and projected oracles are.
//! - [`builder`] collects all of them, together with the witness arena of
//!   [`builder::witness`].
//! - [`arithmetic`], [`provide_require`], [`lasso`] and [`keccakf`] are
//!   gadgets: each declares the oracles and constraints of an operation and
//!   fills the witness of what it declares.
//! - [`field`] holds the arithmetic of the binary tower that the gadgets
//!   need, and [`merkle_tree`] the interface to the commitment scheme.
//!
//! The code is verified with Verus against its contracts; only the two
//! calls into other crates, in [`keccakf`], are trusted. The contracts of
//! the gadgets say which oracles, constraints, flushes and columns a gadget
//! adds, and public proof functions state what the columns hold and why the
//! constraints are satisfied.

pub mod arithmetic;
pub mod builder;
pub mod channel;
pub mod constraint;
pub mod error;
pub mod field;
pub mod keccakf;
pub mod lasso;
pub mod merkle_tree;
pub mod names;
pub mod oracle;
pub mod provide_require;
pub mod rows;
pub mod util;
