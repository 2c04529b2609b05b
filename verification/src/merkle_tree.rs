//! The interface to the vector commitment scheme.
//!
//! The arithmetization layer hands committed columns to a Merkle tree
//! scheme and asks it for openings. The scheme itself lies outside this
//! crate: only its interface is declared here, for its implementations to
//! meet.

use vstd::prelude::*;

verus! {

/// Why a commitment could not be made, opened or verified.
#[derive(Clone, Copy, Debug, PartialEq, Eq, Structural)]
pub enum Error {
    /// The length of the vector is not a power of two.
    PowerOfTwoLengthRequired,
    /// The vector does not have the committed length.
    IncorrectVectorLen { expected: usize },
    /// The batch size does not divide the vector.
    IncorrectBatchSize,
    /// The index is not below the committed length.
    IndexOutOfRange { max: usize },
    /// The layer depth is above the depth of the tree.
    IncorrectLayerDepth,
    /// The digests or the opening do not lead to the root.
    InvalidProof,
    /// The proof ends before the opening does.
    NotEnoughBytes,
}

/// A Merkle tree commitment.
///
/// The depth of the tree is part of the commitment, so that a leaf digest can
/// never be taken for the digest of an inner node.
#[derive(Debug, Clone, PartialEq, Eq)]
pub struct Commitment<Digest> {
    /// The root digest of the Merkle tree.
    pub root: Digest,
    /// The depth of the Merkle tree.
    pub depth: usize,
}

/// The bytes of a proof, read from the front.
pub struct TranscriptReader {
    pub bytes: Vec<u8>,
    pub position: usize,
}

/// The bytes of a proof, written at the back.
pub struct TranscriptWriter {
    pub bytes: Vec<u8>,
}

/// A Merkle tree scheme.
pub trait MerkleTreeScheme<T>: Sync {
    type Digest: Clone + PartialEq + Eq;

    /// Returns the optimal layer that the verifier should verify only once.
    fn optimal_verify_layer(&self, n_queries: usize, tree_depth: usize) -> usize;

    /// Returns the total byte-size of a proof for `n_queries` opening queries
    /// into a committed vector of length `len`.
    fn proof_size(&self, len: usize, n_queries: usize, layer_depth: usize) -> Result<usize, Error>;

    /// Verify the opening of the full vector.
    fn verify_vector(&self, root: &Self::Digest, data: &[T], batch_size: usize) -> Result<(), Error>;

    /// Verify a given layer of the Merkle tree.
    ///
    /// When many openings at independent indices are to be verified, it is
    /// cheaper to verify an internal layer once and then every opening with
    /// respect to that layer.
    fn verify_layer(&self, root: &Self::Digest, layer_depth: usize, layer_digests: &[Self::Digest]) -> Result<
        (),
        Error,
    >;

    /// Verify an opening proof for an entry in a committed vector at the given index.
    fn verify_opening(
        &self,
        index: usize,
        values: &[T],
        layer_depth: usize,
        tree_depth: usize,
        layer_digests: &[Self::Digest],
        proof: &mut TranscriptReader,
    ) -> Result<(), Error>;
}

/// A Merkle tree prover for a particular scheme.
///
/// This is separate from [`MerkleTreeScheme`] so that it may be implemented
/// by a hardware-accelerated backend.
pub trait MerkleTreeProver<T>: Sync {
    type Scheme: MerkleTreeScheme<T>;

    /// Data generated during commitment required to generate opening proofs.
    type Committed;

    /// Returns the Merkle tree scheme used by the prover.
    fn scheme(&self) -> &Self::Scheme;

    /// Commit a vector of values.
    fn commit(&self, data: &[T], batch_size: usize) -> Result<
        (Commitment<<Self::Scheme as MerkleTreeScheme<T>>::Digest>, Self::Committed),
        Error,
    >;

    /// Commit the interleaved elements of chunks of equal length.
    fn commit_iterated(&self, iterated_chunks: Vec<Vec<T>>, log_len: usize) -> Result<
        (Commitment<<Self::Scheme as MerkleTreeScheme<T>>::Digest>, Self::Committed),
        Error,
    >;

    /// Returns the internal digest layer at the given depth.
    fn layer<'a>(&self, committed: &'a Self::Committed, layer_depth: usize) -> Result<
        &'a [<Self::Scheme as MerkleTreeScheme<T>>::Digest],
        Error,
    >;

    /// Generate an opening proof for the entry of the committed vector at
    /// the given index, with respect to the layer at the given depth.
    fn prove_opening(
        &self,
        committed: &Self::Committed,
        layer_depth: usize,
        index: usize,
        proof: &mut TranscriptWriter,
    ) -> Result<(), Error>;
}

} // verus!
