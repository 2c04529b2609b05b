use binius_circuits::merkle_tree::{
    Commitment, Error, MerkleTreeProver, MerkleTreeScheme, TranscriptReader, TranscriptWriter,
};

/// A scheme whose digest is the sum of what it covers: enough to exercise
/// the interface.
struct SumScheme;

impl MerkleTreeScheme<u8> for SumScheme {
    type Digest = u64;

    fn optimal_verify_layer(&self, _n_queries: usize, _tree_depth: usize) -> usize {
        0
    }

    fn proof_size(&self, _len: usize, n_queries: usize, _layer_depth: usize) -> Result<usize, Error> {
        Ok(8 * n_queries)
    }

    fn verify_vector(&self, root: &u64, data: &[u8], batch_size: usize) -> Result<(), Error> {
        if batch_size == 0 || data.len() % batch_size != 0 {
            return Err(Error::IncorrectBatchSize);
        }
        if data.iter().map(|b| *b as u64).sum::<u64>() == *root {
            Ok(())
        } else {
            Err(Error::InvalidProof)
        }
    }

    fn verify_layer(&self, root: &u64, layer_depth: usize, layer_digests: &[u64]) -> Result<(), Error> {
        if layer_digests.len() != 1 << layer_depth {
            return Err(Error::IncorrectVectorLen { expected: 1 << layer_depth });
        }
        if layer_digests.iter().sum::<u64>() == *root {
            Ok(())
        } else {
            Err(Error::InvalidProof)
        }
    }

    fn verify_opening(
        &self,
        index: usize,
        values: &[u8],
        _layer_depth: usize,
        tree_depth: usize,
        _layer_digests: &[u64],
        proof: &mut TranscriptReader,
    ) -> Result<(), Error> {
        if index >= 1 << tree_depth {
            return Err(Error::IndexOutOfRange { max: 1 << tree_depth });
        }
        if proof.position + values.len() > proof.bytes.len() {
            return Err(Error::NotEnoughBytes);
        }
        let opened = &proof.bytes[proof.position..proof.position + values.len()];
        proof.position += values.len();
        if opened == values {
            Ok(())
        } else {
            Err(Error::InvalidProof)
        }
    }
}

struct SumProver {
    scheme: SumScheme,
}

impl MerkleTreeProver<u8> for SumProver {
    type Scheme = SumScheme;
    type Committed = Vec<u8>;

    fn scheme(&self) -> &SumScheme {
        &self.scheme
    }

    fn commit(&self, data: &[u8], _batch_size: usize) -> Result<(Commitment<u64>, Vec<u8>), Error> {
        if !data.len().is_power_of_two() {
            return Err(Error::PowerOfTwoLengthRequired);
        }
        let root = data.iter().map(|b| *b as u64).sum();
        Ok((Commitment { root, depth: data.len().trailing_zeros() as usize }, data.to_vec()))
    }

    fn commit_iterated(
        &self,
        iterated_chunks: Vec<Vec<u8>>,
        _log_len: usize,
    ) -> Result<(Commitment<u64>, Vec<u8>), Error> {
        let data: Vec<u8> = iterated_chunks.into_iter().flatten().collect();
        self.commit(&data, 1)
    }

    fn layer<'a>(&self, _committed: &'a Vec<u8>, _layer_depth: usize) -> Result<&'a [u64], Error> {
        Err(Error::IncorrectLayerDepth)
    }

    fn prove_opening(
        &self,
        committed: &Vec<u8>,
        _layer_depth: usize,
        index: usize,
        proof: &mut TranscriptWriter,
    ) -> Result<(), Error> {
        match committed.get(index) {
            Some(b) => {
                proof.bytes.push(*b);
                Ok(())
            }
            None => Err(Error::IndexOutOfRange { max: committed.len() }),
        }
    }
}

#[test]
fn a_scheme_can_commit_open_and_verify_through_the_interface() {
    let prover = SumProver { scheme: SumScheme };
    let data = [1u8, 2, 3, 4];
    let (commitment, committed) = prover.commit(&data, 1).unwrap();
    assert_eq!(commitment, Commitment { root: 10, depth: 2 });
    assert_eq!(commitment.clone(), commitment);
    assert_ne!(commitment, Commitment { root: 10, depth: 3 });
    let (again, _) = prover.commit_iterated(vec![vec![1, 2], vec![3, 4]], 2).unwrap();
    assert_eq!(again, commitment);
    assert_eq!(prover.commit(&data[..3], 1).err(), Some(Error::PowerOfTwoLengthRequired));
    let scheme = prover.scheme();
    assert_eq!(scheme.verify_vector(&commitment.root, &data, 2), Ok(()));
    assert_eq!(scheme.verify_vector(&commitment.root, &data, 3), Err(Error::IncorrectBatchSize));
    assert_eq!(scheme.verify_vector(&9, &data, 1), Err(Error::InvalidProof));
    assert_eq!(scheme.verify_layer(&10, 1, &[4, 6]), Ok(()));
    assert_eq!(scheme.verify_layer(&10, 1, &[10]), Err(Error::IncorrectVectorLen { expected: 2 }));
    assert_eq!(scheme.proof_size(4, 3, 0), Ok(24));
    assert_eq!(scheme.optimal_verify_layer(3, 2), 0);
    assert_eq!(prover.layer(&committed, 1), Err(Error::IncorrectLayerDepth));
    let mut writer = TranscriptWriter { bytes: Vec::new() };
    prover.prove_opening(&committed, 0, 2, &mut writer).unwrap();
    assert_eq!(
        prover.prove_opening(&committed, 0, 4, &mut writer),
        Err(Error::IndexOutOfRange { max: 4 })
    );
    let mut reader = TranscriptReader { bytes: writer.bytes, position: 0 };
    assert_eq!(scheme.verify_opening(2, &[3], 0, 2, &[], &mut reader), Ok(()));
    assert_eq!(scheme.verify_opening(2, &[3], 0, 2, &[], &mut reader), Err(Error::NotEnoughBytes));
    assert_eq!(
        scheme.verify_opening(4, &[3], 0, 2, &[], &mut reader),
        Err(Error::IndexOutOfRange { max: 4 })
    );
}
