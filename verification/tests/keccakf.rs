use binius_circuits::builder::{ConstraintSystem, ConstraintSystemBuilder};
use binius_circuits::constraint::ArithExpr;
use binius_circuits::error::Error;
use binius_circuits::keccakf::{
    keccak_trace, keccakf, keccakf_with_inputs, KECCAKF_RC, PI, RHO, TRACE_COLUMNS,
};
use binius_circuits::oracle::{OracleVariant, ShiftVariant, Transparent};
use binius_circuits::builder::witness::views::read_u64_rows;
use binius_circuits::builder::witness::MultilinearExtensionIndex;

fn permuted(input: &[u64; 25]) -> [u64; 25] {
    let mut out = *input;
    tiny_keccak::keccakf(&mut out);
    out
}

fn sample_input(seed: u64) -> [u64; 25] {
    let mut state = [0u64; 25];
    let mut x = seed;
    for lane in state.iter_mut() {
        x ^= x << 13;
        x ^= x >> 7;
        x ^= x << 17;
        *lane = x;
    }
    state
}

fn column(index: &MultilinearExtensionIndex, id: usize) -> Vec<u64> {
    read_u64_rows(&index.get(id).expect("column present").data)
}

fn eval_bits(expr: &ArithExpr, vars: &[u64]) -> u64 {
    match expr {
        ArithExpr::Const(c) => {
            if *c == 0 {
                0
            } else {
                u64::MAX
            }
        }
        ArithExpr::Var(i) => vars[*i],
        ArithExpr::Add(a, b) => eval_bits(a, vars) ^ eval_bits(b, vars),
        ArithExpr::Mul(a, b) => eval_bits(a, vars) & eval_bits(b, vars),
    }
}

fn validate(system: &ConstraintSystem, index: &MultilinearExtensionIndex) {
    for constraint in &system.table_constraints {
        let columns: Vec<Vec<u64>> =
            constraint.oracle_ids.iter().map(|id| column(index, *id)).collect();
        for row in 0..columns[0].len() {
            let vars: Vec<u64> = columns.iter().map(|c| c[row]).collect();
            assert_eq!(eval_bits(&constraint.composition, &vars), 0);
        }
    }
    for id in 0..system.oracles.size() {
        if index.get(id).is_none() {
            continue;
        }
        let oracle = system.oracles.oracle(id);
        let words = column(index, id);
        match &oracle.variant {
            OracleVariant::Shifted { inner, offset, block_bits, variant } => {
                let input = column(index, *inner);
                for (row, word) in words.iter().enumerate() {
                    let expected = match (variant, block_bits) {
                        (ShiftVariant::CircularLeft, 6) => input[row].rotate_left(*offset as u32),
                        (ShiftVariant::LogicalRight, 11) => {
                            assert_eq!(*offset, 64);
                            if row % 32 < 31 {
                                input[row + 1]
                            } else {
                                0
                            }
                        }
                        other => panic!("unexpected shift {:?}", other),
                    };
                    assert_eq!(*word, expected);
                }
            }
            OracleVariant::LinearCombination { offset, inner } => {
                assert_eq!(*offset, 0);
                let mut expected = vec![0u64; words.len()];
                for (term, coefficient) in inner {
                    assert_eq!(*coefficient, 1);
                    for (e, v) in expected.iter_mut().zip(column(index, *term)) {
                        *e ^= v;
                    }
                }
                assert_eq!(words, expected);
            }
            OracleVariant::Repeating { inner, .. } => {
                let single = column(index, *inner);
                for (row, word) in words.iter().enumerate() {
                    assert_eq!(*word, single[row % single.len()]);
                }
            }
            OracleVariant::Transparent(Transparent::StepDown { index: step, .. }) => {
                for (row, word) in words.iter().enumerate() {
                    assert_eq!(*word, if row * 64 < *step { u64::MAX } else { 0 });
                }
            }
            OracleVariant::Transparent(Transparent::MultilinearExtension { data, .. }) => {
                assert_eq!(&index.get(id).unwrap().data, data);
            }
            _ => {}
        }
    }
}

#[test]
fn trace_of_the_zero_state_ends_in_the_known_state() {
    let rows = keccak_trace(&[[0u64; 25]]);
    assert_eq!(rows.len(), 32);
    assert!(rows.iter().all(|r| r.len() == TRACE_COLUMNS));
    assert_eq!(rows[23][25], 0xF1258F7940E1DDE7);
    assert_eq!(rows[23][26], 0x84D5CCF933C0478A);
    assert_eq!(&rows[23][25..50], &permuted(&[0u64; 25])[..]);
    // the first row starts with the input, and every row with the state after the row before
    assert_eq!(&rows[0][0..25], &[0u64; 25][..]);
    for r in 1..32 {
        assert_eq!(&rows[r][0..25], &rows[r - 1][25..50]);
        assert_eq!(&rows[r - 1][115..140], &rows[r - 1][25..50]);
    }
    assert_eq!(&rows[31][115..140], &[0u64; 25][..]);
    for r in 0..32 {
        assert_eq!(rows[r][140], KECCAKF_RC[r]);
        assert_eq!(rows[r][141], if r < 24 { u64::MAX } else { 0 });
    }
}

#[test]
fn trace_follows_the_steps_of_the_round() {
    let input = sample_input(7);
    let rows = keccak_trace(&[input, sample_input(8)]);
    assert_eq!(rows.len(), 64);
    assert_eq!(&rows[32][0..25], &sample_input(8)[..]);
    let row = &rows[0];
    for x in 0..5 {
        let c = (0..5).fold(0, |acc, y| acc ^ input[x + 5 * y]);
        assert_eq!(row[50 + x], c);
        assert_eq!(row[60 + x], c.rotate_left(1));
    }
    for x in 0..5 {
        assert_eq!(row[55 + x], row[50 + (x + 4) % 5] ^ row[60 + (x + 1) % 5]);
    }
    for xy in 0..25 {
        assert_eq!(row[65 + xy], input[xy] ^ row[55 + xy % 5]);
        assert_eq!(row[90 + xy], row[65 + PI[xy]].rotate_left(RHO[xy]));
    }
    for x in 0..5 {
        for y in 0..5 {
            let b0 = row[90 + x + 5 * y];
            let b1 = row[90 + (x + 1) % 5 + 5 * y];
            let b2 = row[90 + (x + 2) % 5 + 5 * y];
            let rc = if x + 5 * y == 0 { KECCAKF_RC[0] } else { 0 };
            assert_eq!(row[25 + x + 5 * y], b0 ^ (!b1 & b2) ^ rc);
        }
    }
    assert_eq!(&rows[55][25..50], &permuted(&sample_input(8))[..]);
}

#[test]
fn circuit_of_one_permutation() {
    let input = sample_input(1);
    let mut builder = ConstraintSystemBuilder::new_with_witness();
    builder.push_namespace("k");
    let state_out = keccakf_with_inputs(&mut builder, 11, &[input], &[permuted(&input)]).unwrap();
    builder.pop_namespace();
    let expected_ids: Vec<usize> = (29..54).collect();
    assert_eq!(state_out.to_vec(), expected_ids);
    let index = builder.take_witness().unwrap();
    let system = builder.build().unwrap();
    assert_eq!(system.oracles.size(), 143);
    assert_eq!(system.table_constraints.len(), 60);
    let name = |id: usize| system.oracles.oracle(id).name.clone();
    assert_eq!(name(0), "k::round_consts_single");
    assert_eq!(name(1), "k::round_consts");
    assert_eq!(name(2), "k::selector_single");
    assert_eq!(name(3), "k::selector");
    assert_eq!(name(4), "k::state_in_0");
    assert_eq!(name(28), "k::state_in_24");
    assert_eq!(name(29), "k::state_out_0");
    assert_eq!(name(54), "k::c_0");
    assert_eq!(name(59), "k::d_0");
    assert_eq!(name(64), "k::c[0]");
    assert_eq!(name(68), "k::c[4]");
    assert_eq!(name(69), "k::a_theta[0]");
    assert_eq!(name(93), "k::a_theta[24]");
    assert_eq!(name(94), "k::b[1]");
    assert_eq!(name(117), "k::b[24]");
    assert_eq!(name(118), "k::next_state_in[0]");
    assert_eq!(name(142), "k::next_state_in[24]");
    for id in 0..143 {
        assert_eq!(system.oracles.oracle(id).tower_level, 0);
        assert_eq!(system.oracles.oracle(id).n_vars, 11);
    }
    for xy in 0..25 {
        assert_eq!(column(&index, 4 + xy)[0], input[xy]);
        assert_eq!(column(&index, 29 + xy)[23], permuted(&input)[xy]);
    }
    assert_eq!(column(&index, 0), KECCAKF_RC.to_vec());
    assert_eq!(column(&index, 1), KECCAKF_RC.to_vec());
    validate(&system, &index);
}

#[test]
fn circuit_of_two_permutations() {
    let inputs = [sample_input(2), sample_input(3)];
    let outputs = [permuted(&inputs[0]), permuted(&inputs[1])];
    let mut builder = ConstraintSystemBuilder::new_with_witness();
    let first = builder.add_committed("first", 3, 0);
    assert_eq!(first, 0);
    let state_out = keccakf_with_inputs(&mut builder, 12, &inputs, &outputs).unwrap();
    assert_eq!(state_out[0], 30);
    let index = builder.take_witness().unwrap();
    let system = builder.build().unwrap();
    assert_eq!(system.oracles.size(), 144);
    assert_eq!(system.oracles.oracle(2).n_vars, 12);
    assert_eq!(system.oracles.oracle(1).n_vars, 11);
    assert_eq!(system.oracles.oracle(3).n_vars, 11);
    for xy in 0..25 {
        assert_eq!(column(&index, 30 + xy)[23], outputs[0][xy]);
        assert_eq!(column(&index, 30 + xy)[32 + 23], outputs[1][xy]);
        assert_eq!(column(&index, 5 + xy)[32], inputs[1][xy]);
    }
    assert_eq!(column(&index, 2).len(), 64);
    assert_eq!(column(&index, 1).len(), 32);
    validate(&system, &index);
}

#[test]
fn a_trace_that_ends_elsewhere_is_reported() {
    let inputs = [sample_input(2), sample_input(3)];
    let mut wrong = permuted(&inputs[1]);
    wrong[24] ^= 1;
    let mut builder = ConstraintSystemBuilder::new_with_witness();
    assert_eq!(
        keccakf_with_inputs(&mut builder, 12, &inputs, &[permuted(&inputs[0]), wrong]),
        Err(Error::TraceMismatch { permutation: 1 })
    );
    let mut builder = ConstraintSystemBuilder::new_with_witness();
    assert_eq!(
        keccakf_with_inputs(&mut builder, 12, &inputs, &[inputs[0], wrong]),
        Err(Error::TraceMismatch { permutation: 0 })
    );
    let mut builder = ConstraintSystemBuilder::new_with_witness();
    assert_eq!(
        keccakf_with_inputs(&mut builder, 12, &inputs[..1], &[permuted(&inputs[0])]),
        Err(Error::PermutationCountMismatch { expected: 2, inputs: 1, outputs: 1 })
    );
    let mut builder = ConstraintSystemBuilder::new_with_witness();
    assert_eq!(
        keccakf_with_inputs(&mut builder, 11, &inputs[..1], &[]),
        Err(Error::PermutationCountMismatch { expected: 1, inputs: 1, outputs: 0 })
    );
    let mut builder = ConstraintSystemBuilder::new_with_witness();
    assert_eq!(
        keccakf_with_inputs(&mut builder, 10, &[], &[]),
        Err(Error::NotEnoughVariables { n_vars: 10 })
    );
    assert_eq!(keccakf(&mut builder, 10), Err(Error::NotEnoughVariables { n_vars: 10 }));
}

#[test]
fn circuit_with_random_inputs() {
    let mut builder = ConstraintSystemBuilder::new_with_witness();
    let state_out = keccakf(&mut builder, 13).unwrap();
    let index = builder.take_witness().unwrap();
    let system = builder.build().unwrap();
    assert_eq!(column(&index, 4).len(), 128);
    for p in 0..4 {
        let mut input = [0u64; 25];
        for xy in 0..25 {
            input[xy] = column(&index, 4 + xy)[32 * p];
        }
        let output = permuted(&input);
        for xy in 0..25 {
            assert_eq!(column(&index, state_out[xy])[32 * p + 23], output[xy]);
        }
    }
    // the inputs of the permutations differ
    assert_ne!(column(&index, 4)[0], column(&index, 4)[32]);
    validate(&system, &index);
}

#[test]
fn the_verifier_declares_the_same_circuit() {
    let mut prover = ConstraintSystemBuilder::new_with_witness();
    keccakf(&mut prover, 11).unwrap();
    let mut verifier = ConstraintSystemBuilder::new();
    let state_out = keccakf(&mut verifier, 11).unwrap();
    assert_eq!(state_out[24], 53);
    // inputs are not looked at without a witness
    let mut other = ConstraintSystemBuilder::new();
    keccakf_with_inputs(&mut other, 11, &[], &[]).unwrap();
    let a = prover.build().unwrap();
    let b = verifier.build().unwrap();
    let c = other.build().unwrap();
    assert_eq!(a.oracles.size(), b.oracles.size());
    assert_eq!(c.oracles.size(), b.oracles.size());
    for id in 0..a.oracles.size() {
        assert_eq!(format!("{:?}", a.oracles.oracle(id)), format!("{:?}", b.oracles.oracle(id)));
    }
    for (x, y) in a.table_constraints.iter().zip(b.table_constraints.iter()) {
        assert_eq!(format!("{:?}", x), format!("{:?}", y));
    }
    assert_eq!(b.table_constraints.len(), 60);
    assert_eq!(b.table_constraints[0].oracle_ids, vec![54, 4, 9, 14, 19, 24]);
    assert_eq!(b.table_constraints[5].oracle_ids, vec![58, 65, 59]);
    assert_eq!(b.table_constraints[10].oracle_ids, vec![29, 69, 94, 95, 1]);
    assert_eq!(b.table_constraints[11].oracle_ids, vec![34, 98, 99, 100]);
    assert_eq!(b.table_constraints[15].oracle_ids, vec![30, 94, 95, 96]);
    assert_eq!(b.table_constraints[30].oracle_ids, vec![33, 97, 69, 94]);
    assert_eq!(b.table_constraints[35].oracle_ids, vec![29, 118, 3]);
    assert_eq!(b.table_constraints[59].oracle_ids, vec![53, 142, 3]);
}
