use std::collections::HashMap;

use binius_circuits::builder::{ConstraintSystem, ConstraintSystemBuilder};
use binius_circuits::channel::FlushDirection;
use binius_circuits::error::Error;
use binius_circuits::field::tower::multiply;
use binius_circuits::lasso::u32add::{u32add, ADD_T_LOG_SIZE};
use binius_circuits::lasso::{lasso, MULTIPLICATIVE_GENERATOR_32};
use binius_circuits::oracle::{Error as OracleError, OracleVariant, ShiftVariant};
use binius_circuits::builder::witness::views::{get_bit, read_u32_rows, read_value_rows};
use binius_circuits::builder::witness::MultilinearExtensionIndex;

fn pow32(base: u32, mut e: u32) -> u32 {
    let mut acc: u128 = 1;
    let mut b: u128 = base as u128;
    while e > 0 {
        if e & 1 == 1 {
            acc = multiply(acc, b, 5);
        }
        b = multiply(b, b, 5);
        e >>= 1;
    }
    acc as u32
}

fn committed_column(
    builder: &mut ConstraintSystemBuilder,
    name: &str,
    log_rows: usize,
    tower_level: usize,
    bytes: &[u8],
) -> usize {
    let id = builder.add_committed(name, log_rows, tower_level);
    if let Some(witness) = builder.witness() {
        let mut column = witness.new_column(id, log_rows, tower_level);
        let mut data = bytes.to_vec();
        data.resize(column.len(), 0);
        column.fill_bytes(&data);
        column.finalize(witness);
    }
    id
}

fn channel_imbalance(
    system: &ConstraintSystem,
    witness: &MultilinearExtensionIndex,
) -> HashMap<(usize, u128, u128), i64> {
    let mut ledger: HashMap<(usize, u128, u128), i64> = HashMap::new();
    for flush in &system.flushes {
        let columns: Vec<Vec<u128>> = flush
            .oracles
            .iter()
            .map(|id| {
                let entry = witness.get(*id).expect("column present");
                read_value_rows(&entry.data, entry.tower_level)
            })
            .collect();
        for row in 0..flush.count {
            let slot =
                ledger.entry((flush.channel_id, columns[0][row], columns[1][row])).or_insert(0);
            match flush.direction {
                FlushDirection::Push => *slot += 1,
                FlushDirection::Pull => *slot -= 1,
            }
        }
    }
    ledger.retain(|_, v| *v != 0);
    ledger
}

#[test]
fn generator_of_the_32_bit_field_has_full_order() {
    let g = MULTIPLICATIVE_GENERATOR_32;
    assert_eq!(pow32(g, u32::MAX), 1);
    for p in [3u32, 5, 17, 257, 65537] {
        assert_ne!(pow32(g, u32::MAX / p), 1);
    }
}

#[test]
fn lasso_counts_the_lookups_of_every_table_row() {
    let g = MULTIPLICATIVE_GENERATOR_32;
    let g2 = pow32(g, 2);
    let g3 = pow32(g, 3);
    let table: Vec<u8> = [7u32, 8, 9, 10].iter().flat_map(|v| v.to_le_bytes()).collect();
    let mapping = vec![2usize, 0, 2, 2, 3, 0, 0, 0];
    let lookups: Vec<u8> =
        mapping.iter().flat_map(|t| (7 + *t as u32).to_le_bytes()).collect();
    let mut builder = ConstraintSystemBuilder::new_with_witness();
    let t = committed_column(&mut builder, "t", 2, 5, &table);
    let u = committed_column(&mut builder, "u", 3, 5, &lookups);
    let channel = builder.add_channel();
    lasso(&mut builder, "lookup", 3, 2, Some(mapping), u, t, channel).unwrap();
    let witness = builder.take_witness().unwrap();
    let system = builder.build().unwrap();
    assert_eq!(system.oracles.size(), 6);
    assert_eq!(system.oracles.oracle(2).name, "lookup::lookup_r");
    assert_eq!(system.oracles.oracle(3).name, "lookup::lookup_w");
    assert_eq!(system.oracles.oracle(4).name, "lookup::lookup_f");
    assert_eq!(system.oracles.oracle(5).name, "lookup::lookup_o");
    assert_eq!(read_u32_rows(&witness.get(2).unwrap().data), vec![1, 1, g, g2, 1, g, g2, g3]);
    assert_eq!(
        read_u32_rows(&witness.get(3).unwrap().data),
        vec![g, g, g2, g3, g, g2, g3, pow32(g, 4)]
    );
    assert_eq!(read_u32_rows(&witness.get(4).unwrap().data), vec![pow32(g, 4), 1, g3, g]);
    assert_eq!(read_u32_rows(&witness.get(5).unwrap().data), vec![1, 1, 1, 1]);
    assert_eq!(system.non_zero_oracle_ids, vec![2]);
    assert_eq!(system.flushes.len(), 4);
    let expected = [
        (FlushDirection::Push, vec![t, 5], 4),
        (FlushDirection::Pull, vec![u, 2], 8),
        (FlushDirection::Push, vec![u, 3], 8),
        (FlushDirection::Pull, vec![t, 4], 4),
    ];
    for (flush, (direction, oracles, count)) in system.flushes.iter().zip(expected) {
        assert_eq!(flush.channel_id, channel);
        assert_eq!(flush.direction, direction);
        assert_eq!(flush.oracles, oracles);
        assert_eq!(flush.count, count);
    }
    assert!(channel_imbalance(&system, &witness).is_empty());
    match &system.oracles.oracle(3).variant {
        OracleVariant::LinearCombination { offset, inner } => {
            assert_eq!(*offset, 0);
            assert_eq!(inner, &vec![(2usize, g as u128)]);
        }
        other => panic!("unexpected variant {:?}", other),
    }
}

#[test]
fn lasso_reports_its_errors() {
    let mut builder = ConstraintSystemBuilder::new_with_witness();
    let t = committed_column(&mut builder, "t", 2, 5, &[]);
    let u = committed_column(&mut builder, "u", 3, 5, &[]);
    assert_eq!(lasso(&mut builder, "l", 3, 2, None, u, t, 0), Err(Error::MissingMapping));
    assert_eq!(
        lasso(&mut builder, "l", 3, 2, Some(vec![0, 1, 4]), u, t, 0),
        Err(Error::MappingOutOfRange { index: 4, rows: 4 })
    );
    assert_eq!(
        lasso(&mut builder, "l", 4, 2, Some(vec![]), u, t, 0),
        Err(Error::Oracle(OracleError::IncorrectNumberOfVariables { expected: 4 }))
    );
    assert_eq!(
        lasso(&mut builder, "l", 3, 3, Some(vec![]), u, t, 0),
        Err(Error::Oracle(OracleError::IncorrectNumberOfVariables { expected: 3 }))
    );
    assert_eq!(
        lasso(&mut builder, "l", 3, 2, Some(vec![]), 9, t, 0),
        Err(Error::Oracle(OracleError::InvalidOracleId(9)))
    );
    let mut verifier = ConstraintSystemBuilder::new();
    let t = verifier.add_committed("t", 2, 5);
    let u = verifier.add_committed("u", 3, 5);
    assert_eq!(lasso(&mut verifier, "l", 3, 2, None, u, t, 0), Ok(()));
    assert_eq!(verifier.build().unwrap().flushes.len(), 4);
}

fn add_by_lookups(xs: &[u32], ys: &[u32]) -> (ConstraintSystem, MultilinearExtensionIndex, usize) {
    let log_size = xs.len().trailing_zeros() as usize;
    let x_bytes: Vec<u8> = xs.iter().flat_map(|v| v.to_le_bytes()).collect();
    let y_bytes: Vec<u8> = ys.iter().flat_map(|v| v.to_le_bytes()).collect();
    let mut builder = ConstraintSystemBuilder::new_with_witness();
    let x = committed_column(&mut builder, "x", log_size + 2, 3, &x_bytes);
    let y = committed_column(&mut builder, "y", log_size + 2, 3, &y_bytes);
    let sum = u32add(&mut builder, "add", x, y, log_size).unwrap();
    let witness = builder.take_witness().unwrap();
    (builder.build().unwrap(), witness, sum)
}

#[test]
fn u32add_adds_byte_by_byte_with_carries() {
    let xs = [1u32, 0xffff_ffff, 0x0000_00ff, 0x1234_5678, 0x8000_0000, 0x00ff_ff00, 7, 0];
    let ys = [2u32, 0x0000_0001, 0x0000_0001, 0x9abc_def0, 0x8000_0000, 0x0000_0100, 9, 0];
    let (system, witness, sum) = add_by_lookups(&xs, &ys);
    assert_eq!(sum, 2);
    let sums = read_u32_rows(&witness.get(sum).unwrap().data);
    for i in 0..8 {
        assert_eq!(sums[i], xs[i].wrapping_add(ys[i]));
    }
    let x_bytes: Vec<u8> = xs.iter().flat_map(|v| v.to_le_bytes()).collect();
    let y_bytes: Vec<u8> = ys.iter().flat_map(|v| v.to_le_bytes()).collect();
    let sum_bytes = &witness.get(sum).unwrap().data;
    let cout = &witness.get(3).unwrap().data;
    let cin = &witness.get(4).unwrap().data;
    let lookup_t = read_u32_rows(&witness.get(5).unwrap().data);
    let lookup_u = read_u32_rows(&witness.get(6).unwrap().data);
    assert_eq!(lookup_t.len(), 1 << ADD_T_LOG_SIZE);
    for i in 0..32 {
        let carry_in = if i % 4 == 0 { false } else { get_bit(cout, i - 1) };
        assert_eq!(get_bit(cin, i), carry_in);
        let total = x_bytes[i] as u32 + y_bytes[i] as u32 + carry_in as u32;
        assert_eq!(sum_bytes[i] as u32, total & 0xff);
        assert_eq!(get_bit(cout, i), total > 0xff);
        let combined = ((carry_in as u32) << 25)
            | ((get_bit(cout, i) as u32) << 24)
            | ((x_bytes[i] as u32) << 16)
            | ((y_bytes[i] as u32) << 8)
            | sum_bytes[i] as u32;
        assert_eq!(lookup_u[i], combined);
        let row = ((x_bytes[i] as usize) << 9) | ((y_bytes[i] as usize) << 1) | carry_in as usize;
        assert_eq!(lookup_t[row], combined);
    }
    assert!(channel_imbalance(&system, &witness).is_empty());
    let names: Vec<String> =
        (0..system.oracles.size()).map(|id| system.oracles.oracle(id).name.clone()).collect();
    assert_eq!(
        names,
        vec![
            "x",
            "y",
            "add::sum",
            "add::cout",
            "add::cin",
            "add::lookup_t",
            "add::lookup_u",
            "add::add lasso::lookup_r",
            "add::add lasso::lookup_w",
            "add::add lasso::lookup_f",
            "add::add lasso::lookup_o",
        ]
    );
    match &system.oracles.oracle(4).variant {
        OracleVariant::Shifted { inner, offset, block_bits, variant } => {
            assert_eq!((*inner, *offset, *block_bits, *variant), (3, 1, 2, ShiftVariant::LogicalLeft));
        }
        other => panic!("unexpected variant {:?}", other),
    }
    match &system.oracles.oracle(6).variant {
        OracleVariant::LinearCombination { offset, inner } => {
            assert_eq!(*offset, 0);
            assert_eq!(
                inner,
                &vec![(4usize, 1u128 << 25), (3, 1 << 24), (0, 1 << 16), (1, 1 << 8), (2, 1)]
            );
        }
        other => panic!("unexpected variant {:?}", other),
    }
    assert_eq!(system.oracles.oracle(6).tower_level, 5);
    assert_eq!(system.oracles.oracle(2).tower_level, 3);
    assert_eq!(system.oracles.oracle(2).n_vars, 5);
    assert_eq!(system.flushes.len(), 4);
    assert_eq!(system.max_channel_id, 0);
}

#[test]
fn u32add_reports_its_errors() {
    let mut builder = ConstraintSystemBuilder::new_with_witness();
    let x = committed_column(&mut builder, "x", 4, 3, &[]);
    let y = builder.add_committed("y", 4, 3);
    assert_eq!(
        u32add(&mut builder, "add", x, y, 2),
        Err(Error::Witness(binius_circuits::builder::witness::Error::MissingWitness { id: y }))
    );
    let mut builder = ConstraintSystemBuilder::new();
    let x = builder.add_committed("x", 4, 3);
    let y = builder.add_committed("y", 5, 3);
    assert_eq!(
        u32add(&mut builder, "add", x, y, 2),
        Err(Error::Oracle(OracleError::IncorrectNumberOfVariables { expected: 4 }))
    );
    let mut builder = ConstraintSystemBuilder::new();
    let x = builder.add_committed("x", 4, 3);
    assert_eq!(
        u32add(&mut builder, "add", x, 77, 2),
        Err(Error::Oracle(OracleError::InvalidOracleId(77)))
    );
    assert_eq!(
        u32add(&mut builder, "add", x, x, usize::MAX),
        Err(Error::Oracle(OracleError::TooManyVariables))
    );
    let mut builder = ConstraintSystemBuilder::new();
    let x = builder.add_committed("x", 4, 3);
    let y = builder.add_committed("y", 4, 3);
    assert_eq!(u32add(&mut builder, "add", x, y, 2), Ok(2));
}
