use std::collections::HashMap;

use binius_circuits::builder::{ConstraintSystem, ConstraintSystemBuilder};
use binius_circuits::channel::FlushDirection;
use binius_circuits::error::Error;
use binius_circuits::field::tower::{multiply, MULTIPLICATIVE_GENERATOR_64};
use binius_circuits::oracle::Transparent;
use binius_circuits::provide_require::{
    ilog2, populate_require_hints, provide, provide_require_lookup, require,
};
use binius_circuits::builder::witness::views::{
    read_u64_rows, read_value_rows, u32_rows_to_bytes,
};
use binius_circuits::builder::witness::MultilinearExtensionIndex;
use rand::Rng;

fn into_lookup_claim(x: u8, y: u8, z: u16) -> u32 {
    ((z as u32) << 16) | ((y as u32) << 8) | (x as u32)
}

fn generate_u8_mul_table() -> Vec<u32> {
    let mut result = Vec::with_capacity(1 << 16);
    for x in 0..=255u8 {
        for y in 0..=255u8 {
            let product = x as u16 * y as u16;
            result.push(into_lookup_claim(x, y, product));
        }
    }
    result
}

fn generate_random_u8_mul_claims(vals: &mut [u32]) {
    let mut rng = rand::thread_rng();
    for val in vals.iter_mut() {
        let x = rng.gen_range(0..=255u8);
        let y = rng.gen_range(0..=255u8);
        let product = x as u16 * y as u16;
        *val = into_lookup_claim(x, y, product);
    }
}

fn make_transparent(builder: &mut ConstraintSystemBuilder, name: &str, values: &[u32]) -> usize {
    let n_vars = ilog2(values.len());
    let data = u32_rows_to_bytes(values);
    let id = builder
        .add_transparent(
            name,
            Transparent::MultilinearExtension { n_vars, tower_level: 5, data: data.clone() },
        )
        .unwrap();
    if let Some(witness) = builder.witness() {
        witness.set_data(id, n_vars, 5, data).unwrap();
    }
    id
}

fn committed_u32(builder: &mut ConstraintSystemBuilder, name: &str, log_rows: usize, values: &[u32]) -> usize {
    let id = builder.add_committed(name, log_rows, 5);
    if let Some(witness) = builder.witness() {
        let mut column = witness.new_column(id, log_rows, 5);
        column.fill_u32(values);
        column.finalize(witness);
    }
    id
}

fn test_u8_mul_lookup(
    builder: &mut ConstraintSystemBuilder,
    log_lookup_count: usize,
) -> Result<(), Error> {
    let table_values = generate_u8_mul_table();
    let table = make_transparent(builder, "u8_mul_table", &table_values);

    let lookup_values = builder.add_committed("lookup_values", log_lookup_count, 5);

    let table_count = table_values.len();
    let lookup_values_count = 1 << log_lookup_count;

    if let Some(witness) = builder.witness() {
        let mut claims = vec![0u32; lookup_values_count];
        generate_random_u8_mul_claims(&mut claims);
        let mut lookup_values_col = witness.new_column(lookup_values, log_lookup_count, 5);
        lookup_values_col.fill_u32(&claims);
        lookup_values_col.finalize(witness);
    }

    provide_require_lookup(builder, table, table_count, lookup_values, lookup_values_count, 5)?;

    Ok(())
}

/// The rows that every channel still holds once all flushes are applied:
/// empty exactly when every channel balances.
fn channel_imbalance(
    system: &ConstraintSystem,
    witness: &MultilinearExtensionIndex,
) -> HashMap<(usize, u128, u128), i64> {
    let mut ledger: HashMap<(usize, u128, u128), i64> = HashMap::new();
    for flush in &system.flushes {
        assert_eq!(flush.oracles.len(), 2);
        let columns: Vec<Vec<u128>> = flush
            .oracles
            .iter()
            .map(|id| {
                let entry = witness.get(*id).expect("column present");
                read_value_rows(&entry.data, entry.tower_level)
            })
            .collect();
        for row in 0..flush.count {
            let slot =
                ledger.entry((flush.channel_id, columns[0][row], columns[1][row])).or_insert(0);
            match flush.direction {
                FlushDirection::Push => *slot += 1,
                FlushDirection::Pull => *slot -= 1,
            }
        }
    }
    ledger.retain(|_, v| *v != 0);
    ledger
}

#[test]
fn test_plain_u8_mul_lookup() {
    let log_lookup_count = 22;

    let (flushes, oracles) = {
        let mut builder = ConstraintSystemBuilder::new_with_witness();

        test_u8_mul_lookup(&mut builder, log_lookup_count).unwrap();

        let witness = builder.take_witness().unwrap();
        let constraint_system = builder.build().unwrap();
        assert!(channel_imbalance(&constraint_system, &witness).is_empty());
        (constraint_system.flushes.len(), constraint_system.oracles.size())
    };

    // the verifier builds the same constraint system without a witness
    {
        let mut builder = ConstraintSystemBuilder::new();

        test_u8_mul_lookup(&mut builder, log_lookup_count).unwrap();

        let constraint_system = builder.build().unwrap();
        assert_eq!(constraint_system.flushes.len(), flushes);
        assert_eq!(constraint_system.oracles.size(), oracles);
        assert_eq!(constraint_system.max_channel_id, 0);
    }
}

fn small_lookup(table: &[u32], lookups: &[u32]) -> (ConstraintSystem, MultilinearExtensionIndex) {
    let mut builder = ConstraintSystemBuilder::new_with_witness();
    let table_id = make_transparent(&mut builder, "table", table);
    let log_lookups = ilog2(lookups.len());
    let lookup_id = committed_u32(&mut builder, "lookups", log_lookups, lookups);
    provide_require_lookup(&mut builder, table_id, table.len(), lookup_id, lookups.len(), 5).unwrap();
    let witness = builder.take_witness().unwrap();
    (builder.build().unwrap(), witness)
}

#[test]
fn lookup_hints_count_occurrences_with_generator_powers() {
    let g = MULTIPLICATIVE_GENERATOR_64;
    let g2 = multiply(g as u128, g as u128, 6) as u64;
    let g3 = multiply(g2 as u128, g as u128, 6) as u64;
    let table = [10u32, 20, 30, 40];
    let lookups = [20u32, 10, 20, 20, 40, 10, 20, 40];
    let g4 = multiply(g3 as u128, g as u128, 6) as u64;
    let (system, witness) = small_lookup(&table, &lookups);
    // oracles: table, lookups, multiplicity, prev_index, ones, index
    assert_eq!(system.oracles.size(), 6);
    assert_eq!(system.oracles.oracle(2).name, "multiplicity");
    assert_eq!(system.oracles.oracle(3).name, "prev_index");
    assert_eq!(system.oracles.oracle(4).name, "ones-0");
    assert_eq!(system.oracles.oracle(5).name, "index-0");
    assert_eq!((system.oracles.oracle(2).n_vars, system.oracles.oracle(2).tower_level), (2, 6));
    assert_eq!((system.oracles.oracle(3).n_vars, system.oracles.oracle(3).tower_level), (3, 6));
    assert_eq!((system.oracles.oracle(5).n_vars, system.oracles.oracle(5).tower_level), (3, 6));
    assert_eq!(read_u64_rows(&witness.get(2).unwrap().data), vec![g2, g4, 1, g2]);
    assert_eq!(read_u64_rows(&witness.get(3).unwrap().data), vec![1, 1, g, g2, 1, g, g3, g]);
    assert_eq!(read_u64_rows(&witness.get(4).unwrap().data), vec![1, 1, 1, 1]);
    assert_eq!(
        read_value_rows(&witness.get(5).unwrap().data, 7),
        vec![g, g, g2, g3, g, g2, g4, g2].into_iter().map(|v| v as u128).collect::<Vec<_>>()
    );
    assert_eq!(witness.get(5).unwrap().tower_level, 7);
    assert_eq!(system.flushes.len(), 4);
    let expected = [
        (FlushDirection::Push, vec![0, 4], 4),
        (FlushDirection::Pull, vec![0, 2], 4),
        (FlushDirection::Pull, vec![1, 3], 8),
        (FlushDirection::Push, vec![1, 5], 8),
    ];
    for (flush, (direction, oracles, count)) in system.flushes.iter().zip(expected) {
        assert_eq!(flush.channel_id, 0);
        assert_eq!(flush.direction, direction);
        assert_eq!(flush.oracles, oracles);
        assert_eq!(flush.count, count);
    }
    assert!(channel_imbalance(&system, &witness).is_empty());
}

#[test]
fn lookup_of_a_value_outside_the_table_cannot_balance() {
    let table = [10u32, 20, 30, 40];
    let lookups = [20u32, 10, 99, 20];
    // construction succeeds; the channel is left unbalanced
    let (system, witness) = small_lookup(&table, &lookups);
    let imbalance = channel_imbalance(&system, &witness);
    assert!(!imbalance.is_empty());
    assert!(imbalance.keys().all(|(_, value, _)| *value == 99));
}

#[test]
fn unused_table_rows_still_balance() {
    let table = [1u32, 2, 3, 4, 5, 6, 7, 8];
    let lookups = [3u32, 3];
    let (system, witness) = small_lookup(&table, &lookups);
    assert_eq!(
        read_u64_rows(&witness.get(2).unwrap().data),
        vec![
            1,
            1,
            multiply(MULTIPLICATIVE_GENERATOR_64 as u128, MULTIPLICATIVE_GENERATOR_64 as u128, 6)
                as u64,
            1,
            1,
            1,
            1,
            1
        ]
    );
    assert!(channel_imbalance(&system, &witness).is_empty());
}

#[test]
fn lookup_steps_report_their_errors() {
    let mut builder = ConstraintSystemBuilder::new_with_witness();
    let table = make_transparent(&mut builder, "table", &[1, 2, 3, 4]);
    let lookups = committed_u32(&mut builder, "lookups", 2, &[1, 1, 2, 3]);
    assert_eq!(
        populate_require_hints(&mut builder, table, 0, lookups, 4, 5),
        Err(Error::EmptyTable)
    );
    assert_eq!(
        populate_require_hints(&mut builder, table, 4, lookups, 0, 5),
        Err(Error::EmptyTable)
    );
    assert_eq!(
        populate_require_hints(&mut builder, table, 4, lookups, 4, 2),
        Err(Error::UnsupportedTowerLevel { tower_level: 2 })
    );
    assert_eq!(
        populate_require_hints(&mut builder, table, 4, lookups, 4, 8),
        Err(Error::UnsupportedTowerLevel { tower_level: 8 })
    );
    assert_eq!(provide(&mut builder, 0, 0, table, 0), Err(Error::EmptyTable));
    assert_eq!(require(&mut builder, 0, 0, lookups, 0), Err(Error::EmptyTable));
    assert_eq!(builder.oracles().size(), 2);

    // the columns are stored as 32-bit values, not as bytes
    let mut other = ConstraintSystemBuilder::new_with_witness();
    let table = make_transparent(&mut other, "table", &[1, 2, 3, 4]);
    let lookups = committed_u32(&mut other, "lookups", 2, &[1, 1, 2, 3]);
    assert_eq!(
        populate_require_hints(&mut other, table, 4, lookups, 4, 3),
        Err(Error::Witness(binius_circuits::builder::witness::Error::OracleExtensionDegreeMismatch {
            oracle_id: lookups,
            field_tower_level: 3,
            entry_tower_level: 5
        }))
    );

    // more rows than the columns hold
    let mut other = ConstraintSystemBuilder::new_with_witness();
    let table = make_transparent(&mut other, "table", &[1, 2, 3, 4]);
    let lookups = committed_u32(&mut other, "lookups", 2, &[1, 1, 2, 3]);
    assert_eq!(
        populate_require_hints(&mut other, table, 4, lookups, 5, 5),
        Err(Error::CountExceedsColumn { count: 5, rows: 4 })
    );

    // a previous index of another shape than the lookups
    let mut other = ConstraintSystemBuilder::new();
    let lookups = other.add_committed("lookups", 3, 5);
    let prev = other.add_committed("prev", 2, 6);
    assert_eq!(
        require(&mut other, 0, prev, lookups, 8),
        Err(Error::Oracle(binius_circuits::oracle::Error::IncorrectNumberOfVariables {
            expected: 3
        }))
    );
    let table = other.add_committed("table", 3, 5);
    let multiplicity = other.add_committed("mult", 3, 6);
    assert_eq!(
        provide(&mut other, 0, multiplicity, table, 16),
        Err(Error::Oracle(binius_circuits::oracle::Error::IncorrectNumberOfVariables {
            expected: 3
        }))
    );
    assert_eq!(provide(&mut other, 0, multiplicity, table, 8), Ok(()));
}

#[test]
fn lookups_in_the_verifier_record_the_same_flushes() {
    let mut builder = ConstraintSystemBuilder::new();
    let table = builder.add_committed("table", 4, 5);
    let lookups = builder.add_committed("lookups", 6, 5);
    provide_require_lookup(&mut builder, table, 16, lookups, 64, 5).unwrap();
    provide_require_lookup(&mut builder, table, 16, lookups, 64, 5).unwrap();
    let system = builder.build().unwrap();
    assert_eq!(system.flushes.len(), 8);
    assert_eq!(system.max_channel_id, 1);
    assert_eq!(system.oracles.oracle(4).name, "ones-0");
    assert_eq!(system.oracles.oracle(8).name, "ones-1");
    assert_eq!(system.oracles.oracle(9).name, "index-1");
    assert_eq!(ilog2(1), 0);
    assert_eq!(ilog2(2), 1);
    assert_eq!(ilog2(3), 1);
    assert_eq!(ilog2(65536), 16);
    assert_eq!(ilog2(usize::MAX), usize::BITS as usize - 1);
}
