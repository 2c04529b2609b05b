use binius_circuits::builder::ConstraintSystemBuilder;
use binius_circuits::channel::FlushDirection;
use binius_circuits::constraint::ArithExpr;
use binius_circuits::error::Error;
use binius_circuits::oracle::{
    CommittedBatch, Error as OracleError, MultilinearOracleSet, OracleVariant, ProjectionVariant,
    ShiftVariant, Transparent,
};
use binius_circuits::util::{below_pow2, checked_pow2};

fn batch_of(system_oracles: &MultilinearOracleSet, id: usize) -> usize {
    match &system_oracles.oracle(id).variant {
        OracleVariant::Committed { batch_id } => *batch_id,
        other => panic!("oracle {} is not committed: {:?}", id, other),
    }
}

#[test]
fn namespaces_prefix_the_names_of_oracles() {
    let log_size = 14;
    let mut builder = ConstraintSystemBuilder::new();
    builder.push_namespace("a");
    let x = builder.add_committed("x", log_size, 0);
    builder.push_namespace("b");
    let y = builder.add_committed("y", log_size, 0);
    assert_eq!(builder.scoped_name("w"), "a::b::w");
    builder.pop_namespace();
    builder.pop_namespace();
    let z = builder.add_committed("z", log_size, 0);
    assert_eq!(builder.scoped_name("w"), "w");

    let system = builder.build().unwrap();
    assert_eq!(system.oracles.oracle(x).name, "a::x");
    assert_eq!(system.oracles.oracle(y).name, "a::b::y");
    assert_eq!(system.oracles.oracle(z).name, "z");
    assert_eq!((x, y, z), (0, 1, 2));
}

#[test]
fn popping_an_empty_namespace_changes_nothing() {
    let mut builder = ConstraintSystemBuilder::new();
    builder.pop_namespace();
    let x = builder.add_committed("x", 3, 0);
    let system = builder.build().unwrap();
    assert_eq!(system.oracles.oracle(x).name, "x");
}

#[test]
fn committed_oracles_of_one_shape_share_one_batch() {
    let mut builder = ConstraintSystemBuilder::new();
    let a = builder.add_committed("a", 10, 0);
    let b = builder.add_committed("b", 10, 3);
    let t = builder
        .add_transparent("t", Transparent::Constant { n_vars: 10, value: 5 })
        .unwrap();
    let c = builder.add_committed("c", 12, 0);
    let s = builder.add_shifted("s", a, 1, 5, ShiftVariant::LogicalLeft).unwrap();
    let d = builder.add_committed("d", 10, 0);
    let e = builder.add_committed("e", 10, 3);
    let f = builder.add_committed("f", 12, 0);
    let g: [usize; 3] = builder.add_committed_multiple("g", 10, 0);
    let system = builder.build().unwrap();
    let oracles = &system.oracles;
    assert_eq!(batch_of(oracles, a), batch_of(oracles, d));
    assert_eq!(batch_of(oracles, b), batch_of(oracles, e));
    assert_eq!(batch_of(oracles, c), batch_of(oracles, f));
    assert_ne!(batch_of(oracles, a), batch_of(oracles, b));
    assert_ne!(batch_of(oracles, a), batch_of(oracles, c));
    assert_ne!(batch_of(oracles, b), batch_of(oracles, c));
    for id in g {
        assert_eq!(batch_of(oracles, id), batch_of(oracles, a));
    }
    assert_eq!(oracles.n_batches(), 3);
    assert_eq!(oracles.committed_batch(batch_of(oracles, a)), CommittedBatch { n_vars: 10, tower_level: 0 });
    assert_eq!(oracles.committed_batch(batch_of(oracles, b)), CommittedBatch { n_vars: 10, tower_level: 3 });
    assert_eq!(oracles.committed_batch(batch_of(oracles, c)), CommittedBatch { n_vars: 12, tower_level: 0 });
    assert_eq!((t, s), (2, 4));
    assert_eq!(g, [8, 9, 10]);
    assert_eq!(oracles.oracle(8).name, "g_0");
    assert_eq!(oracles.oracle(9).name, "g_1");
    assert_eq!(oracles.oracle(10).name, "g_2");
}

#[test]
fn committed_multiple_numbers_names_in_decimal() {
    let mut builder = ConstraintSystemBuilder::new();
    builder.push_namespace("k");
    let ids: [usize; 12] = builder.add_committed_multiple("state", 6, 0);
    let system = builder.build().unwrap();
    assert_eq!(system.oracles.oracle(ids[0]).name, "k::state_0");
    assert_eq!(system.oracles.oracle(ids[9]).name, "k::state_9");
    assert_eq!(system.oracles.oracle(ids[10]).name, "k::state_10");
    assert_eq!(system.oracles.oracle(ids[11]).name, "k::state_11");
}

#[test]
fn derived_oracles_take_their_shape_from_their_inputs() {
    let mut builder = ConstraintSystemBuilder::new();
    let a = builder.add_committed("a", 10, 0);
    let b = builder.add_committed("b", 10, 3);
    let repeating = builder.add_repeating("r", a, 3).unwrap();
    let shifted = builder.add_shifted("s", b, 7, 3, ShiftVariant::CircularLeft).unwrap();
    let packed = builder.add_packed("p", a, 5).unwrap();
    let projected =
        builder.add_projected("q", b, vec![1, 0, 1], ProjectionVariant::LastVars).unwrap();
    let high = builder.add_projected("h", a, vec![0x100], ProjectionVariant::FirstVars).unwrap();
    let combination =
        builder.add_linear_combination("l", 10, vec![(a, 1), (b, 0x1_0000)]).unwrap();
    let offset = builder
        .add_linear_combination_with_offset("o", 10, 1 << 64, vec![(a, 1)])
        .unwrap();
    let empty = builder.add_linear_combination("z", 4, vec![]).unwrap();
    let padded = builder.add_zero_padded("zp", b, 12).unwrap();
    let powers = builder.add_transparent("pw", Transparent::Powers { n_vars: 4, base: 0xff }).unwrap();
    let step = builder.add_transparent("sd", Transparent::StepDown { n_vars: 4, index: 16 }).unwrap();
    let system = builder.build().unwrap();
    let shape = |id: usize| {
        let o = system.oracles.oracle(id);
        (o.n_vars, o.tower_level)
    };
    assert_eq!(shape(repeating), (13, 0));
    assert_eq!(shape(shifted), (10, 3));
    assert_eq!(shape(packed), (5, 5));
    assert_eq!(shape(projected), (7, 3));
    assert_eq!(shape(high), (9, 4));
    assert_eq!(shape(combination), (10, 5));
    assert_eq!(shape(offset), (10, 7));
    assert_eq!(shape(empty), (4, 0));
    assert_eq!(shape(padded), (12, 3));
    assert_eq!(shape(powers), (4, 3));
    assert_eq!(shape(step), (4, 0));
    assert_eq!(system.oracles.n_vars(padded), 12);
    assert_eq!(system.oracles.tower_level(padded), 3);
    assert!(system.oracles.is_valid_oracle_id(step));
    assert!(!system.oracles.is_valid_oracle_id(step + 1));
}

#[test]
fn structural_errors_are_raised_where_they_are_caused() {
    let mut builder = ConstraintSystemBuilder::new();
    let a = builder.add_committed("a", 10, 0);
    let b = builder.add_committed("b", 12, 6);
    assert_eq!(builder.add_repeating("r", 7, 1), Err(OracleError::InvalidOracleId(7)));
    assert_eq!(builder.add_repeating("r", a, usize::MAX), Err(OracleError::TooManyVariables));
    assert_eq!(
        builder.add_shifted("s", 7, 1, 1, ShiftVariant::LogicalLeft),
        Err(OracleError::InvalidOracleId(7))
    );
    assert_eq!(
        builder.add_shifted("s", a, 1, 11, ShiftVariant::LogicalLeft),
        Err(OracleError::InvalidBlockSize { n_vars: 10 })
    );
    assert_eq!(
        builder.add_shifted("s", a, 0, 5, ShiftVariant::LogicalRight),
        Err(OracleError::InvalidShiftOffset { block_bits: 5, shift_offset: 0 })
    );
    assert_eq!(
        builder.add_shifted("s", a, 32, 5, ShiftVariant::CircularLeft),
        Err(OracleError::InvalidShiftOffset { block_bits: 5, shift_offset: 32 })
    );
    assert!(builder.add_shifted("s", a, 31, 5, ShiftVariant::CircularLeft).is_ok());
    assert_eq!(builder.add_packed("p", 9, 1), Err(OracleError::InvalidOracleId(9)));
    assert_eq!(
        builder.add_packed("p", a, 11),
        Err(OracleError::NotEnoughVarsForPacking { n_vars: 10, log_degree: 11 })
    );
    assert_eq!(
        builder.add_packed("p", b, 2),
        Err(OracleError::TowerLevelTooHigh { tower_level: 6 })
    );
    assert_eq!(
        builder.add_projected("q", 9, vec![], ProjectionVariant::FirstVars),
        Err(OracleError::InvalidOracleId(9))
    );
    assert_eq!(
        builder.add_projected("q", a, vec![0; 11], ProjectionVariant::FirstVars),
        Err(OracleError::InvalidProjection { n_vars: 10, values_len: 11 })
    );
    assert_eq!(
        builder.add_linear_combination("l", 10, vec![(a, 1), (9, 1), (b, 1)]),
        Err(OracleError::InvalidOracleId(9))
    );
    assert_eq!(
        builder.add_linear_combination("l", 10, vec![(a, 1), (b, 1), (9, 1)]),
        Err(OracleError::IncorrectNumberOfVariables { expected: 10 })
    );
    assert_eq!(builder.add_zero_padded("z", 9, 10), Err(OracleError::InvalidOracleId(9)));
    assert_eq!(
        builder.add_zero_padded("z", b, 11),
        Err(OracleError::IncorrectNumberOfVariables { expected: 12 })
    );
    assert_eq!(
        builder.add_transparent("t", Transparent::StepDown { n_vars: 3, index: 9 }),
        Err(OracleError::InvalidStepIndex { n_vars: 3, index: 9 })
    );
    assert!(builder.add_transparent("t", Transparent::StepDown { n_vars: 3, index: 8 }).is_ok());
    assert_eq!(
        builder.add_transparent(
            "t",
            Transparent::MultilinearExtension { n_vars: 3, tower_level: 8, data: vec![0; 16] }
        ),
        Err(OracleError::TowerLevelTooHigh { tower_level: 8 })
    );
    assert_eq!(
        builder.add_transparent(
            "t",
            Transparent::MultilinearExtension { n_vars: 5, tower_level: 3, data: vec![0; 16] }
        ),
        Err(OracleError::IncorrectDataLength { n_vars: 5, tower_level: 3 })
    );
    assert!(builder
        .add_transparent(
            "t",
            Transparent::MultilinearExtension { n_vars: 5, tower_level: 3, data: vec![0; 32] }
        )
        .is_ok());
    // nothing was added by the failed calls
    let system = builder.build().unwrap();
    assert_eq!(system.oracles.size(), 5);
}

#[test]
fn log_rows_is_the_common_number_of_variables() {
    let mut builder = ConstraintSystemBuilder::new();
    let a = builder.add_committed("a", 10, 0);
    let b = builder.add_committed("b", 10, 3);
    let c = builder.add_committed("c", 11, 3);
    assert_eq!(builder.log_rows(&[a, b]), Ok(10));
    assert_eq!(builder.log_rows(&[c]), Ok(11));
    assert_eq!(builder.log_rows(&[]), Err(Error::NoOracles));
    assert_eq!(builder.log_rows(&[7, a]), Err(Error::Oracle(OracleError::InvalidOracleId(7))));
    assert_eq!(builder.log_rows(&[a, 7]), Err(Error::Oracle(OracleError::InvalidOracleId(7))));
    assert_eq!(
        builder.log_rows(&[a, b, c]),
        Err(Error::Oracle(OracleError::IncorrectNumberOfVariables { expected: 10 }))
    );
    assert_eq!(builder.oracles().size(), 3);
}

#[test]
fn channels_are_numbered_in_order_and_flushes_recorded() {
    let mut builder = ConstraintSystemBuilder::new();
    let a = builder.add_committed("a", 4, 0);
    let b = builder.add_committed("b", 4, 3);
    let c = builder.add_committed("c", 5, 3);
    assert_eq!(builder.add_channel(), 0);
    assert_eq!(builder.add_channel(), 1);
    assert_eq!(builder.add_channel(), 2);
    builder.send(1, vec![a, b]).unwrap();
    builder.receive(2, vec![b, a]).unwrap();
    builder.flush(FlushDirection::Push, 0, 7, vec![c]).unwrap();
    assert_eq!(
        builder.send(1, vec![a, c]),
        Err(Error::Oracle(OracleError::IncorrectNumberOfVariables { expected: 4 }))
    );
    assert_eq!(builder.receive(1, vec![]), Err(Error::NoOracles));
    assert_eq!(
        builder.flush(FlushDirection::Pull, 0, 17, vec![a]),
        Err(Error::FlushCountExceedsRows { count: 17, log_rows: 4 })
    );
    builder.flush(FlushDirection::Pull, 0, 16, vec![a]).unwrap();
    builder.flush(FlushDirection::Pull, 0, 0, vec![a]).unwrap();
    let system = builder.build().unwrap();
    assert_eq!(system.max_channel_id, 2);
    assert_eq!(system.flushes.len(), 5);
    assert_eq!(system.flushes[0].channel_id, 1);
    assert_eq!(system.flushes[0].direction, FlushDirection::Push);
    assert_eq!(system.flushes[0].oracles, vec![a, b]);
    assert_eq!(system.flushes[0].count, 16);
    assert_eq!(system.flushes[1].direction, FlushDirection::Pull);
    assert_eq!(system.flushes[1].oracles, vec![b, a]);
    assert_eq!(system.flushes[2].count, 7);
}

#[test]
fn max_channel_id_of_no_flush_is_zero() {
    let mut builder = ConstraintSystemBuilder::new();
    builder.add_channel();
    builder.add_channel();
    let system = builder.build().unwrap();
    assert_eq!(system.max_channel_id, 0);
    assert!(system.flushes.is_empty());
}

#[test]
fn constraints_are_kept_in_both_sets_and_checked_at_build() {
    let mut builder = ConstraintSystemBuilder::new();
    let a = builder.add_committed("a", 4, 0);
    let b = builder.add_committed("b", 4, 0);
    builder.assert_zero(vec![a, b], ArithExpr::var(0).plus(ArithExpr::var(1)));
    builder.assert_not_zero(b);
    builder.assert_not_zero(a);
    let system = builder.build().unwrap();
    assert_eq!(system.table_constraints.len(), 1);
    assert_eq!(system.table_constraints_base.len(), 1);
    assert_eq!(system.table_constraints[0].oracle_ids, vec![a, b]);
    assert_eq!(system.table_constraints_base[0].oracle_ids, vec![a, b]);
    assert!(matches!(system.table_constraints[0].composition, ArithExpr::Add(_, _)));
    assert!(matches!(system.table_constraints_base[0].composition, ArithExpr::Add(_, _)));
    assert_eq!(system.non_zero_oracle_ids, vec![b, a]);

    let mut builder = ConstraintSystemBuilder::new();
    let a = builder.add_committed("a", 4, 0);
    builder.assert_zero(vec![a], ArithExpr::var(0));
    builder.assert_zero(vec![a, 5, 6], ArithExpr::var(0));
    assert_eq!(builder.build().err(), Some(Error::Oracle(OracleError::InvalidOracleId(5))));

    let mut builder = ConstraintSystemBuilder::new();
    let a = builder.add_committed("a", 4, 0);
    builder.assert_zero(vec![a], ArithExpr::var(0));
    builder.assert_zero(vec![a], ArithExpr::var(0).times(ArithExpr::var(1)));
    assert_eq!(builder.build().err(), Some(Error::InvalidComposition { index: 1 }));
}

#[test]
fn expressions_copy_and_bound_their_variables() {
    let e = ArithExpr::var(2).times(ArithExpr::constant(1)).plus(ArithExpr::var(0));
    assert!(e.has_vars_below(3));
    assert!(!e.has_vars_below(2));
    assert!(ArithExpr::constant(7).has_vars_below(0));
    let copy = e.duplicate();
    assert_eq!(format!("{:?}", copy), format!("{:?}", e));
}

#[test]
fn the_verifier_has_no_witness() {
    let mut builder = ConstraintSystemBuilder::new();
    assert!(!builder.has_witness());
    assert!(builder.witness().is_none());
    let mut prover = ConstraintSystemBuilder::new_with_witness();
    assert!(prover.has_witness());
    assert!(prover.witness().is_some());
    let index = prover.take_witness();
    assert!(index.is_some());
    assert!(!prover.has_witness());
    assert!(index.unwrap().get(0).is_none());
}

#[test]
fn powers_of_two_within_machine_limits() {
    assert_eq!(checked_pow2(0), Some(1));
    assert_eq!(checked_pow2(10), Some(1024));
    assert_eq!(checked_pow2(usize::BITS as usize - 1), Some(1 << (usize::BITS - 1)));
    assert_eq!(checked_pow2(usize::BITS as usize), None);
    assert_eq!(checked_pow2(usize::MAX), None);
    assert!(below_pow2(0, 0));
    assert!(!below_pow2(1, 0));
    assert!(below_pow2(31, 5));
    assert!(!below_pow2(32, 5));
    assert!(below_pow2(usize::MAX, usize::BITS as usize));
    assert!(!below_pow2(usize::MAX, usize::BITS as usize - 1));
    assert!(below_pow2(usize::MAX, usize::MAX));
}
