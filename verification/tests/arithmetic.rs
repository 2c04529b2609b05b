use binius_circuits::arithmetic::u32::{add, half, packed, select_bit, shift, shl, shr, sub};
use binius_circuits::oracle::ShiftVariant;
use binius_circuits::arithmetic::Flags;
use binius_circuits::builder::ConstraintSystemBuilder;
use binius_circuits::constraint::ArithExpr;
use binius_circuits::error::Error;
use binius_circuits::builder::witness::views::{read_u32_rows, u32_rows_to_bytes};
use binius_circuits::builder::witness::MultilinearExtensionIndex;
use rand::Rng;

fn column_u32(index: &MultilinearExtensionIndex, id: usize) -> Vec<u32> {
    read_u32_rows(&index.get(id).expect("column present").data)
}

fn committed_words(builder: &mut ConstraintSystemBuilder, name: &str, log_rows: usize, words: &[u32]) -> usize {
    let id = builder.add_committed(name, log_rows, 0);
    if let Some(witness) = builder.witness() {
        let mut column = witness.new_column(id, log_rows, 0);
        column.fill_u32(words);
        column.finalize(witness);
    }
    id
}

fn eval_bits(expr: &ArithExpr, vars: &[u32]) -> u32 {
    match expr {
        ArithExpr::Const(c) => {
            if *c == 0 {
                0
            } else {
                u32::MAX
            }
        }
        ArithExpr::Var(i) => vars[*i],
        ArithExpr::Add(a, b) => eval_bits(a, vars) ^ eval_bits(b, vars),
        ArithExpr::Mul(a, b) => eval_bits(a, vars) & eval_bits(b, vars),
    }
}

#[test]
fn add_wraps_and_satisfies_its_relations() {
    let xs = [1u32, u32::MAX, 0x8000_0000, 123_456_789];
    let ys = [2u32, 1, 0x8000_0000, 987_654_321];
    let mut builder = ConstraintSystemBuilder::new_with_witness();
    let x = committed_words(&mut builder, "x", 7, &xs);
    let y = committed_words(&mut builder, "y", 7, &ys);
    let z = add(&mut builder, "sum", x, y, Flags::Unchecked).unwrap();
    assert_eq!(z, 4);
    let index = builder.take_witness().unwrap();
    let system = builder.build().unwrap();
    let zs = column_u32(&index, z);
    let couts = column_u32(&index, 2);
    let cins = column_u32(&index, 3);
    for i in 0..4 {
        assert_eq!(zs[i], xs[i].wrapping_add(ys[i]));
        assert_eq!(cins[i], couts[i] << 1);
        assert_eq!((couts[i] >> 31) == 1, xs[i].checked_add(ys[i]).is_none());
    }
    assert_eq!(system.table_constraints.len(), 2);
    assert_eq!(system.table_constraints_base.len(), 2);
    for constraint in &system.table_constraints {
        let columns: Vec<Vec<u32>> =
            constraint.oracle_ids.iter().map(|id| column_u32(&index, *id)).collect();
        for i in 0..4 {
            let vars: Vec<u32> = columns.iter().map(|c| c[i]).collect();
            assert_eq!(eval_bits(&constraint.composition, &vars), 0);
        }
    }
    assert_eq!(system.oracles.oracle(2).name, "sum::cout");
    assert_eq!(system.oracles.oracle(3).name, "sum::cin");
    assert_eq!(system.oracles.oracle(4).name, "sum::zout");
}

#[test]
fn checked_add_selects_the_top_carry() {
    let xs = [1u32, u32::MAX, 0x8000_0000, 5];
    let ys = [2u32, 1, 0x8000_0000, 6];
    let mut builder = ConstraintSystemBuilder::new_with_witness();
    let x = committed_words(&mut builder, "x", 7, &xs);
    let y = committed_words(&mut builder, "y", 7, &ys);
    let z = add(&mut builder, "sum", x, y, Flags::Checked).unwrap();
    assert_eq!(z, 4);
    let index = builder.take_witness().unwrap();
    let system = builder.build().unwrap();
    assert_eq!(system.oracles.size(), 6);
    assert_eq!(system.oracles.oracle(5).name, "sum::last_cout");
    assert_eq!(system.oracles.oracle(5).n_vars, 2);
    let bits = &index.get(5).unwrap().data;
    assert_eq!(bits.len(), 16);
    assert_eq!(bits[0], 0b0110);
    assert!(bits[1..].iter().all(|b| *b == 0));
    assert_eq!(system.table_constraints.len(), 3);
    assert_eq!(system.table_constraints[2].oracle_ids, vec![5]);
}

#[test]
fn sub_wraps_and_satisfies_its_relations() {
    let zs = [3u32, 0, 0x8000_0000, 987_654_321];
    let ys = [2u32, 1, 0x8000_0001, 123_456_789];
    let mut builder = ConstraintSystemBuilder::new_with_witness();
    let z = committed_words(&mut builder, "z", 7, &zs);
    let y = committed_words(&mut builder, "y", 7, &ys);
    let x = sub(&mut builder, "diff", z, y, Flags::Unchecked).unwrap();
    let index = builder.take_witness().unwrap();
    let system = builder.build().unwrap();
    let xs = column_u32(&index, x);
    let couts = column_u32(&index, 2);
    for i in 0..4 {
        assert_eq!(xs[i], zs[i].wrapping_sub(ys[i]));
        assert_eq!((couts[i] >> 31) == 1, zs[i] < ys[i]);
    }
    for constraint in &system.table_constraints {
        let columns: Vec<Vec<u32>> =
            constraint.oracle_ids.iter().map(|id| column_u32(&index, *id)).collect();
        for i in 0..4 {
            let vars: Vec<u32> = columns.iter().map(|c| c[i]).collect();
            assert_eq!(eval_bits(&constraint.composition, &vars), 0);
        }
    }
    assert_eq!(system.oracles.oracle(x).name, "diff::xin");
}

#[test]
fn shifts_move_every_word() {
    let xs = [0x8000_0001u32, 0xffff_ffff, 0x1234_5678, 0];
    let mut builder = ConstraintSystemBuilder::new_with_witness();
    let x = committed_words(&mut builder, "x", 7, &xs);
    let left = shl(&mut builder, "left", x, 4).unwrap();
    let right = shr(&mut builder, "right", x, 31).unwrap();
    let same = shl(&mut builder, "same", x, 0).unwrap();
    assert_eq!(same, x);
    let halved = half(&mut builder, "half", x, Flags::Unchecked).unwrap();
    let index = builder.take_witness().unwrap();
    assert_eq!(column_u32(&index, left), xs.iter().map(|v| v << 4).collect::<Vec<_>>());
    assert_eq!(column_u32(&index, right), xs.iter().map(|v| v >> 31).collect::<Vec<_>>());
    assert_eq!(column_u32(&index, halved), xs.iter().map(|v| v >> 1).collect::<Vec<_>>());
}

#[test]
fn shift_by_a_whole_word_is_rejected() {
    let mut builder = ConstraintSystemBuilder::new();
    let x = builder.add_committed("x", 7, 0);
    assert_eq!(
        shl(&mut builder, "left", x, 32),
        Err(Error::Oracle(binius_circuits::oracle::Error::InvalidShiftOffset {
            block_bits: 5,
            shift_offset: 32
        }))
    );
    assert_eq!(
        shr(&mut builder, "right", 9, 1),
        Err(Error::Oracle(binius_circuits::oracle::Error::InvalidOracleId(9)))
    );
}

#[test]
fn select_bit_projects_one_bit_of_every_word() {
    let xs = [0b1000u32, 0b0111, 0xffff_ffff, 0];
    let mut builder = ConstraintSystemBuilder::new_with_witness();
    let x = committed_words(&mut builder, "x", 7, &xs);
    let bit = select_bit(&mut builder, "bit3", x, 3).unwrap();
    assert_eq!(select_bit(&mut builder, "bad", x, 32), Err(Error::BitIndexOutOfRange { index: 32 }));
    let small = builder.add_committed("small", 4, 0);
    assert_eq!(
        select_bit(&mut builder, "bad", small, 0),
        Err(Error::NotEnoughVariables { n_vars: 4 })
    );
    let index = builder.take_witness().unwrap();
    let system = builder.build().unwrap();
    assert_eq!(index.get(bit).unwrap().data[0], 0b0101);
    assert_eq!(system.oracles.oracle(bit).n_vars, 2);
    match &system.oracles.oracle(bit).variant {
        binius_circuits::oracle::OracleVariant::Projected { inner, values, variant } => {
            assert_eq!(*inner, x);
            assert_eq!(values, &vec![1u128, 1, 0, 0, 0]);
            assert_eq!(*variant, binius_circuits::oracle::ProjectionVariant::FirstVars);
        }
        other => panic!("unexpected variant {:?}", other),
    }
}

#[test]
fn packed_keeps_the_bytes_of_its_input() {
    let xs = [1u32, 2, 3, 4];
    let mut builder = ConstraintSystemBuilder::new_with_witness();
    let x = committed_words(&mut builder, "x", 7, &xs);
    let p = packed(&mut builder, "p", x).unwrap();
    let index = builder.take_witness().unwrap();
    let system = builder.build().unwrap();
    assert_eq!(system.oracles.oracle(p).n_vars, 2);
    assert_eq!(system.oracles.oracle(p).tower_level, 5);
    assert_eq!(index.get(p).unwrap().tower_level, 5);
    assert_eq!(index.get(p).unwrap().log_rows, 2);
    assert_eq!(index.get(p).unwrap().data, u32_rows_to_bytes(&xs));
}

#[test]
fn gadgets_skip_the_witness_for_the_verifier() {
    let mut builder = ConstraintSystemBuilder::new();
    let x = builder.add_committed("x", 7, 0);
    let y = builder.add_committed("y", 7, 0);
    let z = add(&mut builder, "sum", x, y, Flags::Checked).unwrap();
    assert_eq!(z, 4);
    assert!(builder.witness().is_none());
    let system = builder.build().unwrap();
    assert_eq!(system.oracles.size(), 6);
    assert_eq!(system.table_constraints.len(), 3);
}

#[test]
fn add_reports_a_missing_witness() {
    let mut builder = ConstraintSystemBuilder::new_with_witness();
    let x = builder.add_committed("x", 7, 0);
    let y = builder.add_committed("y", 7, 0);
    assert_eq!(
        add(&mut builder, "sum", x, y, Flags::Unchecked),
        Err(Error::Witness(binius_circuits::builder::witness::Error::MissingWitness { id: x }))
    );
    let mut builder = ConstraintSystemBuilder::new();
    let x = builder.add_committed("x", 7, 0);
    let y = builder.add_committed("y", 6, 0);
    assert_eq!(
        add(&mut builder, "sum", x, y, Flags::Unchecked),
        Err(Error::Oracle(binius_circuits::oracle::Error::IncorrectNumberOfVariables {
            expected: 7
        }))
    );
    let mut builder = ConstraintSystemBuilder::new();
    let x = builder.add_committed("x", 4, 0);
    let y = builder.add_committed("y", 4, 0);
    assert_eq!(
        add(&mut builder, "sum", x, y, Flags::Unchecked),
        Err(Error::Oracle(binius_circuits::oracle::Error::InvalidBlockSize { n_vars: 4 }))
    );
}

fn validate_witness(
    system: &binius_circuits::builder::ConstraintSystem,
    index: &MultilinearExtensionIndex,
) {
    for constraint in &system.table_constraints {
        let columns: Vec<Vec<u32>> =
            constraint.oracle_ids.iter().map(|id| column_u32(index, *id)).collect();
        let rows = columns.iter().map(|c| c.len()).min().unwrap();
        for i in 0..rows {
            let vars: Vec<u32> = columns.iter().map(|c| c[i]).collect();
            assert_eq!(eval_bits(&constraint.composition, &vars), 0, "constraint fails at row {i}");
        }
    }
    for id in 0..system.oracles.size() {
        let oracle = system.oracles.oracle(id);
        match &oracle.variant {
            binius_circuits::oracle::OracleVariant::Shifted { inner, offset, block_bits, variant } => {
                assert_eq!(*block_bits, 5);
                let input = column_u32(index, *inner);
                let output = column_u32(index, id);
                for i in 0..output.len() {
                    let expected = match variant {
                        binius_circuits::oracle::ShiftVariant::LogicalLeft => input[i] << offset,
                        binius_circuits::oracle::ShiftVariant::LogicalRight => input[i] >> offset,
                        binius_circuits::oracle::ShiftVariant::CircularLeft => {
                            input[i].rotate_left(*offset as u32)
                        }
                    };
                    assert_eq!(output[i], expected);
                }
            }
            binius_circuits::oracle::OracleVariant::Projected { inner, values, variant } => {
                assert_eq!(*variant, binius_circuits::oracle::ProjectionVariant::FirstVars);
                assert_eq!(values.len(), 5);
                let bit: usize = values.iter().enumerate().map(|(k, v)| (*v as usize) << k).sum();
                let input = column_u32(index, *inner);
                let output = &index.get(id).unwrap().data;
                for i in 0..(1usize << oracle.n_vars) {
                    let expected = (input[i] >> bit) & 1 == 1;
                    assert_eq!((output[i / 8] >> (i % 8)) & 1 == 1, expected);
                }
            }
            binius_circuits::oracle::OracleVariant::Packed { inner, .. } => {
                assert_eq!(index.get(id).unwrap().data, index.get(*inner).unwrap().data);
            }
            binius_circuits::oracle::OracleVariant::LinearCombination { offset, inner } => {
                let mut expected = vec![if *offset == 0 { 0 } else { u32::MAX }; column_u32(index, id).len()];
                for (term, coefficient) in inner {
                    assert_eq!(*coefficient, 1);
                    for (e, v) in expected.iter_mut().zip(column_u32(index, *term)) {
                        *e ^= v;
                    }
                }
                assert_eq!(column_u32(index, id), expected);
            }
            _ => {}
        }
    }
}

fn unconstrained(builder: &mut ConstraintSystemBuilder, name: &str, log_rows: usize) -> usize {
    let mut rng = rand::thread_rng();
    let words: Vec<u32> = (0..(1usize << log_rows.saturating_sub(5)).max(4)).map(|_| rng.gen()).collect();
    committed_words(builder, name, log_rows, &words)
}

#[test]
fn test_mul_const() {
    let mut builder = ConstraintSystemBuilder::new_with_witness();

    let a = builder.add_committed("a", 5, 0);
    if let Some(witness) = builder.witness() {
        let mut column = witness.new_column(a, 5, 0);
        let words = vec![0b01000000_00000000_00000000_00000000u32; column.len() / 4];
        column.fill_u32(&words);
        column.finalize(witness);
    }

    let _c = binius_circuits::arithmetic::u32::mul_const(&mut builder, "mul3", a, 3, Flags::Checked)
        .unwrap();

    let witness = builder.take_witness().unwrap();
    let constraint_system = builder.build().unwrap();
    validate_witness(&constraint_system, &witness);
}

#[test]
fn test_sub() {
    let mut builder = ConstraintSystemBuilder::new_with_witness();

    let a = unconstrained(&mut builder, "a", 7);
    let b = unconstrained(&mut builder, "a", 7);
    let _c = sub(&mut builder, "c", a, b, Flags::Unchecked).unwrap();

    let witness = builder.take_witness().unwrap();
    let constraint_system = builder.build().unwrap();
    validate_witness(&constraint_system, &witness);
}

#[test]
fn mul_const_sums_the_shifted_input() {
    let xs = [1u32, 3, 0x0fff_ffff, 0x1234_5678, 0, 7, 9, 11];
    for value in [2u32, 3, 5, 10, 0x8000_0001, 0xffff_ffff] {
        let mut builder = ConstraintSystemBuilder::new_with_witness();
        let x = committed_words(&mut builder, "x", 8, &xs);
        let product = binius_circuits::arithmetic::u32::mul_const(
            &mut builder,
            "product",
            x,
            value,
            Flags::Unchecked,
        )
        .unwrap();
        let index = builder.take_witness().unwrap();
        let system = builder.build().unwrap();
        let expected: Vec<u32> = xs.iter().map(|v| v.wrapping_mul(value)).collect();
        assert_eq!(column_u32(&index, product), expected);
        validate_witness(&system, &index);
    }
}

#[test]
fn mul_const_names_its_terms_by_their_offset() {
    let mut builder = ConstraintSystemBuilder::new();
    let x = builder.add_committed("x", 8, 0);
    // 10 = 0b1010: the terms are the input moved up by 1 and by 3
    let product =
        binius_circuits::arithmetic::u32::mul_const(&mut builder, "by10", x, 10, Flags::Checked)
            .unwrap();
    let system = builder.build().unwrap();
    let names: Vec<String> =
        (0..system.oracles.size()).map(|id| system.oracles.oracle(id).name.clone()).collect();
    assert_eq!(
        names,
        vec![
            "x",
            "by10::input_shl1",
            "by10::input_shl3",
            "by10::add_shl3::cout",
            "by10::add_shl3::cin",
            "by10::add_shl3::zout",
            "by10::add_shl3::last_cout",
            "by10::bit29",
            "by10::bit30",
            "by10::bit31",
        ]
    );
    assert_eq!(product, 5);
    // sum, carry and overflow of the addition, and one constraint for each checked bit
    assert_eq!(system.table_constraints.len(), 6);
}

#[test]
fn mul_const_by_zero_and_one() {
    let xs = [5u32, 6, 7, 8];
    let mut builder = ConstraintSystemBuilder::new_with_witness();
    let x = committed_words(&mut builder, "x", 7, &xs);
    let one =
        binius_circuits::arithmetic::u32::mul_const(&mut builder, "one", x, 1, Flags::Checked).unwrap();
    assert_eq!(one, x);
    let zero =
        binius_circuits::arithmetic::u32::mul_const(&mut builder, "zero", x, 0, Flags::Checked).unwrap();
    assert_eq!(zero, 1);
    assert_eq!(
        binius_circuits::arithmetic::u32::mul_const(&mut builder, "bad", 9, 0, Flags::Checked),
        Err(Error::Oracle(binius_circuits::oracle::Error::InvalidOracleId(9)))
    );
    let index = builder.take_witness().unwrap();
    let system = builder.build().unwrap();
    assert_eq!(system.oracles.size(), 2);
    assert_eq!(system.oracles.oracle(zero).name, "zero");
    assert_eq!(system.oracles.oracle(zero).n_vars, 7);
    assert_eq!(column_u32(&index, zero), vec![0; 4]);
    assert!(matches!(
        system.oracles.oracle(zero).variant,
        binius_circuits::oracle::OracleVariant::Transparent(
            binius_circuits::oracle::Transparent::Constant { n_vars: 7, value: 0 }
        )
    ));
}

#[test]
fn add3_reduces_three_words_to_two() {
    let xs = [1u32, u32::MAX, 0x8000_0000, 0x1234_5678];
    let ys = [2u32, u32::MAX, 0x4000_0000, 0x9abc_def0];
    let zs = [3u32, u32::MAX, 0x4000_0000, 0x0fed_cba9];
    let mut builder = ConstraintSystemBuilder::new_with_witness();
    let x = committed_words(&mut builder, "x", 7, &xs);
    let y = committed_words(&mut builder, "y", 7, &ys);
    let z = committed_words(&mut builder, "z", 7, &zs);
    let sum = binius_circuits::arithmetic::u32::add3(&mut builder, "sum3", x, y, z, Flags::Unchecked)
        .unwrap();
    assert_eq!(sum, 8);
    let index = builder.take_witness().unwrap();
    let system = builder.build().unwrap();
    for i in 0..4 {
        assert_eq!(column_u32(&index, sum)[i], xs[i].wrapping_add(ys[i]).wrapping_add(zs[i]));
        assert_eq!(column_u32(&index, 3)[i], xs[i] ^ ys[i] ^ zs[i]);
        assert_eq!(column_u32(&index, 4)[i], (xs[i] & ys[i]) | (xs[i] & zs[i]) | (ys[i] & zs[i]));
    }
    assert_eq!(system.oracles.oracle(3).name, "sum3::left");
    assert_eq!(system.oracles.oracle(4).name, "sum3::right");
    assert_eq!(system.oracles.oracle(5).name, "sum3::right_shifted");
    assert_eq!(system.oracles.oracle(6).name, "add3 -> add2::cout");
    assert_eq!(system.oracles.oracle(8).name, "add3 -> add2::zout");
    assert_eq!(system.table_constraints.len(), 4);
    validate_witness(&system, &index);
}

#[test]
fn constant_fills_every_word() {
    let mut builder = ConstraintSystemBuilder::new_with_witness();
    let c = binius_circuits::arithmetic::u32::constant(&mut builder, "k", 3, 0xdead_beef).unwrap();
    assert_eq!(c, 0);
    assert_eq!(
        binius_circuits::arithmetic::u32::constant(&mut builder, "big", usize::MAX, 1),
        Err(Error::Oracle(binius_circuits::oracle::Error::TooManyVariables))
    );
    let index = builder.take_witness().unwrap();
    let system = builder.build().unwrap();
    assert_eq!(system.oracles.size(), 3);
    assert_eq!(system.oracles.oracle(0).name, "k::output");
    assert_eq!(system.oracles.oracle(1).name, "k::output_packed");
    assert_eq!(system.oracles.oracle(2).name, "k::transparent");
    assert_eq!((system.oracles.oracle(0).n_vars, system.oracles.oracle(0).tower_level), (8, 0));
    assert_eq!((system.oracles.oracle(1).n_vars, system.oracles.oracle(1).tower_level), (3, 5));
    assert_eq!((system.oracles.oracle(2).n_vars, system.oracles.oracle(2).tower_level), (3, 5));
    for id in 0..3 {
        assert_eq!(column_u32(&index, id), vec![0xdead_beef; 8]);
    }
    assert_eq!(index.get(0).unwrap().tower_level, 0);
    assert_eq!(index.get(1).unwrap().tower_level, 5);
    assert_eq!(index.get(2).unwrap().tower_level, 5);
    assert_eq!(system.table_constraints[0].oracle_ids, vec![1, 2]);
    validate_witness(&system, &index);
}

#[test]
fn checked_half_asserts_an_even_word() {
    let xs = [2u32, 4, 0xffff_fffe, 0];
    let mut builder = ConstraintSystemBuilder::new_with_witness();
    let x = committed_words(&mut builder, "x", 7, &xs);
    let h = half(&mut builder, "half", x, Flags::Checked).unwrap();
    assert_eq!(h, 2);
    let index = builder.take_witness().unwrap();
    let system = builder.build().unwrap();
    assert_eq!(system.oracles.oracle(1).name, "lsb");
    assert_eq!(system.oracles.oracle(2).name, "half");
    assert_eq!(column_u32(&index, h), vec![1, 2, 0x7fff_ffff, 0]);
    assert_eq!(system.table_constraints[0].oracle_ids, vec![1]);
    validate_witness(&system, &index);
}

#[test]
fn rotation_by_an_offset_and_by_the_rest_of_the_word_is_the_identity() {
    let xs = [0x8000_0001u32, 0xdead_beef, 0x1234_5678, 0];
    for offset in [1usize, 7, 16, 31] {
        let mut builder = ConstraintSystemBuilder::new_with_witness();
        let x = committed_words(&mut builder, "x", 7, &xs);
        let once = shift(&mut builder, "once", x, offset, ShiftVariant::CircularLeft).unwrap();
        let twice = shift(&mut builder, "twice", once, 32 - offset, ShiftVariant::CircularLeft).unwrap();
        let index = builder.take_witness().unwrap();
        let system = builder.build().unwrap();
        assert_eq!(
            column_u32(&index, once),
            xs.iter().map(|v| v.rotate_left(offset as u32)).collect::<Vec<_>>()
        );
        assert_eq!(column_u32(&index, twice), xs.to_vec());
        validate_witness(&system, &index);
    }
}

#[test]
fn logical_shifts_round_trip_only_when_no_bit_is_lost() {
    let xs = [0xffff_ff00u32, 0x0000_0100, 0xffff_ffff, 0x0000_0080];
    let mut builder = ConstraintSystemBuilder::new_with_witness();
    let x = committed_words(&mut builder, "x", 7, &xs);
    let down = shr(&mut builder, "down", x, 8).unwrap();
    let back = shl(&mut builder, "back", down, 8).unwrap();
    let index = builder.take_witness().unwrap();
    let words = column_u32(&index, back);
    assert_eq!(words[0], xs[0]);
    assert_eq!(words[1], xs[1]);
    assert_eq!(words[2], 0xffff_ff00);
    assert_eq!(words[3], 0);
}

#[test]
fn shift_rejects_the_offset_zero() {
    let mut builder = ConstraintSystemBuilder::new();
    let x = builder.add_committed("x", 7, 0);
    assert_eq!(
        shift(&mut builder, "s", x, 0, ShiftVariant::CircularLeft),
        Err(Error::Oracle(binius_circuits::oracle::Error::InvalidShiftOffset {
            block_bits: 5,
            shift_offset: 0
        }))
    );
}

#[test]
fn a_column_beyond_the_machine_is_reported() {
    let mut builder = ConstraintSystemBuilder::new_with_witness();
    let x = builder.add_committed("x", 200, 0);
    builder.witness().unwrap().set_data(x, 7, 0, vec![0; 16]).unwrap();
    assert_eq!(
        shl(&mut builder, "s", x, 1),
        Err(Error::ColumnTooLarge { log_rows: 200, tower_level: 0 })
    );
}
