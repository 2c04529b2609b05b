use binius_circuits::field::tower::{
    basis, min_tower_level, multiply, multiply_by_generator_64, multiply_by_level_generator, Error,
    MULTIPLICATIVE_GENERATOR_64,
};

fn pow64(base: u64, mut e: u64) -> u64 {
    let mut acc: u128 = 1;
    let mut b: u128 = base as u128;
    while e > 0 {
        if e & 1 == 1 {
            acc = multiply(acc, b, 6);
        }
        b = multiply(b, b, 6);
        e >>= 1;
    }
    acc as u64
}

#[test]
fn products_in_the_field_of_four_elements() {
    // the generator X satisfies X * X = X + 1
    assert_eq!(multiply(2, 2, 1), 3);
    assert_eq!(multiply(2, 3, 1), 1);
    assert_eq!(multiply(3, 3, 1), 2);
    assert_eq!(multiply(1, 3, 1), 3);
    assert_eq!(multiply(0, 3, 1), 0);
    assert_eq!(multiply(1, 1, 0), 1);
    assert_eq!(multiply(1, 0, 0), 0);
}

#[test]
fn products_in_the_field_of_sixteen_elements() {
    // level 2: Y * Y = Y * X + 1, with Y = 4 and X = 2
    assert_eq!(multiply(4, 4, 2), 9);
    assert_eq!(multiply(4, 2, 2), 8);
    assert_eq!(multiply_by_level_generator(4, 2), 9);
    assert_eq!(multiply_by_level_generator(1, 2), 4);
    for a in 1..16u128 {
        let mut seen = [false; 16];
        for b in 0..16u128 {
            let p = multiply(a, b, 2);
            assert!(p < 16);
            assert!(!seen[p as usize]);
            seen[p as usize] = true;
        }
    }
}

#[test]
fn product_is_commutative_associative_and_distributive() {
    let samples = [
        0u128,
        1,
        2,
        0xdead_beef,
        0x0123_4567_89ab_cdef,
        0xffff_ffff_ffff_ffff,
        0x070F870DCD9C1D88,
    ];
    for level in [3usize, 5, 6] {
        let mask = if level == 6 { u64::MAX as u128 } else { (1u128 << (1 << level)) - 1 };
        for a in samples {
            for b in samples {
                for c in samples {
                    let (a, b, c) = (a & mask, b & mask, c & mask);
                    assert_eq!(multiply(a, b, level), multiply(b, a, level));
                    assert_eq!(
                        multiply(multiply(a, b, level), c, level),
                        multiply(a, multiply(b, c, level), level)
                    );
                    assert_eq!(
                        multiply(a ^ b, c, level),
                        multiply(a, c, level) ^ multiply(b, c, level)
                    );
                }
            }
        }
    }
}

#[test]
fn subfield_products_agree_across_levels() {
    for a in [0u128, 1, 0x35, 0xff, 0x80] {
        for b in [0u128, 1, 0x9c, 0xff, 0x02] {
            let p = multiply(a, b, 3);
            assert_eq!(multiply(a, b, 4), p);
            assert_eq!(multiply(a, b, 6), p);
            assert_eq!(multiply(a, b, 7), p);
        }
    }
}

#[test]
fn generator_of_the_64_bit_field_has_full_order() {
    let g = MULTIPLICATIVE_GENERATOR_64;
    let order = u64::MAX;
    assert_eq!(pow64(g, order), 1);
    for p in [3u64, 5, 17, 257, 641, 65537, 6700417] {
        assert_ne!(pow64(g, order / p), 1);
    }
    assert_eq!(multiply_by_generator_64(1), g);
    assert_eq!(multiply_by_generator_64(0), 0);
    assert_eq!(multiply_by_generator_64(g), pow64(g, 2));
    assert_eq!(multiply_by_generator_64(0x1234_5678_9abc_def0) as u128, multiply(0x1234_5678_9abc_def0, g as u128, 6));
}

#[test]
fn min_tower_level_is_the_lowest_level_holding_the_value() {
    assert_eq!(min_tower_level(0), 0);
    assert_eq!(min_tower_level(1), 0);
    assert_eq!(min_tower_level(2), 1);
    assert_eq!(min_tower_level(3), 1);
    assert_eq!(min_tower_level(4), 2);
    assert_eq!(min_tower_level(15), 2);
    assert_eq!(min_tower_level(16), 3);
    assert_eq!(min_tower_level(255), 3);
    assert_eq!(min_tower_level(256), 4);
    assert_eq!(min_tower_level(0xffff), 4);
    assert_eq!(min_tower_level(0x1_0000), 5);
    assert_eq!(min_tower_level(0xffff_ffff), 5);
    assert_eq!(min_tower_level(0x1_0000_0000), 6);
    assert_eq!(min_tower_level(u64::MAX as u128), 6);
    assert_eq!(min_tower_level(u64::MAX as u128 + 1), 7);
    assert_eq!(min_tower_level(u128::MAX), 7);
}

#[test]
fn basis_elements_are_single_bits() {
    assert_eq!(basis(0, 25), Ok(1 << 25));
    assert_eq!(basis(0, 24), Ok(1 << 24));
    assert_eq!(basis(3, 2), Ok(1 << 16));
    assert_eq!(basis(3, 1), Ok(1 << 8));
    assert_eq!(basis(3, 0), Ok(1));
    assert_eq!(basis(7, 0), Ok(1));
    assert_eq!(basis(0, 127), Ok(1 << 127));
    assert_eq!(basis(8, 0), Err(Error::ExtensionDegreeTooHigh));
    assert_eq!(basis(7, 1), Err(Error::IndexOutOfRange { index: 1, max: 1 }));
    assert_eq!(basis(3, 16), Err(Error::IndexOutOfRange { index: 16, max: 16 }));
    assert_eq!(basis(0, 128), Err(Error::IndexOutOfRange { index: 128, max: 128 }));
}
