use binius_circuits::field::aes::{mul_scalar, PackedAESBinaryField32x8b};
use binius_circuits::field::byte_sliced::{mul_alpha, mul_main, BASE_ALPHA};

type Packed = PackedAESBinaryField32x8b;

fn gf256(a: u8, b: u8) -> u8 {
    let mut acc: u16 = 0;
    for k in 0..8 {
        if (b >> k) & 1 == 1 {
            acc ^= (a as u16) << k;
        }
    }
    for k in (8..16).rev() {
        if (acc >> k) & 1 == 1 {
            acc ^= 0x11b << (k - 8);
        }
    }
    acc as u8
}

fn xor(a: &[u8], b: &[u8]) -> Vec<u8> {
    a.iter().zip(b.iter()).map(|(x, y)| x ^ y).collect()
}

fn ref_mul_alpha(a: &[u8], alpha: u8) -> Vec<u8> {
    if a.len() == 1 {
        return vec![gf256(a[0], alpha)];
    }
    let h = a.len() / 2;
    let mut out = a[h..].to_vec();
    out.extend(xor(&a[..h], &ref_mul_alpha(&a[h..], alpha)));
    out
}

fn ref_mul(a: &[u8], b: &[u8], alpha: u8) -> Vec<u8> {
    if a.len() == 1 {
        return vec![gf256(a[0], b[0])];
    }
    let h = a.len() / 2;
    let z0 = ref_mul(&a[..h], &b[..h], alpha);
    let z2 = ref_mul(&a[h..], &b[h..], alpha);
    let cross = xor(&ref_mul(&a[h..], &b[..h], alpha), &ref_mul(&a[..h], &b[h..], alpha));
    let mut out = xor(&z0, &z2);
    out.extend(xor(&cross, &ref_mul_alpha(&z2, alpha)));
    out
}

fn sample(width: usize, seed: u32) -> Vec<Packed> {
    let mut state = seed;
    (0..width)
        .map(|_| {
            let mut lanes = [0u8; 32];
            for lane in lanes.iter_mut() {
                state = state.wrapping_mul(1664525).wrapping_add(1013904223);
                *lane = (state >> 24) as u8;
            }
            Packed::from_scalars(lanes)
        })
        .collect()
}

fn lane_of(data: &[Packed], j: usize) -> Vec<u8> {
    data.iter().map(|p| p.lanes[j]).collect()
}

#[test]
fn aes_scalar_product_known_values() {
    assert_eq!(mul_scalar(0x57, 0x83), 0xc1);
    assert_eq!(mul_scalar(0x57, 0x13), 0xfe);
    assert_eq!(mul_scalar(0x02, 0x80), 0x1b);
    assert_eq!(mul_scalar(0x53, 0xca), 0x01);
    assert_eq!(mul_scalar(0, 0xff), 0);
    assert_eq!(mul_scalar(1, 0xab), 0xab);
}

#[test]
fn aes_scalar_product_matches_polynomial_reduction() {
    for a in 0..=255u8 {
        for b in 0..=255u8 {
            assert_eq!(mul_scalar(a, b), gf256(a, b));
        }
    }
}

#[test]
fn packed_operations_act_lane_by_lane() {
    let a = sample(1, 1)[0];
    let b = sample(1, 2)[0];
    let s = a.plus(&b);
    let p = a.times(&b);
    for j in 0..32 {
        assert_eq!(s.lanes[j], a.lanes[j] ^ b.lanes[j]);
        assert_eq!(p.lanes[j], gf256(a.lanes[j], b.lanes[j]));
    }
    assert_eq!(Packed::zero().lanes, [0u8; 32]);
    assert_eq!(Packed::broadcast(7).lanes, [7u8; 32]);
}

#[test]
fn generator_squared_at_width_two() {
    // X * X = 1 + alpha * X
    let mut x = vec![Packed::zero(), Packed::broadcast(1)];
    let y = x.clone();
    let mut dest = vec![Packed::broadcast(0xee), Packed::broadcast(0xee)];
    binius_circuits::field::byte_sliced::mul(&x, &y, &mut dest);
    assert_eq!(dest[0].lanes, [1u8; 32]);
    assert_eq!(dest[1].lanes, [BASE_ALPHA; 32]);
    x[0] = Packed::broadcast(1);
    x[1] = Packed::zero();
    binius_circuits::field::byte_sliced::mul(&x, &y, &mut dest);
    assert_eq!(dest[0].lanes, [0u8; 32]);
    assert_eq!(dest[1].lanes, [1u8; 32]);
}

#[test]
fn mul_matches_schoolbook_product_at_every_width() {
    for (k, width) in [1usize, 2, 4, 8, 16].into_iter().enumerate() {
        let a = sample(width, 10 + k as u32);
        let b = sample(width, 20 + k as u32);
        let mut dest = sample(width, 30 + k as u32);
        binius_circuits::field::byte_sliced::mul(&a, &b, &mut dest);
        for j in 0..32 {
            assert_eq!(lane_of(&dest, j), ref_mul(&lane_of(&a, j), &lane_of(&b, j), BASE_ALPHA));
        }
    }
}

#[test]
fn mul_main_accumulates_when_not_writing_to_zeros() {
    for width in [1usize, 2, 4, 8] {
        let a = sample(width, 5);
        let b = sample(width, 6);
        let before = sample(width, 7);
        let alpha = sample(1, 8)[0];
        let mut dest = before.clone();
        mul_main::<false>(&a, &b, &mut dest, alpha);
        let mut fresh = before.clone();
        mul_main::<true>(&a, &b, &mut fresh, alpha);
        for j in 0..32 {
            let product = ref_mul(&lane_of(&a, j), &lane_of(&b, j), alpha.lanes[j]);
            assert_eq!(lane_of(&fresh, j), product);
            assert_eq!(lane_of(&dest, j), xor(&lane_of(&before, j), &product));
        }
    }
}

#[test]
fn mul_alpha_multiplies_by_the_level_generator() {
    for width in [1usize, 2, 4, 8, 16] {
        let a = sample(width, 40);
        let before = sample(width, 41);
        let alpha = Packed::broadcast(BASE_ALPHA);
        let mut fresh = before.clone();
        mul_alpha::<true>(&a, &mut fresh, alpha);
        let mut dest = before.clone();
        mul_alpha::<false>(&a, &mut dest, alpha);
        // the generator of a level of width >= 2 is the element (0, 1)
        let mut generator = vec![Packed::zero(); width];
        if width == 1 {
            generator[0] = alpha;
        } else {
            generator[width / 2] = Packed::broadcast(1);
        }
        let mut product = vec![Packed::zero(); width];
        binius_circuits::field::byte_sliced::mul(&a, &generator, &mut product);
        for j in 0..32 {
            assert_eq!(lane_of(&fresh, j), ref_mul_alpha(&lane_of(&a, j), BASE_ALPHA));
            assert_eq!(lane_of(&fresh, j), lane_of(&product, j));
            assert_eq!(lane_of(&dest, j), xor(&lane_of(&before, j), &lane_of(&fresh, j)));
        }
    }
}
