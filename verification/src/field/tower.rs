//! Elements of the binary tower of fields, held as integers.
//!
//! Level `k` of the tower is the field of `2^(2^k)` elements; its elements
//! are the integers below `2^(2^k)`, and each level contains the levels
//! below it. The top field is level 7, with 128-bit elements.

use vstd::prelude::*;

verus! {

/// The level of the top field of the tower.
pub const TOP_TOWER_LEVEL: usize = 7;

/// What can go wrong when asking for a basis element.
#[derive(Clone, Copy, Debug, PartialEq, Eq, Structural)]
pub enum Error {
    /// The level asked for lies above the top field.
    ExtensionDegreeTooHigh,
    /// The top field has only `max` basis elements over the level asked for.
    IndexOutOfRange { index: usize, max: usize },
}

/// The number of bits of an element of the given level.
pub open spec fn level_bits(level: usize) -> usize {
    if level == 0 {
        1
    } else if level == 1 {
        2
    } else if level == 2 {
        4
    } else if level == 3 {
        8
    } else if level == 4 {
        16
    } else if level == 5 {
        32
    } else if level == 6 {
        64
    } else {
        128
    }
}

/// The lowest level of the tower that contains `x`.
pub open spec fn min_level(x: u128) -> usize {
    if x < 2 {
        0
    } else if x < 4 {
        1
    } else if x < 0x10 {
        2
    } else if x < 0x100 {
        3
    } else if x < 0x1_0000 {
        4
    } else if x < 0x1_0000_0000 {
        5
    } else if x < 0x1_0000_0000_0000_0000 {
        6
    } else {
        7
    }
}

/// The number of bits of an element of the given level.
pub fn bits_of_level(level: usize) -> (r: usize)
    requires
        level <= TOP_TOWER_LEVEL,
    ensures
        r == level_bits(level),
        1 <= r <= 128,
{
    if level == 0 {
        1
    } else if level == 1 {
        2
    } else if level == 2 {
        4
    } else if level == 3 {
        8
    } else if level == 4 {
        16
    } else if level == 5 {
        32
    } else if level == 6 {
        64
    } else {
        128
    }
}

/// The lowest level of the tower that contains `x`.
pub fn min_tower_level(x: u128) -> (r: usize)
    ensures
        r == min_level(x),
        r <= TOP_TOWER_LEVEL,
{
    if x < 2 {
        0
    } else if x < 4 {
        1
    } else if x < 0x10 {
        2
    } else if x < 0x100 {
        3
    } else if x < 0x1_0000 {
        4
    } else if x < 0x1_0000_0000 {
        5
    } else if x < 0x1_0000_0000_0000_0000 {
        6
    } else {
        7
    }
}

/// What `basis` answers: the `i`-th basis element of the top field over
/// level `iota` is the integer with the single bit `i * 2^iota` set.
pub open spec fn basis_spec(iota: usize, i: usize) -> Result<u128, Error> {
    if iota > TOP_TOWER_LEVEL {
        Err(Error::ExtensionDegreeTooHigh)
    } else if i >= 128int / (level_bits(iota) as int) {
        Err(Error::IndexOutOfRange { index: i, max: (128int / (level_bits(iota) as int)) as usize })
    } else {
        Ok(1u128 << ((i * level_bits(iota)) as u128))
    }
}

/// The `i`-th element of the basis of the top field over level `iota`.
pub fn basis(iota: usize, i: usize) -> (r: Result<u128, Error>)
    ensures
        r == basis_spec(iota, i),
{
    if iota > TOP_TOWER_LEVEL {
        return Err(Error::ExtensionDegreeTooHigh);
    }
    let bits: usize = bits_of_level(iota);
    let n_basis_elts: usize = 128 / bits;
    if i >= n_basis_elts {
        return Err(Error::IndexOutOfRange { index: i, max: n_basis_elts });
    }
    assert(i * bits < 128) by (nonlinear_arith)
        requires
            i < 128int / (bits as int),
            1 <= bits <= 128,
    ;
    let shift: u128 = (i * bits) as u128;
    Ok(1u128 << shift)
}

/// The integer whose `2^level` lowest bits are set: the largest element of
/// the given level.
pub open spec fn level_mask(level: usize) -> u128 {
    if level == 0 {
        0x1
    } else if level == 1 {
        0x3
    } else if level == 2 {
        0xf
    } else if level == 3 {
        0xff
    } else if level == 4 {
        0xffff
    } else if level == 5 {
        0xffff_ffff
    } else if level == 6 {
        0xffff_ffff_ffff_ffff
    } else {
        0xffff_ffff_ffff_ffff_ffff_ffff_ffff_ffff
    }
}

/// The largest element of the given level.
pub fn mask_of_level(level: usize) -> (r: u128)
    ensures
        r == level_mask(level),
{
    if level == 0 {
        0x1
    } else if level == 1 {
        0x3
    } else if level == 2 {
        0xf
    } else if level == 3 {
        0xff
    } else if level == 4 {
        0xffff
    } else if level == 5 {
        0xffff_ffff
    } else if level == 6 {
        0xffff_ffff_ffff_ffff
    } else {
        0xffff_ffff_ffff_ffff_ffff_ffff_ffff_ffff
    }
}

/// The low half of an element of level `level`, an element of the level
/// below.
pub open spec fn low_half(a: u128, level: usize) -> u128 {
    a & level_mask((level - 1) as usize)
}

/// The high half of an element of level `level`.
pub open spec fn high_half(a: u128, level: usize) -> u128 {
    (a >> (level_bits((level - 1) as usize) as u128)) & level_mask((level - 1) as usize)
}

/// The element of level `level` with the given halves.
pub open spec fn join_halves(lo: u128, hi: u128, level: usize) -> u128 {
    lo ^ (hi << (level_bits((level - 1) as usize) as u128))
}

/// The product of an element of level `level` and the generator of that
/// level over the level below. An element of level `k + 1` is `lo + hi * X`
/// with `lo` and `hi` of level `k` and `X * X = X * Y + 1`, where `Y` is the
/// generator of level `k`; at level 0 the generator is one.
pub open spec fn tower_mul_generator(a: u128, level: usize) -> u128
    decreases level,
{
    if level == 0 || level > TOP_TOWER_LEVEL {
        a
    } else {
        join_halves(
            high_half(a, level),
            low_half(a, level) ^ tower_mul_generator(high_half(a, level), (level - 1) as usize),
            level,
        )
    }
}

/// The product of two elements of level `level`.
pub open spec fn tower_mul(a: u128, b: u128, level: usize) -> u128
    decreases level,
{
    if level == 0 || level > TOP_TOWER_LEVEL {
        a & b & 1
    } else {
        let below = (level - 1) as usize;
        let z0 = tower_mul(low_half(a, level), low_half(b, level), below);
        let z2 = tower_mul(high_half(a, level), high_half(b, level), below);
        let z1 = tower_mul(low_half(a, level), high_half(b, level), below) ^ tower_mul(
            high_half(a, level),
            low_half(b, level),
            below,
        );
        join_halves(z0 ^ z2, z1 ^ tower_mul_generator(z2, below), level)
    }
}

/// Multiplies an element of level `level` by the generator of that level.
pub fn multiply_by_level_generator(a: u128, level: usize) -> (r: u128)
    requires
        level <= TOP_TOWER_LEVEL,
    ensures
        r == tower_mul_generator(a, level),
    decreases level,
{
    if level == 0 {
        a
    } else {
        let shift: u128 = bits_of_level(level - 1) as u128;
        let mask: u128 = mask_of_level(level - 1);
        let lo: u128 = a & mask;
        let hi: u128 = (a >> shift) & mask;
        hi ^ ((lo ^ multiply_by_level_generator(hi, level - 1)) << shift)
    }
}

/// Multiplies two elements of level `level`.
pub fn multiply(a: u128, b: u128, level: usize) -> (r: u128)
    requires
        level <= TOP_TOWER_LEVEL,
    ensures
        r == tower_mul(a, b, level),
    decreases level,
{
    if level == 0 {
        a & b & 1
    } else {
        let shift: u128 = bits_of_level(level - 1) as u128;
        let mask: u128 = mask_of_level(level - 1);
        let a0: u128 = a & mask;
        let a1: u128 = (a >> shift) & mask;
        let b0: u128 = b & mask;
        let b1: u128 = (b >> shift) & mask;
        let z0: u128 = multiply(a0, b0, level - 1);
        let z2: u128 = multiply(a1, b1, level - 1);
        let z1: u128 = multiply(a0, b1, level - 1) ^ multiply(a1, b0, level - 1);
        (z0 ^ z2) ^ ((z1 ^ multiply_by_level_generator(z2, level - 1)) << shift)
    }
}

/// The level of the 64-bit field.
pub const LOG_BITS_64: usize = 6;

/// A generator of the multiplicative group of the 64-bit field.
pub const MULTIPLICATIVE_GENERATOR_64: u64 = 0x070F870DCD9C1D88;

/// The `n`-th power of the generator of the multiplicative group of the
/// 64-bit field.
pub open spec fn generator_power(n: nat) -> u64
    decreases n,
{
    if n == 0 {
        1
    } else {
        tower_mul(
            generator_power((n - 1) as nat) as u128,
            MULTIPLICATIVE_GENERATOR_64 as u128,
            LOG_BITS_64,
        ) as u64
    }
}

/// The product of two elements of a level below the top has no bits above
/// that level.
pub proof fn lemma_tower_mul_fits(a: u128, b: u128, level: usize)
    requires
        level <= TOP_TOWER_LEVEL,
    ensures
        tower_mul(a, b, level) <= level_mask(level),
        tower_mul_generator(a & level_mask(level), level) <= level_mask(level),
    decreases level,
{
    if level == 0 {
        assert(a & b & 1 <= 1) by (bit_vector);
        assert(a & 1 <= 1) by (bit_vector);
    } else {
        let below = (level - 1) as usize;
        let m = level_mask(below);
        let h = level_bits(below) as u128;
        lemma_tower_mul_fits(low_half(a, level), low_half(b, level), below);
        lemma_tower_mul_fits(high_half(a, level), high_half(b, level), below);
        lemma_tower_mul_fits(low_half(a, level), high_half(b, level), below);
        lemma_tower_mul_fits(high_half(a, level), low_half(b, level), below);
        let z0 = tower_mul(low_half(a, level), low_half(b, level), below);
        let z2 = tower_mul(high_half(a, level), high_half(b, level), below);
        let x = tower_mul(low_half(a, level), high_half(b, level), below);
        let y = tower_mul(high_half(a, level), low_half(b, level), below);
        lemma_tower_mul_fits(z2, z2, below);
        let g = tower_mul_generator(z2, below);
        assert(z2 & m == z2) by (bit_vector)
            requires
                z2 <= m,
                m == 0x1 || m == 0x3 || m == 0xf || m == 0xff || m == 0xffff || m == 0xffff_ffff || m
                    == 0xffff_ffff_ffff_ffff,
        ;
        lemma_join_fits(z0 ^ z2, (x ^ y) ^ g, level, z0, z2, x, y, g);
        let aa = a & level_mask(level);
        let lo = low_half(aa, level);
        let hi = high_half(aa, level);
        lemma_tower_mul_fits(hi, hi, below);
        let gh = tower_mul_generator(hi & m, below);
        assert(hi & m == hi && lo <= m && hi <= m && hi ^ 0 == hi && (lo ^ gh) ^ 0 == lo ^ gh)
            by (bit_vector)
            requires
                lo == aa & m,
                hi == (aa >> h) & m,
        ;
        lemma_join_fits(hi, lo ^ gh, level, hi, 0, lo, gh, 0);
    }
}

proof fn lemma_join_fits(lo: u128, hi: u128, level: usize, p: u128, q: u128, r: u128, s: u128, t: u128)
    requires
        0 < level <= TOP_TOWER_LEVEL,
        p <= level_mask((level - 1) as usize),
        q <= level_mask((level - 1) as usize),
        r <= level_mask((level - 1) as usize),
        s <= level_mask((level - 1) as usize),
        t <= level_mask((level - 1) as usize),
        lo == p ^ q,
        hi == (r ^ s) ^ t,
    ensures
        join_halves(lo, hi, level) <= level_mask(level),
{
    let m = level_mask((level - 1) as usize);
    let h = level_bits((level - 1) as usize) as u128;
    let mm = level_mask(level);
    assert((p ^ q) ^ (((r ^ s) ^ t) << h) <= mm) by (bit_vector)
        requires
            p <= m,
            q <= m,
            r <= m,
            s <= m,
            t <= m,
            (m == 0x1 && h == 1 && mm == 0x3) || (m == 0x3 && h == 2 && mm == 0xf) || (m == 0xf && h
                == 4 && mm == 0xff) || (m == 0xff && h == 8 && mm == 0xffff) || (m == 0xffff && h
                == 16 && mm == 0xffff_ffff) || (m == 0xffff_ffff && h == 32 && mm
                == 0xffff_ffff_ffff_ffff) || (m == 0xffff_ffff_ffff_ffff && h == 64 && mm
                == 0xffff_ffff_ffff_ffff_ffff_ffff_ffff_ffff),
    ;
}

/// Multiplies an element of the 64-bit field by the generator of its
/// multiplicative group.
pub fn multiply_by_generator_64(a: u64) -> (r: u64)
    ensures
        r == tower_mul(a as u128, MULTIPLICATIVE_GENERATOR_64 as u128, LOG_BITS_64) as u64,
        r as u128 == tower_mul(a as u128, MULTIPLICATIVE_GENERATOR_64 as u128, LOG_BITS_64),
{
    proof {
        lemma_tower_mul_fits(a as u128, MULTIPLICATIVE_GENERATOR_64 as u128, LOG_BITS_64);
    }
    multiply(a as u128, MULTIPLICATIVE_GENERATOR_64 as u128, LOG_BITS_64) as u64
}

/// Whether `m` and `h` are the mask and the number of bits of one level
/// below the top.
pub open spec fn is_half(m: u128, h: u128) -> bool {
    (m == 0x1 && h == 1) || (m == 0x3 && h == 2) || (m == 0xf && h == 4) || (m == 0xff && h == 8) || (
    m == 0xffff && h == 16) || (m == 0xffff_ffff && h == 32) || (m == 0xffff_ffff_ffff_ffff && h
        == 64)
}

proof fn lemma_halves_additive(a: u128, b: u128, m: u128, h: u128)
    by (bit_vector)
    requires
        is_half(m, h),
    ensures
        (a ^ b) & m == (a & m) ^ (b & m),
        ((a ^ b) >> h) & m == ((a >> h) & m) ^ ((b >> h) & m),
        (a ^ b) & a & 1 == (a ^ b) & a & 1,
{
}

proof fn lemma_base_additive(a: u128, b: u128, c: u128)
    by (bit_vector)
    ensures
        (a ^ b) & c & 1 == (a & c & 1) ^ (b & c & 1),
        0u128 & c & 1 == 0,
        a ^ a == 0,
        a ^ 0 == a,
{
}

proof fn lemma_xor_regroup(
    z0a: u128,
    z0b: u128,
    z2a: u128,
    z2b: u128,
    xa: u128,
    xb: u128,
    ya: u128,
    yb: u128,
    ga: u128,
    gb: u128,
)
    by (bit_vector)
    ensures
        (z0a ^ z0b) ^ (z2a ^ z2b) == (z0a ^ z2a) ^ (z0b ^ z2b),
        ((xa ^ xb) ^ (ya ^ yb)) ^ (ga ^ gb) == ((xa ^ ya) ^ ga) ^ ((xb ^ yb) ^ gb),
        (xa ^ xb) ^ (ga ^ gb) == (xa ^ ga) ^ (xb ^ gb),
{
}

proof fn lemma_join_xor(h: u128, lo_a: u128, lo_b: u128, hi_a: u128, hi_b: u128)
    by (bit_vector)
    requires
        h == 1 || h == 2 || h == 4 || h == 8 || h == 16 || h == 32 || h == 64,
    ensures
        (lo_a ^ lo_b) ^ ((hi_a ^ hi_b) << h) == (lo_a ^ (hi_a << h)) ^ (lo_b ^ (hi_b << h)),
{
}

/// Multiplication by the generator of a level is additive.
pub proof fn lemma_tower_mul_generator_additive(a: u128, b: u128, level: usize)
    requires
        level <= TOP_TOWER_LEVEL,
    ensures
        tower_mul_generator(a ^ b, level) == tower_mul_generator(a, level) ^ tower_mul_generator(
            b,
            level,
        ),
    decreases level,
{
    if level > 0 {
        let below = (level - 1) as usize;
        let m = level_mask(below);
        let h = level_bits(below) as u128;
        lemma_halves_additive(a, b, m, h);
        lemma_tower_mul_generator_additive(high_half(a, level), high_half(b, level), below);
        let ga = tower_mul_generator(high_half(a, level), below);
        let gb = tower_mul_generator(high_half(b, level), below);
        lemma_xor_regroup(0, 0, 0, 0, low_half(a, level), low_half(b, level), 0, 0, ga, gb);
        lemma_join_xor(
            h,
            high_half(a, level),
            high_half(b, level),
            low_half(a, level) ^ ga,
            low_half(b, level) ^ gb,
        );
    }
}

/// Multiplication is additive in its left factor.
pub proof fn lemma_tower_mul_additive(a: u128, b: u128, c: u128, level: usize)
    requires
        level <= TOP_TOWER_LEVEL,
    ensures
        tower_mul(a ^ b, c, level) == tower_mul(a, c, level) ^ tower_mul(b, c, level),
    decreases level,
{
    if level == 0 {
        lemma_base_additive(a, b, c);
    } else {
        let below = (level - 1) as usize;
        let m = level_mask(below);
        let h = level_bits(below) as u128;
        lemma_halves_additive(a, b, m, h);
        let (a0, a1) = (low_half(a, level), high_half(a, level));
        let (b0, b1) = (low_half(b, level), high_half(b, level));
        let (c0, c1) = (low_half(c, level), high_half(c, level));
        lemma_tower_mul_additive(a0, b0, c0, below);
        lemma_tower_mul_additive(a1, b1, c1, below);
        lemma_tower_mul_additive(a0, b0, c1, below);
        lemma_tower_mul_additive(a1, b1, c0, below);
        let z2a = tower_mul(a1, c1, below);
        let z2b = tower_mul(b1, c1, below);
        lemma_tower_mul_generator_additive(z2a, z2b, below);
        let z0a = tower_mul(a0, c0, below);
        let z0b = tower_mul(b0, c0, below);
        let xa = tower_mul(a0, c1, below);
        let xb = tower_mul(b0, c1, below);
        let ya = tower_mul(a1, c0, below);
        let yb = tower_mul(b1, c0, below);
        let ga = tower_mul_generator(z2a, below);
        let gb = tower_mul_generator(z2b, below);
        lemma_xor_regroup(z0a, z0b, z2a, z2b, xa, xb, ya, yb, ga, gb);
        lemma_join_xor(h, z0a ^ z2a, z0b ^ z2b, (xa ^ ya) ^ ga, (xb ^ yb) ^ gb);
    }
}

/// The product of zero and any element is zero.
pub proof fn lemma_tower_mul_zero(c: u128, level: usize)
    requires
        level <= TOP_TOWER_LEVEL,
    ensures
        tower_mul(0, c, level) == 0,
{
    lemma_tower_mul_additive(0, 0, c, level);
    lemma_base_additive(tower_mul(0, c, level), 0, 0);
    lemma_base_additive(0, 0, 0);
}

/// The `k` lowest bits of `a`.
pub open spec fn low_bits(a: u64, k: nat) -> u64 {
    if k >= 64 {
        a
    } else {
        a & (((1u64 << (k as u64)) - 1) as u64)
    }
}

proof fn lemma_low_bits_step(a: u64, k: u64)
    by (bit_vector)
    requires
        k < 64,
    ensures
        a & (((1u64 << 0u64) - 1) as u64) == 0,
        (a >> k) & 1 == 1 ==> (if k == 63 {
            a
        } else {
            a & (((1u64 << ((k + 1) as u64)) - 1) as u64)
        }) == (a & (((1u64 << k) - 1) as u64)) ^ (1u64 << k),
        (a >> k) & 1 != 1 ==> (if k == 63 {
            a
        } else {
            a & (((1u64 << ((k + 1) as u64)) - 1) as u64)
        }) == (a & (((1u64 << k) - 1) as u64)),
{
}

/// The products of the generator of the multiplicative group of the 64-bit
/// field and each power of two. A product by the generator is the sum of
/// the entries of the set bits of the other factor.
pub struct GeneratorTable {
    entries: Vec<u64>,
}

impl GeneratorTable {
    /// Entry `i` is the product of the generator and `2^i`.
    pub closed spec fn wf(&self) -> bool {
        &&& self.entries@.len() == 64
        &&& forall|i: int|
            0 <= i < 64 ==> (#[trigger] self.entries@[i]) as u128 == tower_mul(
                (1u64 << (i as u64)) as u128,
                MULTIPLICATIVE_GENERATOR_64 as u128,
                LOG_BITS_64,
            )
    }

    /// Computes the table.
    pub fn new() -> (r: Self)
        ensures
            r.wf(),
    {
        let mut entries: Vec<u64> = Vec::new();
        let mut i: u64 = 0;
        while i < 64
            invariant
                i <= 64,
                entries@.len() == i,
                forall|j: int|
                    0 <= j < i ==> (#[trigger] entries@[j]) as u128 == tower_mul(
                        (1u64 << (j as u64)) as u128,
                        MULTIPLICATIVE_GENERATOR_64 as u128,
                        LOG_BITS_64,
                    ),
            decreases 64 - i,
        {
            entries.push(multiply_by_generator_64(1u64 << i));
            i += 1;
        }
        GeneratorTable { entries }
    }

    /// Multiplies an element of the 64-bit field by the generator of its
    /// multiplicative group.
    pub fn multiply(&self, a: u64) -> (r: u64)
        requires
            self.wf(),
        ensures
            r as u128 == tower_mul(a as u128, MULTIPLICATIVE_GENERATOR_64 as u128, LOG_BITS_64),
            r == tower_mul(a as u128, MULTIPLICATIVE_GENERATOR_64 as u128, LOG_BITS_64) as u64,
    {
        let ghost g = MULTIPLICATIVE_GENERATOR_64 as u128;
        let mut acc: u64 = 0;
        let mut k: u64 = 0;
        proof {
            lemma_low_bits_step(a, 0);
            lemma_tower_mul_zero(g, LOG_BITS_64);
        }
        while k < 64
            invariant
                k <= 64,
                self.wf(),
                g == MULTIPLICATIVE_GENERATOR_64 as u128,
                acc as u128 == tower_mul(low_bits(a, k as nat) as u128, g, LOG_BITS_64),
            decreases 64 - k,
        {
            proof {
                lemma_low_bits_step(a, k);
                lemma_tower_mul_additive(
                    low_bits(a, k as nat) as u128,
                    (1u64 << k) as u128,
                    g,
                    LOG_BITS_64,
                );
                assert(self.entries@[k as int] as u128 == tower_mul(
                    (1u64 << k) as u128,
                    g,
                    LOG_BITS_64,
                ));
            }
            if (a >> k) & 1 == 1 {
                let e: u64 = self.entries[k as usize];
                proof {
                    assert((low_bits(a, k as nat) ^ (1u64 << k)) as u128 == (low_bits(
                        a,
                        k as nat,
                    ) as u128) ^ ((1u64 << k) as u128));
                    assert((acc ^ e) as u128 == (acc as u128) ^ (e as u128));
                }
                acc = acc ^ e;
            }
            k += 1;
        }
        acc
    }
}

} // verus!
