//! The field GF(2^8) in the AES basis, and 32 of its elements packed side by side.

use vstd::prelude::*;

verus! {

/// Number of field elements held by one packed value.
pub const PACKED_LANES: usize = 32;

/// The product of `a` and the indeterminate, reduced modulo
/// `x^8 + x^4 + x^3 + x + 1`.
pub open spec fn aes_double(a: u8) -> u8 {
    if a & 0x80 == 0 {
        a << 1
    } else {
        (a << 1) ^ 0x1b
    }
}

/// `v` when bit `k` of `b` is set, zero otherwise.
pub open spec fn aes_select(b: u8, k: u8, v: u8) -> u8 {
    if (b >> k) & 1 == 1 {
        v
    } else {
        0
    }
}

/// The sum of those of `a0 .. a7` whose index is a set bit of `b`.
pub open spec fn aes_combine(
    b: u8,
    a0: u8,
    a1: u8,
    a2: u8,
    a3: u8,
    a4: u8,
    a5: u8,
    a6: u8,
    a7: u8,
) -> u8 {
    aes_select(b, 0, a0) ^ aes_select(b, 1, a1) ^ aes_select(b, 2, a2) ^ aes_select(b, 3, a3)
        ^ aes_select(b, 4, a4) ^ aes_select(b, 5, a5) ^ aes_select(b, 6, a6) ^ aes_select(
        b,
        7,
        a7,
    )
}

/// The product of `a` and `b` in GF(2^8): the sum, over the set bits `k` of
/// `b`, of `a` times the `k`-th power of the indeterminate.
pub open spec fn aes_mul(a: u8, b: u8) -> u8 {
    let a1 = aes_double(a);
    let a2 = aes_double(a1);
    let a3 = aes_double(a2);
    let a4 = aes_double(a3);
    let a5 = aes_double(a4);
    let a6 = aes_double(a5);
    let a7 = aes_double(a6);
    aes_combine(b, a, a1, a2, a3, a4, a5, a6, a7)
}

proof fn lemma_double_linear(a: u8, b: u8)
    by (bit_vector)
    ensures
        aes_double(a ^ b) == aes_double(a) ^ aes_double(b),
{
}

proof fn lemma_combine_linear_left(
    c: u8,
    x0: u8,
    x1: u8,
    x2: u8,
    x3: u8,
    x4: u8,
    x5: u8,
    x6: u8,
    x7: u8,
    y0: u8,
    y1: u8,
    y2: u8,
    y3: u8,
    y4: u8,
    y5: u8,
    y6: u8,
    y7: u8,
)
    by (bit_vector)
    ensures
        aes_combine(c, x0 ^ y0, x1 ^ y1, x2 ^ y2, x3 ^ y3, x4 ^ y4, x5 ^ y5, x6 ^ y6, x7 ^ y7)
            == aes_combine(c, x0, x1, x2, x3, x4, x5, x6, x7) ^ aes_combine(
            c,
            y0,
            y1,
            y2,
            y3,
            y4,
            y5,
            y6,
            y7,
        ),
{
}

proof fn lemma_combine_linear_right(
    a: u8,
    b: u8,
    x0: u8,
    x1: u8,
    x2: u8,
    x3: u8,
    x4: u8,
    x5: u8,
    x6: u8,
    x7: u8,
)
    by (bit_vector)
    ensures
        aes_combine(a ^ b, x0, x1, x2, x3, x4, x5, x6, x7) == aes_combine(
            a,
            x0,
            x1,
            x2,
            x3,
            x4,
            x5,
            x6,
            x7,
        ) ^ aes_combine(b, x0, x1, x2, x3, x4, x5, x6, x7),
{
}

/// Multiplication in GF(2^8) distributes over addition in its left argument.
pub proof fn lemma_aes_mul_distributes_left(a: u8, b: u8, c: u8)
    ensures
        aes_mul(a ^ b, c) == aes_mul(a, c) ^ aes_mul(b, c),
{
    let a1 = aes_double(a);
    let a2 = aes_double(a1);
    let a3 = aes_double(a2);
    let a4 = aes_double(a3);
    let a5 = aes_double(a4);
    let a6 = aes_double(a5);
    let a7 = aes_double(a6);
    let b1 = aes_double(b);
    let b2 = aes_double(b1);
    let b3 = aes_double(b2);
    let b4 = aes_double(b3);
    let b5 = aes_double(b4);
    let b6 = aes_double(b5);
    let b7 = aes_double(b6);
    lemma_double_linear(a, b);
    lemma_double_linear(a1, b1);
    lemma_double_linear(a2, b2);
    lemma_double_linear(a3, b3);
    lemma_double_linear(a4, b4);
    lemma_double_linear(a5, b5);
    lemma_double_linear(a6, b6);
    lemma_combine_linear_left(c, a, a1, a2, a3, a4, a5, a6, a7, b, b1, b2, b3, b4, b5, b6, b7);
}

/// Multiplication in GF(2^8) distributes over addition in its right argument.
pub proof fn lemma_aes_mul_distributes_right(c: u8, a: u8, b: u8)
    ensures
        aes_mul(c, a ^ b) == aes_mul(c, a) ^ aes_mul(c, b),
{
    let c1 = aes_double(c);
    let c2 = aes_double(c1);
    let c3 = aes_double(c2);
    let c4 = aes_double(c3);
    let c5 = aes_double(c4);
    let c6 = aes_double(c5);
    let c7 = aes_double(c6);
    lemma_combine_linear_right(a, b, c, c1, c2, c3, c4, c5, c6, c7);
}

fn double(a: u8) -> (r: u8)
    ensures
        r == aes_double(a),
{
    if a & 0x80 == 0 {
        a << 1
    } else {
        (a << 1) ^ 0x1b
    }
}

fn select(b: u8, k: u8, v: u8) -> (r: u8)
    requires
        k < 8,
    ensures
        r == aes_select(b, k, v),
{
    if (b >> k) & 1 == 1 {
        v
    } else {
        0
    }
}

/// Multiplies two elements of GF(2^8).
pub fn mul_scalar(a: u8, b: u8) -> (r: u8)
    ensures
        r == aes_mul(a, b),
{
    let a1 = double(a);
    let a2 = double(a1);
    let a3 = double(a2);
    let a4 = double(a3);
    let a5 = double(a4);
    let a6 = double(a5);
    let a7 = double(a6);
    select(b, 0, a) ^ select(b, 1, a1) ^ select(b, 2, a2) ^ select(b, 3, a3) ^ select(b, 4, a4)
        ^ select(b, 5, a5) ^ select(b, 6, a6) ^ select(b, 7, a7)
}

/// Thirty-two elements of GF(2^8), operated on lane by lane.
#[derive(Clone, Copy, Debug)]
pub struct PackedAESBinaryField32x8b {
    pub lanes: [u8; 32],
}

impl PackedAESBinaryField32x8b {
    /// The element of lane `j`.
    pub open spec fn lane(self, j: int) -> u8 {
        self.lanes[j]
    }

    /// The packed value with every lane zero.
    pub fn zero() -> (r: Self)
        ensures
            forall|j: int| 0 <= j < 32 ==> r.lane(j) == 0,
    {
        PackedAESBinaryField32x8b { lanes: [0u8; 32] }
    }

    /// The packed value with `scalar` in every lane.
    pub fn broadcast(scalar: u8) -> (r: Self)
        ensures
            forall|j: int| 0 <= j < 32 ==> r.lane(j) == scalar,
    {
        PackedAESBinaryField32x8b { lanes: [scalar; 32] }
    }

    /// The packed value holding the given scalars, lane by lane.
    pub fn from_scalars(scalars: [u8; 32]) -> (r: Self)
        ensures
            r.lanes == scalars,
    {
        PackedAESBinaryField32x8b { lanes: scalars }
    }

    /// Lane-wise sum.
    pub fn plus(&self, rhs: &Self) -> (r: Self)
        ensures
            forall|j: int| 0 <= j < 32 ==> r.lane(j) == self.lane(j) ^ rhs.lane(j),
    {
        let mut lanes = [0u8; 32];
        let mut j: usize = 0;
        while j < 32
            invariant
                j <= 32,
                forall|k: int| 0 <= k < j ==> lanes[k] == self.lane(k) ^ rhs.lane(k),
            decreases 32 - j,
        {
            lanes[j] = self.lanes[j] ^ rhs.lanes[j];
            j += 1;
        }
        PackedAESBinaryField32x8b { lanes }
    }

    /// Lane-wise product.
    pub fn times(&self, rhs: &Self) -> (r: Self)
        ensures
            forall|j: int| 0 <= j < 32 ==> r.lane(j) == aes_mul(self.lane(j), rhs.lane(j)),
    {
        let mut lanes = [0u8; 32];
        let mut j: usize = 0;
        while j < 32
            invariant
                j <= 32,
                forall|k: int| 0 <= k < j ==> lanes[k] == aes_mul(self.lane(k), rhs.lane(k)),
            decreases 32 - j,
        {
            lanes[j] = mul_scalar(self.lanes[j], rhs.lanes[j]);
            j += 1;
        }
        PackedAESBinaryField32x8b { lanes }
    }
}

} // verus!
