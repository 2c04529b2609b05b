//! Multiplication of byte-sliced tower field elements.
//!
//! A byte-sliced value of width `w` is a slice of `w` packed values: entry `i`
//! holds byte `i` of each of the 32 field elements. An element of width `2w`
//! is a pair `lo + hi * X` of elements of width `w`, with
//! `X^2 = X * alpha + 1`, where `alpha` is the generator of the level below
//! (at width 1, a given base constant).

use crate::field::aes::{
    aes_mul, lemma_aes_mul_distributes_left, lemma_aes_mul_distributes_right,
    PackedAESBinaryField32x8b,
};
use vstd::prelude::*;

verus! {

/// The base constant of the tower built on the AES field.
pub const BASE_ALPHA: u8 = 0xd3;

/// The widths a byte-sliced value may have: the powers of two.
pub open spec fn is_tower_width(n: nat) -> bool
    decreases n,
{
    n == 1 || (n >= 2 && n % 2 == 0 && is_tower_width(n / 2))
}

/// The low half of an element.
pub open spec fn lower_half(a: Seq<u8>) -> Seq<u8> {
    a.subrange(0, (a.len() / 2) as int)
}

/// The high half of an element.
pub open spec fn upper_half(a: Seq<u8>) -> Seq<u8> {
    a.subrange((a.len() / 2) as int, a.len() as int)
}

/// The sum of two elements: addition in characteristic two, byte by byte.
pub open spec fn tower_add(a: Seq<u8>, b: Seq<u8>) -> Seq<u8> {
    Seq::new(a.len(), |i: int| a[i] ^ b[i])
}

/// The product of an element and the generator of its level.
pub open spec fn tower_mul_alpha(a: Seq<u8>, base_alpha: u8) -> Seq<u8>
    decreases a.len(),
{
    if a.len() <= 1 {
        Seq::new(a.len(), |i: int| aes_mul(a[i], base_alpha))
    } else {
        upper_half(a) + tower_add(lower_half(a), tower_mul_alpha(upper_half(a), base_alpha))
    }
}

/// The product of two elements of one level.
pub open spec fn tower_mul(a: Seq<u8>, b: Seq<u8>, base_alpha: u8) -> Seq<u8>
    decreases a.len(),
{
    if a.len() <= 1 {
        Seq::new(a.len(), |i: int| aes_mul(a[i], b[i]))
    } else {
        let z0 = tower_mul(lower_half(a), lower_half(b), base_alpha);
        let z2 = tower_mul(upper_half(a), upper_half(b), base_alpha);
        let cross = tower_add(
            tower_mul(upper_half(a), lower_half(b), base_alpha),
            tower_mul(lower_half(a), upper_half(b), base_alpha),
        );
        tower_add(z0, z2) + tower_add(cross, tower_mul_alpha(z2, base_alpha))
    }
}

/// The element that lane `j` of a byte-sliced value holds.
pub open spec fn lane(data: Seq<PackedAESBinaryField32x8b>, j: int) -> Seq<u8> {
    Seq::new(data.len(), |i: int| data[i].lane(j))
}

/// A product has the width of its left factor.
pub proof fn lemma_tower_mul_len(a: Seq<u8>, b: Seq<u8>, base_alpha: u8)
    ensures
        tower_mul_alpha(a, base_alpha).len() == a.len(),
        tower_mul(a, b, base_alpha).len() == a.len(),
    decreases a.len(),
{
    if a.len() > 1 {
        lemma_tower_mul_len(upper_half(a), upper_half(b), base_alpha);
        lemma_tower_mul_len(lower_half(a), lower_half(b), base_alpha);
        lemma_tower_mul_len(upper_half(a), lower_half(b), base_alpha);
    }
}

proof fn lemma_xor_swap4(p: u8, q: u8, r: u8, s: u8)
    by (bit_vector)
    ensures
        (p ^ q) ^ (r ^ s) == (p ^ r) ^ (q ^ s),
{
}

proof fn lemma_xor_swap6(p: u8, q: u8, r: u8, s: u8, t: u8, u: u8)
    by (bit_vector)
    ensures
        ((p ^ q) ^ (r ^ s)) ^ (t ^ u) == ((p ^ r) ^ t) ^ ((q ^ s) ^ u),
{
}

proof fn lemma_xor_karatsuba(d: u8, m: u8, z0: u8, z2: u8, x01: u8, x10: u8)
    by (bit_vector)
    ensures
        (m ^ ((z0 ^ x01) ^ (x10 ^ z2))) ^ (z2 ^ z0) == (x10 ^ x01) ^ m,
        ((d ^ m) ^ ((z0 ^ x01) ^ (x10 ^ z2))) ^ (z2 ^ z0) == d ^ ((x10 ^ x01) ^ m),
        z2 ^ z0 == z0 ^ z2,
{
}

/// Multiplication by the generator is additive.
pub proof fn lemma_tower_mul_alpha_additive(a: Seq<u8>, b: Seq<u8>, base_alpha: u8)
    requires
        is_tower_width(a.len()),
        a.len() == b.len(),
    ensures
        tower_mul_alpha(tower_add(a, b), base_alpha) == tower_add(
            tower_mul_alpha(a, base_alpha),
            tower_mul_alpha(b, base_alpha),
        ),
    decreases a.len(),
{
    let s = tower_add(a, b);
    let lhs = tower_mul_alpha(s, base_alpha);
    let rhs = tower_add(tower_mul_alpha(a, base_alpha), tower_mul_alpha(b, base_alpha));
    lemma_tower_mul_len(a, a, base_alpha);
    lemma_tower_mul_len(b, b, base_alpha);
    lemma_tower_mul_len(s, s, base_alpha);
    if a.len() <= 1 {
        assert forall|i: int| 0 <= i < lhs.len() implies lhs[i] == rhs[i] by {
            lemma_aes_mul_distributes_left(a[i], b[i], base_alpha);
        }
        assert(lhs =~= rhs);
    } else {
        let h = (a.len() / 2) as int;
        assert(lower_half(s) =~= tower_add(lower_half(a), lower_half(b)));
        assert(upper_half(s) =~= tower_add(upper_half(a), upper_half(b)));
        lemma_tower_mul_alpha_additive(upper_half(a), upper_half(b), base_alpha);
        let ma = tower_mul_alpha(upper_half(a), base_alpha);
        let mb = tower_mul_alpha(upper_half(b), base_alpha);
        lemma_tower_mul_len(upper_half(a), upper_half(a), base_alpha);
        lemma_tower_mul_len(upper_half(b), upper_half(b), base_alpha);
        assert forall|i: int| 0 <= i < lhs.len() implies lhs[i] == rhs[i] by {
            if i >= a.len() - h {
                let k = i - (a.len() - h);
                lemma_xor_swap4(lower_half(a)[k], lower_half(b)[k], ma[k], mb[k]);
            }
        }
        assert(lhs =~= rhs);
    }
}

/// Multiplication is additive in its left factor.
pub proof fn lemma_tower_mul_additive_left(a: Seq<u8>, b: Seq<u8>, c: Seq<u8>, base_alpha: u8)
    requires
        is_tower_width(a.len()),
        a.len() == b.len(),
        a.len() == c.len(),
    ensures
        tower_mul(tower_add(a, b), c, base_alpha) == tower_add(
            tower_mul(a, c, base_alpha),
            tower_mul(b, c, base_alpha),
        ),
    decreases a.len(),
{
    let s = tower_add(a, b);
    let lhs = tower_mul(s, c, base_alpha);
    let rhs = tower_add(tower_mul(a, c, base_alpha), tower_mul(b, c, base_alpha));
    lemma_tower_mul_len(a, c, base_alpha);
    lemma_tower_mul_len(b, c, base_alpha);
    lemma_tower_mul_len(s, c, base_alpha);
    if a.len() <= 1 {
        assert forall|i: int| 0 <= i < lhs.len() implies lhs[i] == rhs[i] by {
            lemma_aes_mul_distributes_left(a[i], b[i], c[i]);
        }
        assert(lhs =~= rhs);
    } else {
        let h = (a.len() / 2) as int;
        let (la, ua) = (lower_half(a), upper_half(a));
        let (lb, ub) = (lower_half(b), upper_half(b));
        let (lc, uc) = (lower_half(c), upper_half(c));
        assert(lower_half(s) =~= tower_add(la, lb));
        assert(upper_half(s) =~= tower_add(ua, ub));
        lemma_tower_mul_additive_left(la, lb, lc, base_alpha);
        lemma_tower_mul_additive_left(ua, ub, uc, base_alpha);
        lemma_tower_mul_additive_left(ua, ub, lc, base_alpha);
        lemma_tower_mul_additive_left(la, lb, uc, base_alpha);
        let z2a = tower_mul(ua, uc, base_alpha);
        let z2b = tower_mul(ub, uc, base_alpha);
        lemma_tower_mul_len(ua, uc, base_alpha);
        lemma_tower_mul_len(ub, uc, base_alpha);
        lemma_tower_mul_len(la, lc, base_alpha);
        lemma_tower_mul_len(lb, lc, base_alpha);
        lemma_tower_mul_len(ua, lc, base_alpha);
        lemma_tower_mul_len(ub, lc, base_alpha);
        lemma_tower_mul_len(la, uc, base_alpha);
        lemma_tower_mul_len(lb, uc, base_alpha);
        lemma_tower_mul_alpha_additive(z2a, z2b, base_alpha);
        lemma_tower_mul_len(z2a, z2a, base_alpha);
        lemma_tower_mul_len(z2b, z2b, base_alpha);
        let z0a = tower_mul(la, lc, base_alpha);
        let z0b = tower_mul(lb, lc, base_alpha);
        let ma = tower_mul_alpha(z2a, base_alpha);
        let mb = tower_mul_alpha(z2b, base_alpha);
        let x1a = tower_mul(ua, lc, base_alpha);
        let x1b = tower_mul(ub, lc, base_alpha);
        let x2a = tower_mul(la, uc, base_alpha);
        let x2b = tower_mul(lb, uc, base_alpha);
        assert forall|i: int| 0 <= i < lhs.len() implies lhs[i] == rhs[i] by {
            if i < h {
                lemma_xor_swap4(z0a[i], z0b[i], z2a[i], z2b[i]);
            } else {
                let k = i - h;
                lemma_xor_swap6(x1a[k], x1b[k], x2a[k], x2b[k], ma[k], mb[k]);
            }
        }
        assert(lhs =~= rhs);
    }
}

/// Multiplication is additive in its right factor.
pub proof fn lemma_tower_mul_additive_right(c: Seq<u8>, a: Seq<u8>, b: Seq<u8>, base_alpha: u8)
    requires
        is_tower_width(a.len()),
        a.len() == b.len(),
        a.len() == c.len(),
    ensures
        tower_mul(c, tower_add(a, b), base_alpha) == tower_add(
            tower_mul(c, a, base_alpha),
            tower_mul(c, b, base_alpha),
        ),
    decreases a.len(),
{
    let s = tower_add(a, b);
    let lhs = tower_mul(c, s, base_alpha);
    let rhs = tower_add(tower_mul(c, a, base_alpha), tower_mul(c, b, base_alpha));
    lemma_tower_mul_len(c, a, base_alpha);
    lemma_tower_mul_len(c, b, base_alpha);
    lemma_tower_mul_len(c, s, base_alpha);
    if a.len() <= 1 {
        assert forall|i: int| 0 <= i < lhs.len() implies lhs[i] == rhs[i] by {
            lemma_aes_mul_distributes_right(c[i], a[i], b[i]);
        }
        assert(lhs =~= rhs);
    } else {
        let h = (a.len() / 2) as int;
        let (la, ua) = (lower_half(a), upper_half(a));
        let (lb, ub) = (lower_half(b), upper_half(b));
        let (lc, uc) = (lower_half(c), upper_half(c));
        assert(lower_half(s) =~= tower_add(la, lb));
        assert(upper_half(s) =~= tower_add(ua, ub));
        lemma_tower_mul_additive_right(lc, la, lb, base_alpha);
        lemma_tower_mul_additive_right(uc, ua, ub, base_alpha);
        lemma_tower_mul_additive_right(uc, la, lb, base_alpha);
        lemma_tower_mul_additive_right(lc, ua, ub, base_alpha);
        let z2a = tower_mul(uc, ua, base_alpha);
        let z2b = tower_mul(uc, ub, base_alpha);
        lemma_tower_mul_len(uc, ua, base_alpha);
        lemma_tower_mul_len(uc, ub, base_alpha);
        lemma_tower_mul_len(lc, la, base_alpha);
        lemma_tower_mul_len(lc, lb, base_alpha);
        lemma_tower_mul_len(uc, la, base_alpha);
        lemma_tower_mul_len(uc, lb, base_alpha);
        lemma_tower_mul_len(lc, ua, base_alpha);
        lemma_tower_mul_len(lc, ub, base_alpha);
        lemma_tower_mul_alpha_additive(z2a, z2b, base_alpha);
        lemma_tower_mul_len(z2a, z2a, base_alpha);
        lemma_tower_mul_len(z2b, z2b, base_alpha);
        let z0a = tower_mul(lc, la, base_alpha);
        let z0b = tower_mul(lc, lb, base_alpha);
        let ma = tower_mul_alpha(z2a, base_alpha);
        let mb = tower_mul_alpha(z2b, base_alpha);
        let x1a = tower_mul(uc, la, base_alpha);
        let x1b = tower_mul(uc, lb, base_alpha);
        let x2a = tower_mul(lc, ua, base_alpha);
        let x2b = tower_mul(lc, ub, base_alpha);
        assert forall|i: int| 0 <= i < lhs.len() implies lhs[i] == rhs[i] by {
            if i < h {
                lemma_xor_swap4(z0a[i], z0b[i], z2a[i], z2b[i]);
            } else {
                let k = i - h;
                lemma_xor_swap6(x1a[k], x1b[k], x2a[k], x2b[k], ma[k], mb[k]);
            }
        }
        assert(lhs =~= rhs);
    }
}

/// The three half-width products of the Karatsuba scheme give the product:
/// with `z0 = lo(a) lo(b)`, `z2 = hi(a) hi(b)` and
/// `z1 = (lo(a) + hi(a)) (lo(b) + hi(b))`, the low half of `a b` is `z0 + z2`
/// and its high half is `z2 alpha + z1 + z0 + z2`.
pub proof fn lemma_karatsuba(a: Seq<u8>, b: Seq<u8>, d: Seq<u8>, base_alpha: u8)
    requires
        a.len() >= 2,
        is_tower_width(a.len()),
        a.len() == b.len(),
        a.len() == d.len(),
    ensures
        ({
            let z0 = tower_mul(lower_half(a), lower_half(b), base_alpha);
            let z2 = tower_mul(upper_half(a), upper_half(b), base_alpha);
            let z1 = tower_mul(
                tower_add(lower_half(a), upper_half(a)),
                tower_add(lower_half(b), upper_half(b)),
                base_alpha,
            );
            let m = tower_mul_alpha(z2, base_alpha);
            let zz = tower_add(z2, z0);
            &&& zz + tower_add(tower_add(m, z1), zz) == tower_mul(a, b, base_alpha)
            &&& tower_add(lower_half(d), zz) + tower_add(
                tower_add(tower_add(upper_half(d), m), z1),
                zz,
            ) == tower_add(d, tower_mul(a, b, base_alpha))
        }),
{
    let h = (a.len() / 2) as int;
    let (la, ua) = (lower_half(a), upper_half(a));
    let (lb, ub) = (lower_half(b), upper_half(b));
    let z0 = tower_mul(la, lb, base_alpha);
    let z2 = tower_mul(ua, ub, base_alpha);
    let x10 = tower_mul(ua, lb, base_alpha);
    let x01 = tower_mul(la, ub, base_alpha);
    let sa = tower_add(la, ua);
    let sb = tower_add(lb, ub);
    let z1 = tower_mul(sa, sb, base_alpha);
    let m = tower_mul_alpha(z2, base_alpha);
    let zz = tower_add(z2, z0);
    lemma_tower_mul_len(la, lb, base_alpha);
    lemma_tower_mul_len(ua, ub, base_alpha);
    lemma_tower_mul_len(ua, lb, base_alpha);
    lemma_tower_mul_len(la, ub, base_alpha);
    lemma_tower_mul_len(sa, sb, base_alpha);
    lemma_tower_mul_len(z2, z2, base_alpha);
    lemma_tower_mul_len(a, b, base_alpha);
    // z1 == (z0 + x01) + (x10 + z2)
    lemma_tower_mul_additive_left(la, ua, sb, base_alpha);
    lemma_tower_mul_additive_right(la, lb, ub, base_alpha);
    lemma_tower_mul_additive_right(ua, lb, ub, base_alpha);
    let p = tower_mul(a, b, base_alpha);
    let r = zz + tower_add(tower_add(m, z1), zz);
    let rd = tower_add(lower_half(d), zz) + tower_add(
        tower_add(tower_add(upper_half(d), m), z1),
        zz,
    );
    assert forall|i: int| 0 <= i < a.len() implies r[i] == p[i] && rd[i] == d[i] ^ p[i] by {
        if i < h {
            lemma_xor_karatsuba(d[i], 0, z0[i], z2[i], 0, 0);
        } else {
            let k = i - h;
            lemma_xor_karatsuba(upper_half(d)[k], m[k], z0[k], z2[k], x01[k], x10[k]);
        }
    }
    assert(r =~= p);
    assert(rd =~= tower_add(d, p));
}

/// Adds `src` to `dest`, entry by entry.
fn add_into(src: &[PackedAESBinaryField32x8b], dest: &mut [PackedAESBinaryField32x8b])
    requires
        src@.len() == old(dest)@.len(),
    ensures
        final(dest)@.len() == old(dest)@.len(),
        forall|j: int|
            0 <= j < 32 ==> #[trigger] lane(final(dest)@, j) == tower_add(
                lane(old(dest)@, j),
                lane(src@, j),
            ),
{
    let n: usize = src.len();
    let mut i: usize = 0;
    while i < n
        invariant
            i <= n,
            n == src@.len(),
            dest@.len() == n,
            forall|k: int| i <= k < n ==> dest@[k] == old(dest)@[k],
            forall|k: int, j: int|
                0 <= k < i && 0 <= j < 32 ==> #[trigger] dest@[k].lane(j) == old(dest)@[k].lane(j)
                    ^ src@[k].lane(j),
        decreases n - i,
    {
        let v = dest[i].plus(&src[i]);
        dest[i] = v;
        i += 1;
    }
    proof {
        assert forall|j: int| 0 <= j < 32 implies #[trigger] lane(dest@, j) == tower_add(
            lane(old(dest)@, j),
            lane(src@, j),
        ) by {
            assert(lane(dest@, j) =~= tower_add(lane(old(dest)@, j), lane(src@, j)));
        }
    }
}

/// Copies `src` over `dest`.
fn copy_into(src: &[PackedAESBinaryField32x8b], dest: &mut [PackedAESBinaryField32x8b])
    requires
        src@.len() == old(dest)@.len(),
    ensures
        final(dest)@ == src@,
{
    let n: usize = src.len();
    let mut i: usize = 0;
    while i < n
        invariant
            i <= n,
            n == src@.len(),
            dest@.len() == n,
            forall|k: int| 0 <= k < i ==> dest@[k] == src@[k],
        decreases n - i,
    {
        dest[i] = src[i];
        i += 1;
    }
    assert(dest@ =~= src@);
}

/// The entry-by-entry sum of `a` and `b`.
fn sum(a: &[PackedAESBinaryField32x8b], b: &[PackedAESBinaryField32x8b]) -> (r: Vec<
    PackedAESBinaryField32x8b,
>)
    requires
        a@.len() == b@.len(),
    ensures
        r@.len() == a@.len(),
        forall|j: int|
            0 <= j < 32 ==> #[trigger] lane(r@, j) == tower_add(lane(a@, j), lane(b@, j)),
{
    let n: usize = a.len();
    let mut r: Vec<PackedAESBinaryField32x8b> = Vec::new();
    let mut i: usize = 0;
    while i < n
        invariant
            i <= n,
            n == a@.len(),
            n == b@.len(),
            r@.len() == i,
            forall|k: int, j: int|
                0 <= k < i && 0 <= j < 32 ==> #[trigger] r@[k].lane(j) == a@[k].lane(j) ^ b@[k].lane(
                    j,
                ),
        decreases n - i,
    {
        r.push(a[i].plus(&b[i]));
        i += 1;
    }
    proof {
        assert forall|j: int| 0 <= j < 32 implies #[trigger] lane(r@, j) == tower_add(
            lane(a@, j),
            lane(b@, j),
        ) by {
            assert(lane(r@, j) =~= tower_add(lane(a@, j), lane(b@, j)));
        }
    }
    r
}

/// A byte-sliced value of the given width with every lane zero.
fn zeroed(width: usize) -> (r: Vec<PackedAESBinaryField32x8b>)
    ensures
        r@.len() == width,
{
    let mut r: Vec<PackedAESBinaryField32x8b> = Vec::new();
    let mut i: usize = 0;
    while i < width
        invariant
            i <= width,
            r@.len() == i,
        decreases width - i,
    {
        r.push(PackedAESBinaryField32x8b::zero());
        i += 1;
    }
    r
}

/// What `mul_alpha` leaves in one lane of the destination.
pub open spec fn mul_alpha_result(
    writing_to_zeros: bool,
    a: Seq<u8>,
    d: Seq<u8>,
    base_alpha: u8,
) -> Seq<u8> {
    if writing_to_zeros {
        tower_mul_alpha(a, base_alpha)
    } else {
        tower_add(d, tower_mul_alpha(a, base_alpha))
    }
}

/// What `mul_main` leaves in one lane of the destination.
pub open spec fn mul_main_result(
    writing_to_zeros: bool,
    a: Seq<u8>,
    b: Seq<u8>,
    d: Seq<u8>,
    base_alpha: u8,
) -> Seq<u8> {
    if writing_to_zeros {
        tower_mul(a, b, base_alpha)
    } else {
        tower_add(d, tower_mul(a, b, base_alpha))
    }
}

/// Multiplies `field_element` by the generator of its level. The product
/// replaces the destination when `WRITING_TO_ZEROS` is set and is added to it
/// otherwise.
pub fn mul_alpha<const WRITING_TO_ZEROS: bool>(
    field_element: &[PackedAESBinaryField32x8b],
    destination: &mut [PackedAESBinaryField32x8b],
    base_alpha: PackedAESBinaryField32x8b,
)
    requires
        is_tower_width(field_element@.len()),
        old(destination)@.len() == field_element@.len(),
    ensures
        final(destination)@.len() == old(destination)@.len(),
        forall|j: int|
            0 <= j < 32 ==> #[trigger] lane(final(destination)@, j) == mul_alpha_result(
                WRITING_TO_ZEROS,
                lane(field_element@, j),
                lane(old(destination)@, j),
                base_alpha.lane(j),
            ),
    decreases field_element@.len(),
{
    let width: usize = field_element.len();
    if width == 1 {
        let product = field_element[0].times(&base_alpha);
        if WRITING_TO_ZEROS {
            destination[0] = product;
        } else {
            let updated = destination[0].plus(&product);
            destination[0] = updated;
        }
        proof {
            assert forall|j: int| 0 <= j < 32 implies #[trigger] lane(destination@, j)
                == mul_alpha_result(
                WRITING_TO_ZEROS,
                lane(field_element@, j),
                lane(old(destination)@, j),
                base_alpha.lane(j),
            ) by {
                assert(lane(destination@, j) =~= mul_alpha_result(
                    WRITING_TO_ZEROS,
                    lane(field_element@, j),
                    lane(old(destination)@, j),
                    base_alpha.lane(j),
                ));
            }
        }
        return ;
    }
    let half: usize = width / 2;
    let (a0, a1) = field_element.split_at(half);
    let (result0, result1) = destination.split_at_mut(half);
    let ghost d0 = result0@;
    let ghost d1 = result1@;
    if WRITING_TO_ZEROS {
        copy_into(a0, result1);
        copy_into(a1, result0);
    } else {
        add_into(a0, result1);
        add_into(a1, result0);
    }
    let ghost mid1 = result1@;
    mul_alpha::<false>(a1, result1, base_alpha);
    proof {
        assert forall|j: int| 0 <= j < 32 implies #[trigger] lane(result0@ + result1@, j)
            == mul_alpha_result(
            WRITING_TO_ZEROS,
            lane(field_element@, j),
            lane(old(destination)@, j),
            base_alpha.lane(j),
        ) by {
            let a = lane(field_element@, j);
            let d = lane(old(destination)@, j);
            let alpha = base_alpha.lane(j);
            assert(lane(a0@, j) =~= lower_half(a));
            assert(lane(a1@, j) =~= upper_half(a));
            assert(lane(d0, j) =~= lower_half(d));
            assert(lane(d1, j) =~= upper_half(d));
            lemma_tower_mul_len(upper_half(a), upper_half(a), alpha);
            lemma_tower_mul_len(a, a, alpha);
            assert(lane(result0@ + result1@, j) =~= lane(result0@, j) + lane(result1@, j));
            assert(lane(result1@, j) == tower_add(
                lane(mid1, j),
                tower_mul_alpha(upper_half(a), alpha),
            ));
            if WRITING_TO_ZEROS {
                assert(lane(mid1, j) == lower_half(a));
                assert(lane(result0@, j) == upper_half(a));
            } else {
                assert(lane(mid1, j) == tower_add(upper_half(d), lower_half(a)));
                assert(lane(result0@, j) == tower_add(lower_half(d), upper_half(a)));
                let m = tower_mul_alpha(upper_half(a), alpha);
                assert forall|k: int| 0 <= k < half implies (upper_half(d)[k] ^ lower_half(a)[k])
                    ^ m[k] == upper_half(d)[k] ^ (lower_half(a)[k] ^ m[k]) by {
                    lemma_xor_assoc(upper_half(d)[k], lower_half(a)[k], m[k]);
                }
            }
            assert(lane(result0@, j) + lane(result1@, j) =~= mul_alpha_result(
                WRITING_TO_ZEROS,
                a,
                d,
                alpha,
            ));
        }
    }
}

/// Multiplies two byte-sliced values, lane by lane. The product replaces the
/// destination when `WRITING_TO_ZEROS` is set and is added to it otherwise.
pub fn mul_main<const WRITING_TO_ZEROS: bool>(
    field_element_a: &[PackedAESBinaryField32x8b],
    field_element_b: &[PackedAESBinaryField32x8b],
    destination: &mut [PackedAESBinaryField32x8b],
    base_alpha: PackedAESBinaryField32x8b,
)
    requires
        is_tower_width(field_element_a@.len()),
        field_element_b@.len() == field_element_a@.len(),
        old(destination)@.len() == field_element_a@.len(),
    ensures
        final(destination)@.len() == old(destination)@.len(),
        forall|j: int|
            0 <= j < 32 ==> #[trigger] lane(final(destination)@, j) == mul_main_result(
                WRITING_TO_ZEROS,
                lane(field_element_a@, j),
                lane(field_element_b@, j),
                lane(old(destination)@, j),
                base_alpha.lane(j),
            ),
    decreases field_element_a@.len(),
{
    let width: usize = field_element_a.len();
    if width == 1 {
        let product = field_element_a[0].times(&field_element_b[0]);
        if WRITING_TO_ZEROS {
            destination[0] = product;
        } else {
            let updated = destination[0].plus(&product);
            destination[0] = updated;
        }
        proof {
            assert forall|j: int| 0 <= j < 32 implies #[trigger] lane(destination@, j)
                == mul_main_result(
                WRITING_TO_ZEROS,
                lane(field_element_a@, j),
                lane(field_element_b@, j),
                lane(old(destination)@, j),
                base_alpha.lane(j),
            ) by {
                assert(lane(destination@, j) =~= mul_main_result(
                    WRITING_TO_ZEROS,
                    lane(field_element_a@, j),
                    lane(field_element_b@, j),
                    lane(old(destination)@, j),
                    base_alpha.lane(j),
                ));
            }
        }
        return ;
    }
    let half: usize = width / 2;
    let (a0, a1) = field_element_a.split_at(half);
    let (b0, b1) = field_element_b.split_at(half);
    let (result0, result1) = destination.split_at_mut(half);
    let ghost d0 = result0@;
    let ghost d1 = result1@;
    let xored_halves_a = sum(a0, a1);
    let xored_halves_b = sum(b0, b1);
    let mut z2_z0 = zeroed(half);

    // z2_z0 = z2
    mul_main::<true>(a1, b1, z2_z0.as_mut_slice(), base_alpha);
    let ghost z2 = z2_z0@;

    // result1 = z2 * alpha
    mul_alpha::<WRITING_TO_ZEROS>(z2_z0.as_slice(), result1, base_alpha);
    let ghost r1a = result1@;

    // z2_z0 = z2 + z0
    mul_main::<false>(a0, b0, z2_z0.as_mut_slice(), base_alpha);

    // result1 = z1 + z2 * alpha
    mul_main::<false>(
        xored_halves_a.as_slice(),
        xored_halves_b.as_slice(),
        result1,
        base_alpha,
    );
    let ghost r1b = result1@;

    // result1 = z2 + z0 + z1 + z2 * alpha
    add_into(z2_z0.as_slice(), result1);

    if WRITING_TO_ZEROS {
        copy_into(z2_z0.as_slice(), result0);
    } else {
        add_into(z2_z0.as_slice(), result0);
    }
    proof {
        assert forall|j: int| 0 <= j < 32 implies #[trigger] lane(result0@ + result1@, j)
            == mul_main_result(
            WRITING_TO_ZEROS,
            lane(field_element_a@, j),
            lane(field_element_b@, j),
            lane(old(destination)@, j),
            base_alpha.lane(j),
        ) by {
            let a = lane(field_element_a@, j);
            let b = lane(field_element_b@, j);
            let d = lane(old(destination)@, j);
            let alpha = base_alpha.lane(j);
            assert(lane(a0@, j) =~= lower_half(a));
            assert(lane(a1@, j) =~= upper_half(a));
            assert(lane(b0@, j) =~= lower_half(b));
            assert(lane(b1@, j) =~= upper_half(b));
            assert(lane(d0, j) =~= lower_half(d));
            assert(lane(d1, j) =~= upper_half(d));
            assert(lane(result0@ + result1@, j) =~= lane(result0@, j) + lane(result1@, j));
            let z0 = tower_mul(lower_half(a), lower_half(b), alpha);
            let z2s = tower_mul(upper_half(a), upper_half(b), alpha);
            let z1 = tower_mul(
                tower_add(lower_half(a), upper_half(a)),
                tower_add(lower_half(b), upper_half(b)),
                alpha,
            );
            let m = tower_mul_alpha(z2s, alpha);
            let zz = tower_add(z2s, z0);
            assert(lane(z2, j) == z2s);
            assert(lane(z2_z0@, j) == zz);
            assert(lane(r1b, j) == tower_add(lane(r1a, j), z1));
            assert(lane(result1@, j) == tower_add(lane(r1b, j), zz));
            lemma_karatsuba(a, b, d, alpha);
            if WRITING_TO_ZEROS {
                assert(lane(r1a, j) == m);
                assert(lane(result0@, j) == zz);
            } else {
                assert(lane(r1a, j) == tower_add(upper_half(d), m));
                assert(lane(result0@, j) == tower_add(lower_half(d), zz));
            }
        }
    }
}

/// Multiplies two byte-sliced values of the tower built on the AES field and
/// writes the product to the destination.
pub fn mul(
    field_element_a: &[PackedAESBinaryField32x8b],
    field_element_b: &[PackedAESBinaryField32x8b],
    destination: &mut [PackedAESBinaryField32x8b],
)
    requires
        is_tower_width(field_element_a@.len()),
        field_element_b@.len() == field_element_a@.len(),
        old(destination)@.len() == field_element_a@.len(),
    ensures
        final(destination)@.len() == old(destination)@.len(),
        forall|j: int|
            0 <= j < 32 ==> #[trigger] lane(final(destination)@, j) == tower_mul(
                lane(field_element_a@, j),
                lane(field_element_b@, j),
                BASE_ALPHA,
            ),
{
    let base_alpha = PackedAESBinaryField32x8b::broadcast(BASE_ALPHA);
    mul_main::<true>(field_element_a, field_element_b, destination, base_alpha);
}

proof fn lemma_xor_assoc(p: u8, q: u8, r: u8)
    by (bit_vector)
    ensures
        (p ^ q) ^ r == p ^ (q ^ r),
{
}

} // verus!
