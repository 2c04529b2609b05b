//! What the rows of a derived oracle are, in terms of the rows of the
//! oracle that it is derived from.

use crate::oracle::{ProjectionVariant, ShiftVariant};
use crate::util::checked_pow2;
use vstd::arithmetic::power2::{lemma_pow2_pos, pow2};
use vstd::prelude::*;

verus! {

/// The position, within a block of `size` rows, of the row that a shifted
/// oracle holds at position `pos`, or none where it holds zero. A logical
/// shift moves the rows of a block up or down and fills with zero; a
/// circular shift moves them up and around.
pub open spec fn shifted_source(variant: ShiftVariant, offset: int, size: int, pos: int) -> Option<
    int,
> {
    match variant {
        ShiftVariant::LogicalLeft => if pos >= offset {
            Some(pos - offset)
        } else {
            None
        },
        ShiftVariant::LogicalRight => if pos + offset < size {
            Some(pos + offset)
        } else {
            None
        },
        ShiftVariant::CircularLeft => if pos >= offset {
            Some(pos - offset)
        } else {
            Some(pos - offset + size)
        },
    }
}

/// The rows of the oracle that shifts the given rows by `offset` within
/// each block of `2^block_bits` rows.
pub open spec fn shifted_rows<T>(
    rows: Seq<T>,
    zero: T,
    offset: nat,
    block_bits: nat,
    variant: ShiftVariant,
) -> Seq<T> {
    Seq::new(
        rows.len(),
        |i: int|
            match shifted_source(
                variant,
                offset as int,
                pow2(block_bits) as int,
                i % (pow2(block_bits) as int),
            ) {
                Some(p) => rows[i - i % (pow2(block_bits) as int) + p],
                None => zero,
            },
    )
}

/// A row of a block, moved within the block, is in the same block.
proof fn lemma_same_block(i: int, size: int, p: int)
    requires
        size > 0,
        0 <= i,
        0 <= p < size,
    ensures
        (i - i % size + p) % size == p,
        (i - i % size + p) - (i - i % size + p) % size == i - i % size,
        0 <= i - i % size + p < i - i % size + size,
{
    let q = i / size;
    vstd::arithmetic::div_mod::lemma_fundamental_div_mod(i, size);
    assert(i - i % size == size * q);
    vstd::arithmetic::div_mod::lemma_mod_multiples_vanish(q, p, size);
    vstd::arithmetic::div_mod::lemma_small_mod(p as nat, size as nat);
    vstd::arithmetic::mul::lemma_mul_is_commutative(size, q);
}

/// Rotating the rows of every block by `offset` and then by the block size
/// less `offset` gives the rows back, for every oracle whose rows fill
/// whole blocks and every offset up to the block size.
pub proof fn lemma_circular_shift_round_trip<T>(rows: Seq<T>, zero: T, offset: nat, block_bits: nat)
    requires
        offset <= pow2(block_bits),
        rows.len() % pow2(block_bits) == 0,
    ensures
        shifted_rows(
            shifted_rows(rows, zero, offset, block_bits, ShiftVariant::CircularLeft),
            zero,
            (pow2(block_bits) - offset) as nat,
            block_bits,
            ShiftVariant::CircularLeft,
        ) == rows,
{
    lemma_pow2_pos(block_bits);
    let size = pow2(block_bits) as int;
    let back = (size - offset) as nat;
    let once = shifted_rows(rows, zero, offset, block_bits, ShiftVariant::CircularLeft);
    let twice = shifted_rows(once, zero, back, block_bits, ShiftVariant::CircularLeft);
    assert forall|i: int| 0 <= i < rows.len() implies twice[i] == rows[i] by {
        let pos = i % size;
        let first = if pos >= back {
            pos - back
        } else {
            pos - back + size
        };
        lemma_same_block(i, size, first);
        lemma_same_block(i, size, pos);
        lemma_block_in_range(rows.len() as int, i, size);
        let j = i - pos + first;
        assert(j % size == first);
        let second = if first >= offset {
            first - offset
        } else {
            first - offset + size
        };
        assert(second == pos);
    }
    assert(twice =~= rows);
}

/// A block that starts within rows that fill whole blocks lies within
/// them.
proof fn lemma_block_in_range(len: int, i: int, size: int)
    requires
        size > 0,
        0 <= i < len,
        len % size == 0,
    ensures
        i - i % size + size <= len,
{
    vstd::arithmetic::div_mod::lemma_fundamental_div_mod(i, size);
    vstd::arithmetic::div_mod::lemma_fundamental_div_mod(len, size);
    let q = i / size;
    let n = len / size;
    assert(i - i % size == size * q);
    assert(len == size * n);
    if q >= n {
        vstd::arithmetic::mul::lemma_mul_inequality(n, q, size);
        vstd::arithmetic::mul::lemma_mul_is_commutative(size, q);
        vstd::arithmetic::mul::lemma_mul_is_commutative(size, n);
    }
    assert(q + 1 <= n);
    vstd::arithmetic::mul::lemma_mul_inequality(q + 1, n, size);
    vstd::arithmetic::mul::lemma_mul_is_commutative(size, q + 1);
    vstd::arithmetic::mul::lemma_mul_is_commutative(size, n);
    vstd::arithmetic::mul::lemma_mul_is_distributive_add(size, q, 1);
}

/// Shifting the rows of every block down by `offset` and then up by as
/// many gives the rows back exactly when the `offset` first rows of every
/// block are zero: a logical shift loses the rows that it moves out of
/// the block.
pub proof fn lemma_logical_shift_round_trip<T>(rows: Seq<T>, zero: T, offset: nat, block_bits: nat)
    requires
        offset <= pow2(block_bits),
        rows.len() % pow2(block_bits) == 0,
    ensures
        shifted_rows(
            shifted_rows(rows, zero, offset, block_bits, ShiftVariant::LogicalRight),
            zero,
            offset,
            block_bits,
            ShiftVariant::LogicalLeft,
        ) == rows <==> forall|i: int|
            0 <= i < rows.len() && i % (pow2(block_bits) as int) < offset ==> rows[i] == zero,
{
    lemma_pow2_pos(block_bits);
    let size = pow2(block_bits) as int;
    let once = shifted_rows(rows, zero, offset, block_bits, ShiftVariant::LogicalRight);
    let twice = shifted_rows(once, zero, offset, block_bits, ShiftVariant::LogicalLeft);
    assert forall|i: int| 0 <= i < rows.len() implies twice[i] == (if i % size < offset {
        zero
    } else {
        rows[i]
    }) by {
        let pos = i % size;
        if pos >= offset {
            lemma_same_block(i, size, pos - offset);
            lemma_same_block(i, size, pos);
            lemma_block_in_range(rows.len() as int, i, size);
        }
    }
    if forall|i: int| 0 <= i < rows.len() && i % size < offset ==> rows[i] == zero {
        assert(twice =~= rows);
    }
    if twice == rows {
        assert forall|i: int| 0 <= i < rows.len() && i % size < offset implies rows[i] == zero by {
            assert(twice[i] == zero);
        }
    }
}

/// The row of the input that row `i` of a projection holds. Fixing the
/// first variables to the bits of `query` keeps every `2^query_bits`-th
/// row, from row `query` on; fixing the last variables keeps the `n_out`
/// consecutive rows of block `query`.
pub open spec fn projected_source(
    variant: ProjectionVariant,
    query: usize,
    query_bits: usize,
    n_out: nat,
    i: int,
) -> int {
    match variant {
        ProjectionVariant::FirstVars => i * pow2(query_bits as nat) + query,
        ProjectionVariant::LastVars => query * n_out + i,
    }
}

/// The rows of the oracle that fixes `query_bits` variables of the given
/// rows to the bits of `query`.
pub open spec fn projected_rows(
    values: Seq<u128>,
    query: usize,
    query_bits: usize,
    variant: ProjectionVariant,
) -> Seq<u128> {
    Seq::new(
        values.len() / pow2(query_bits as nat),
        |i: int|
            values[projected_source(
                variant,
                query,
                query_bits,
                values.len() / pow2(query_bits as nat),
                i,
            )],
    )
}

/// The rows of the projection of the given rows on the point of the
/// hypercube of `query_bits` variables whose index is `query`. There is no
/// such point when `query` is not below `2^query_bits`.
pub fn project_rows(
    values: &[u128],
    query: usize,
    query_bits: usize,
    variant: ProjectionVariant,
) -> (r: Option<Vec<u128>>)
    ensures
        match r {
            Some(out) => query < pow2(query_bits as nat) && out@ == projected_rows(
                values@,
                query,
                query_bits,
                variant,
            ),
            None => query >= pow2(query_bits as nat),
        },
{
    let len: usize = values.len();
    let size: usize = match checked_pow2(query_bits) {
        Some(s) => s,
        None => {
            let empty: Vec<u128> = Vec::new();
            proof {
                vstd::arithmetic::div_mod::lemma_basic_div(
                    len as int,
                    pow2(query_bits as nat) as int,
                );
                assert(empty@ =~= projected_rows(values@, query, query_bits, variant));
            }
            return Some(empty);
        },
    };
    proof {
        lemma_pow2_pos(query_bits as nat);
    }
    if query >= size {
        return None;
    }
    let n_out: usize = len / size;
    let mut out: Vec<u128> = Vec::new();
    let mut i: usize = 0;
    proof {
        vstd::arithmetic::div_mod::lemma_fundamental_div_mod(len as int, size as int);
    }
    while i < n_out
        invariant
            i <= n_out,
            len == values@.len(),
            size == pow2(query_bits as nat),
            size > 0,
            query < size,
            n_out == len / size,
            size * n_out <= len,
            out@.len() == i,
            forall|k: int|
                0 <= k < i ==> out@[k] == values@[projected_source(
                    variant,
                    query,
                    query_bits,
                    n_out as nat,
                    k,
                )],
        decreases n_out - i,
    {
        proof {
            assert(i * size + query < size * n_out && query * n_out + i < size * n_out)
                by (nonlinear_arith)
                requires
                    i < n_out,
                    query < size,
            ;
        }
        let source: usize = match variant {
            ProjectionVariant::FirstVars => i * size + query,
            ProjectionVariant::LastVars => query * n_out + i,
        };
        out.push(values[source]);
        i += 1;
    }
    assert(out@ =~= projected_rows(values@, query, query_bits, variant));
    Some(out)
}

} // verus!
