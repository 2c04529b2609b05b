//! How a column is laid out in memory.
//!
//! A column of `2^log_rows` elements of tower level `level` is stored as
//! little-endian bytes, element after element, and padded to a multiple of
//! 16 bytes; elements of less than a byte are packed from the low bit up.

use crate::util::checked_pow2;
use vstd::arithmetic::power2::{lemma2_to64, lemma_pow2_pos, lemma_pow2_strictly_increases, pow2};
use vstd::prelude::*;

verus! {

/// The number of bytes in the smallest unit of column storage.
pub const UNIT_BYTES: usize = 16;

/// The number of bits in the smallest unit of column storage, as a power
/// of two.
pub const LOG_UNIT_BITS: usize = 7;

/// The number of storage units of a column.
pub open spec fn column_units(log_rows: usize, tower_level: usize) -> nat {
    if log_rows + tower_level <= LOG_UNIT_BITS {
        1
    } else {
        pow2((log_rows + tower_level - LOG_UNIT_BITS) as nat)
    }
}

/// The number of bytes of a column.
pub open spec fn column_len(log_rows: usize, tower_level: usize) -> nat {
    UNIT_BYTES as nat * column_units(log_rows, tower_level)
}

/// The number of bytes of a column, when the machine can address that many.
pub fn checked_column_len(log_rows: usize, tower_level: usize) -> (r: Option<usize>)
    ensures
        match r {
            Some(len) => {
                &&& len == column_len(log_rows, tower_level)
                &&& len / 4 * 4 == len
                &&& len / 8 * 8 == len
                &&& len / 16 * 16 == len
            },
            None => column_len(log_rows, tower_level) > usize::MAX,
        },
{
    proof {
        lemma2_to64();
        lemma_column_len_whole(log_rows, tower_level);
    }
    let log_bits: usize = match log_rows.checked_add(tower_level) {
        Some(n) => n,
        None => {
            proof {
                lemma_pow2_strictly_increases(
                    64,
                    (log_rows + tower_level - LOG_UNIT_BITS) as nat,
                );
            }
            return None;
        },
    };
    let log_units: usize = if log_bits <= LOG_UNIT_BITS {
        0
    } else {
        log_bits - LOG_UNIT_BITS
    };
    match checked_pow2(log_units) {
        Some(units) => units.checked_mul(UNIT_BYTES),
        None => None,
    }
}

/// A column has no more bytes than a column of more rows.
pub proof fn lemma_column_len_monotonic(a: usize, b: usize, tower_level: usize)
    requires
        a <= b,
    ensures
        column_len(a, tower_level) <= column_len(b, tower_level),
{
    lemma_pow2_pos(0);
    if a + tower_level > LOG_UNIT_BITS && a < b {
        lemma_pow2_strictly_increases(
            (a + tower_level - LOG_UNIT_BITS) as nat,
            (b + tower_level - LOG_UNIT_BITS) as nat,
        );
    } else if b + tower_level > LOG_UNIT_BITS {
        lemma_pow2_pos(
            (b + tower_level - LOG_UNIT_BITS) as nat,
        );
    }
}

/// A column of elements of level `tower_level` has the bytes of the column
/// of their bits.
pub proof fn lemma_column_len_packed(log_rows: usize, tower_level: usize)
    requires
        log_rows + tower_level <= usize::MAX,
    ensures
        column_len(log_rows, tower_level) == column_len((log_rows + tower_level) as usize, 0),
{
}

/// A column is made of whole storage units: its length is a multiple of
/// 16, so that it holds a whole number of values of 2, 4, 8 or 16 bytes.
pub proof fn lemma_column_len_whole(log_rows: usize, tower_level: usize)
    ensures
        column_len(log_rows, tower_level) % 16 == 0,
        column_len(log_rows, tower_level) / 4 * 4 == column_len(log_rows, tower_level),
        column_len(log_rows, tower_level) / 8 * 8 == column_len(log_rows, tower_level),
        column_len(log_rows, tower_level) / 16 * 16 == column_len(log_rows, tower_level),
        column_len(log_rows, tower_level) >= 16,
{
    let units = column_units(log_rows, tower_level);
    let len = column_len(log_rows, tower_level);
    if log_rows + tower_level > LOG_UNIT_BITS {
        lemma_pow2_pos((log_rows + tower_level - LOG_UNIT_BITS) as nat);
    }
    assert(units >= 1);
    assert(len == 16 * units);
    assert(len / 4 == 4 * units);
    assert(len / 8 == 2 * units);
    assert(len / 16 == units);
}

} // verus!
