//! Typed views of column data.
//!
//! A column is a sequence of bytes. Read as 32-, 64- or 128-bit values, each
//! value is made of consecutive bytes in little-endian order; read as bits,
//! bit `i` is bit `i % 8` of byte `i / 8`.

use vstd::prelude::*;

verus! {

/// The `u32` whose little-endian bytes are given.
pub open spec fn u32_from_le(
    b0: u8, b1: u8, b2: u8, b3: u8,
) -> u32 {
    (b0 as u32) | ((b1 as u32) << 8) | ((b2 as u32) << 16) | ((b3 as u32) << 24)
}

/// Byte `k` of the little-endian form of `v`.
pub open spec fn u32_le_byte(v: u32, k: int) -> u8 {
    if k == 0 {
        v as u8
    } else if k == 1 {
        (v >> 8) as u8
    } else if k == 2 {
        (v >> 16) as u8
    } else {
        (v >> 24) as u8
    }
}

/// A value is made of its little-endian bytes, and has no others.
pub proof fn lemma_u32_le_bytes()
    by (bit_vector)
    ensures
        forall|v: u32|
            #[trigger] u32_from_le(
            u32_le_byte(v, 0), u32_le_byte(v, 1), u32_le_byte(v, 2), u32_le_byte(v, 3),
            ) == v,
        forall|
            b0: u8, b1: u8, b2: u8, b3: u8,
        |
            #![trigger u32_from_le(
                b0, b1, b2, b3,
            )]
            {
                &&& u32_le_byte(
                    u32_from_le(
                        b0, b1, b2, b3,
                    ),
                    0,
                ) == b0
                &&& u32_le_byte(
                    u32_from_le(
                        b0, b1, b2, b3,
                    ),
                    1,
                ) == b1
                &&& u32_le_byte(
                    u32_from_le(
                        b0, b1, b2, b3,
                    ),
                    2,
                ) == b2
                &&& u32_le_byte(
                    u32_from_le(
                        b0, b1, b2, b3,
                    ),
                    3,
                ) == b3
            },
{
}

/// Row `i` of a column read as `u32` values.
pub open spec fn u32_row(bytes: Seq<u8>, i: int) -> u32 {
    u32_from_le(
        bytes[4 * i], bytes[4 * i + 1], bytes[4 * i + 2], bytes[4 * i + 3],
    )
}

/// A column read as `u32` values.
pub open spec fn u32_rows(bytes: Seq<u8>) -> Seq<u32> {
    Seq::new(bytes.len() / 4, |i: int| u32_row(bytes, i))
}

/// The bytes of a column of `u32` values.
pub open spec fn u32_bytes(rows: Seq<u32>) -> Seq<u8> {
    Seq::new(rows.len() * 4, |k: int| u32_le_byte(rows[k / 4], k % 4))
}

/// Reading back what was written gives the rows written.
pub proof fn lemma_u32_rows_of_bytes(rows: Seq<u32>)
    ensures
        u32_rows(u32_bytes(rows)) == rows,
        u32_bytes(rows).len() == rows.len() * 4,
{
    lemma_u32_le_bytes();
    let bytes = u32_bytes(rows);
    assert forall|i: int| 0 <= i < rows.len() implies u32_row(bytes, i) == rows[i] by {
        let v = rows[i];
        assert(u32_from_le(
            u32_le_byte(v, 0), u32_le_byte(v, 1), u32_le_byte(v, 2), u32_le_byte(v, 3),
        ) == v);
    }
    assert(u32_rows(bytes) =~= rows);
}

/// Writing back what was read gives the bytes read.
pub proof fn lemma_u32_bytes_of_rows(bytes: Seq<u8>)
    requires
        bytes.len() % 4 == 0,
    ensures
        u32_bytes(u32_rows(bytes)) == bytes,
{
    lemma_u32_le_bytes();
    let rows = u32_rows(bytes);
    let back = u32_bytes(rows);
    assert forall|k: int| 0 <= k < bytes.len() implies back[k] == bytes[k] by {
        let i = k / 4;
        assert(rows[i] == u32_from_le(
            bytes[4 * i], bytes[4 * i + 1], bytes[4 * i + 2], bytes[4 * i + 3],
        ));
    }
    assert(back =~= bytes);
}

/// Reads a column as `u32` values.
pub fn read_u32_rows(data: &[u8]) -> (r: Vec<u32>)
    ensures
        r@ == u32_rows(data@),
{
    let n: usize = data.len() / 4;
    let mut out: Vec<u32> = Vec::new();
    let mut i: usize = 0;
    while i < n
        invariant
            i <= n,
            n == data@.len() / 4,
            data@.len() <= usize::MAX,
            out@.len() == i,
            forall|j: int| 0 <= j < i ==> out@[j] == u32_row(data@, j),
        decreases n - i,
    {
        let base: usize = 4 * i;
        let b0: u8 = data[base];
        let b1: u8 = data[base + 1];
        let b2: u8 = data[base + 2];
        let b3: u8 = data[base + 3];
        let v: u32 = (b0 as u32) | ((b1 as u32) << 8) | ((b2 as u32) << 16)
            | ((b3 as u32) << 24);
        out.push(v);
        i += 1;
    }
    assert(out@ =~= u32_rows(data@));
    out
}

/// Appends the little-endian bytes of `v`.
fn push_u32_le(out: &mut Vec<u8>, v: u32)
    ensures
        final(out)@ == old(out)@ + Seq::new(4, |k: int| u32_le_byte(v, k)),
{
    out.push(#[verifier::truncate] (v as u8));
    out.push(#[verifier::truncate] ((v >> 8) as u8));
    out.push(#[verifier::truncate] ((v >> 16) as u8));
    out.push(#[verifier::truncate] ((v >> 24) as u8));
    assert(out@ =~= old(out)@ + Seq::new(4, |k: int| u32_le_byte(v, k)));
}

/// The bytes of a column of `u32` values.
pub fn u32_rows_to_bytes(rows: &[u32]) -> (r: Vec<u8>)
    ensures
        r@ == u32_bytes(rows@),
        u32_rows(r@) == rows@,
{
    let n: usize = rows.len();
    let mut out: Vec<u8> = Vec::new();
    let mut i: usize = 0;
    while i < n
        invariant
            i <= n,
            n == rows@.len(),
            out@.len() == 4 * i,
            forall|k: int|
                0 <= k < 4 * i ==> out@[k] == u32_le_byte(rows@[k / 4], k % 4),
        decreases n - i,
    {
        let ghost before = out@;
        push_u32_le(&mut out, rows[i]);
        proof {
            assert forall|k: int| 0 <= k < 4 * (i + 1) implies out@[k] == u32_le_byte(
                rows@[k / 4],
                k % 4,
            ) by {
                if k >= 4 * i {
                    assert(k / 4 == i);
                    assert(k % 4 == k - 4 * i);
                    assert(out@[k] == Seq::new(4, |j: int| u32_le_byte(rows@[i as int], j))[k - 4
                        * i]);
                } else {
                    assert(out@[k] == before[k]);
                }
            }
        }
        i += 1;
    }
    assert(out@ =~= u32_bytes(rows@));
    proof {
        lemma_u32_rows_of_bytes(rows@);
    }
    out
}

/// The `u64` whose little-endian bytes are given.
pub open spec fn u64_from_le(
    b0: u8, b1: u8, b2: u8, b3: u8, b4: u8, b5: u8, b6: u8, b7: u8,
) -> u64 {
    (b0 as u64) | ((b1 as u64) << 8) | ((b2 as u64) << 16) | ((b3 as u64) << 24)
        | ((b4 as u64) << 32) | ((b5 as u64) << 40) | ((b6 as u64) << 48) | ((b7 as u64) << 56)
}

/// Byte `k` of the little-endian form of `v`.
pub open spec fn u64_le_byte(v: u64, k: int) -> u8 {
    if k == 0 {
        v as u8
    } else if k == 1 {
        (v >> 8) as u8
    } else if k == 2 {
        (v >> 16) as u8
    } else if k == 3 {
        (v >> 24) as u8
    } else if k == 4 {
        (v >> 32) as u8
    } else if k == 5 {
        (v >> 40) as u8
    } else if k == 6 {
        (v >> 48) as u8
    } else {
        (v >> 56) as u8
    }
}

/// A value is made of its little-endian bytes, and has no others.
pub proof fn lemma_u64_le_bytes()
    by (bit_vector)
    ensures
        forall|v: u64|
            #[trigger] u64_from_le(
            u64_le_byte(v, 0), u64_le_byte(v, 1), u64_le_byte(v, 2), u64_le_byte(v, 3),
            u64_le_byte(v, 4), u64_le_byte(v, 5), u64_le_byte(v, 6), u64_le_byte(v, 7),
            ) == v,
        forall|
            b0: u8, b1: u8, b2: u8, b3: u8, b4: u8, b5: u8, b6: u8, b7: u8,
        |
            #![trigger u64_from_le(
                b0, b1, b2, b3, b4, b5, b6, b7,
            )]
            {
                &&& u64_le_byte(
                    u64_from_le(
                        b0, b1, b2, b3, b4, b5, b6, b7,
                    ),
                    0,
                ) == b0
                &&& u64_le_byte(
                    u64_from_le(
                        b0, b1, b2, b3, b4, b5, b6, b7,
                    ),
                    1,
                ) == b1
                &&& u64_le_byte(
                    u64_from_le(
                        b0, b1, b2, b3, b4, b5, b6, b7,
                    ),
                    2,
                ) == b2
                &&& u64_le_byte(
                    u64_from_le(
                        b0, b1, b2, b3, b4, b5, b6, b7,
                    ),
                    3,
                ) == b3
                &&& u64_le_byte(
                    u64_from_le(
                        b0, b1, b2, b3, b4, b5, b6, b7,
                    ),
                    4,
                ) == b4
                &&& u64_le_byte(
                    u64_from_le(
                        b0, b1, b2, b3, b4, b5, b6, b7,
                    ),
                    5,
                ) == b5
                &&& u64_le_byte(
                    u64_from_le(
                        b0, b1, b2, b3, b4, b5, b6, b7,
                    ),
                    6,
                ) == b6
                &&& u64_le_byte(
                    u64_from_le(
                        b0, b1, b2, b3, b4, b5, b6, b7,
                    ),
                    7,
                ) == b7
            },
{
}

/// Row `i` of a column read as `u64` values.
pub open spec fn u64_row(bytes: Seq<u8>, i: int) -> u64 {
    u64_from_le(
        bytes[8 * i], bytes[8 * i + 1], bytes[8 * i + 2], bytes[8 * i + 3], bytes[8 * i + 4],
        bytes[8 * i + 5], bytes[8 * i + 6], bytes[8 * i + 7],
    )
}

/// A column read as `u64` values.
pub open spec fn u64_rows(bytes: Seq<u8>) -> Seq<u64> {
    Seq::new(bytes.len() / 8, |i: int| u64_row(bytes, i))
}

/// The bytes of a column of `u64` values.
pub open spec fn u64_bytes(rows: Seq<u64>) -> Seq<u8> {
    Seq::new(rows.len() * 8, |k: int| u64_le_byte(rows[k / 8], k % 8))
}

/// Reading back what was written gives the rows written.
pub proof fn lemma_u64_rows_of_bytes(rows: Seq<u64>)
    ensures
        u64_rows(u64_bytes(rows)) == rows,
        u64_bytes(rows).len() == rows.len() * 8,
{
    lemma_u64_le_bytes();
    let bytes = u64_bytes(rows);
    assert forall|i: int| 0 <= i < rows.len() implies u64_row(bytes, i) == rows[i] by {
        let v = rows[i];
        assert(u64_from_le(
            u64_le_byte(v, 0), u64_le_byte(v, 1), u64_le_byte(v, 2), u64_le_byte(v, 3),
            u64_le_byte(v, 4), u64_le_byte(v, 5), u64_le_byte(v, 6), u64_le_byte(v, 7),
        ) == v);
    }
    assert(u64_rows(bytes) =~= rows);
}

/// Writing back what was read gives the bytes read.
pub proof fn lemma_u64_bytes_of_rows(bytes: Seq<u8>)
    requires
        bytes.len() % 8 == 0,
    ensures
        u64_bytes(u64_rows(bytes)) == bytes,
{
    lemma_u64_le_bytes();
    let rows = u64_rows(bytes);
    let back = u64_bytes(rows);
    assert forall|k: int| 0 <= k < bytes.len() implies back[k] == bytes[k] by {
        let i = k / 8;
        assert(rows[i] == u64_from_le(
            bytes[8 * i], bytes[8 * i + 1], bytes[8 * i + 2], bytes[8 * i + 3],
            bytes[8 * i + 4], bytes[8 * i + 5], bytes[8 * i + 6], bytes[8 * i + 7],
        ));
    }
    assert(back =~= bytes);
}

/// Reads a column as `u64` values.
pub fn read_u64_rows(data: &[u8]) -> (r: Vec<u64>)
    ensures
        r@ == u64_rows(data@),
{
    let n: usize = data.len() / 8;
    let mut out: Vec<u64> = Vec::new();
    let mut i: usize = 0;
    while i < n
        invariant
            i <= n,
            n == data@.len() / 8,
            data@.len() <= usize::MAX,
            out@.len() == i,
            forall|j: int| 0 <= j < i ==> out@[j] == u64_row(data@, j),
        decreases n - i,
    {
        let base: usize = 8 * i;
        let b0: u8 = data[base];
        let b1: u8 = data[base + 1];
        let b2: u8 = data[base + 2];
        let b3: u8 = data[base + 3];
        let b4: u8 = data[base + 4];
        let b5: u8 = data[base + 5];
        let b6: u8 = data[base + 6];
        let b7: u8 = data[base + 7];
        let v: u64 = (b0 as u64) | ((b1 as u64) << 8) | ((b2 as u64) << 16)
            | ((b3 as u64) << 24) | ((b4 as u64) << 32) | ((b5 as u64) << 40)
            | ((b6 as u64) << 48) | ((b7 as u64) << 56);
        out.push(v);
        i += 1;
    }
    assert(out@ =~= u64_rows(data@));
    out
}

/// Appends the little-endian bytes of `v`.
fn push_u64_le(out: &mut Vec<u8>, v: u64)
    ensures
        final(out)@ == old(out)@ + Seq::new(8, |k: int| u64_le_byte(v, k)),
{
    out.push(#[verifier::truncate] (v as u8));
    out.push(#[verifier::truncate] ((v >> 8) as u8));
    out.push(#[verifier::truncate] ((v >> 16) as u8));
    out.push(#[verifier::truncate] ((v >> 24) as u8));
    out.push(#[verifier::truncate] ((v >> 32) as u8));
    out.push(#[verifier::truncate] ((v >> 40) as u8));
    out.push(#[verifier::truncate] ((v >> 48) as u8));
    out.push(#[verifier::truncate] ((v >> 56) as u8));
    assert(out@ =~= old(out)@ + Seq::new(8, |k: int| u64_le_byte(v, k)));
}

/// The bytes of a column of `u64` values.
pub fn u64_rows_to_bytes(rows: &[u64]) -> (r: Vec<u8>)
    ensures
        r@ == u64_bytes(rows@),
        u64_rows(r@) == rows@,
{
    let n: usize = rows.len();
    let mut out: Vec<u8> = Vec::new();
    let mut i: usize = 0;
    while i < n
        invariant
            i <= n,
            n == rows@.len(),
            out@.len() == 8 * i,
            forall|k: int|
                0 <= k < 8 * i ==> out@[k] == u64_le_byte(rows@[k / 8], k % 8),
        decreases n - i,
    {
        let ghost before = out@;
        push_u64_le(&mut out, rows[i]);
        proof {
            assert forall|k: int| 0 <= k < 8 * (i + 1) implies out@[k] == u64_le_byte(
                rows@[k / 8],
                k % 8,
            ) by {
                if k >= 8 * i {
                    assert(k / 8 == i);
                    assert(k % 8 == k - 8 * i);
                    assert(out@[k] == Seq::new(8, |j: int| u64_le_byte(rows@[i as int], j))[k - 8
                        * i]);
                } else {
                    assert(out@[k] == before[k]);
                }
            }
        }
        i += 1;
    }
    assert(out@ =~= u64_bytes(rows@));
    proof {
        lemma_u64_rows_of_bytes(rows@);
    }
    out
}

/// The `u128` whose little-endian bytes are given.
pub open spec fn u128_from_le(
    b0: u8, b1: u8, b2: u8, b3: u8, b4: u8, b5: u8, b6: u8, b7: u8, b8: u8, b9: u8, b10: u8,
    b11: u8, b12: u8, b13: u8, b14: u8, b15: u8,
) -> u128 {
    (b0 as u128) | ((b1 as u128) << 8) | ((b2 as u128) << 16) | ((b3 as u128) << 24)
        | ((b4 as u128) << 32) | ((b5 as u128) << 40) | ((b6 as u128) << 48)
        | ((b7 as u128) << 56) | ((b8 as u128) << 64) | ((b9 as u128) << 72)
        | ((b10 as u128) << 80) | ((b11 as u128) << 88) | ((b12 as u128) << 96)
        | ((b13 as u128) << 104) | ((b14 as u128) << 112) | ((b15 as u128) << 120)
}

/// Byte `k` of the little-endian form of `v`.
pub open spec fn u128_le_byte(v: u128, k: int) -> u8 {
    if k == 0 {
        v as u8
    } else if k == 1 {
        (v >> 8) as u8
    } else if k == 2 {
        (v >> 16) as u8
    } else if k == 3 {
        (v >> 24) as u8
    } else if k == 4 {
        (v >> 32) as u8
    } else if k == 5 {
        (v >> 40) as u8
    } else if k == 6 {
        (v >> 48) as u8
    } else if k == 7 {
        (v >> 56) as u8
    } else if k == 8 {
        (v >> 64) as u8
    } else if k == 9 {
        (v >> 72) as u8
    } else if k == 10 {
        (v >> 80) as u8
    } else if k == 11 {
        (v >> 88) as u8
    } else if k == 12 {
        (v >> 96) as u8
    } else if k == 13 {
        (v >> 104) as u8
    } else if k == 14 {
        (v >> 112) as u8
    } else {
        (v >> 120) as u8
    }
}

/// A value is made of its little-endian bytes, and has no others.
pub proof fn lemma_u128_le_bytes()
    by (bit_vector)
    ensures
        forall|v: u128|
            #[trigger] u128_from_le(
            u128_le_byte(v, 0), u128_le_byte(v, 1), u128_le_byte(v, 2), u128_le_byte(v, 3),
            u128_le_byte(v, 4), u128_le_byte(v, 5), u128_le_byte(v, 6), u128_le_byte(v, 7),
            u128_le_byte(v, 8), u128_le_byte(v, 9), u128_le_byte(v, 10), u128_le_byte(v, 11),
            u128_le_byte(v, 12), u128_le_byte(v, 13), u128_le_byte(v, 14), u128_le_byte(v, 15),
            ) == v,
        forall|
            b0: u8, b1: u8, b2: u8, b3: u8, b4: u8, b5: u8, b6: u8, b7: u8, b8: u8, b9: u8,
            b10: u8, b11: u8, b12: u8, b13: u8, b14: u8, b15: u8,
        |
            #![trigger u128_from_le(
                b0, b1, b2, b3, b4, b5, b6, b7, b8, b9, b10, b11, b12, b13, b14, b15,
            )]
            {
                &&& u128_le_byte(
                    u128_from_le(
                        b0, b1, b2, b3, b4, b5, b6, b7, b8, b9, b10, b11, b12, b13, b14, b15,
                    ),
                    0,
                ) == b0
                &&& u128_le_byte(
                    u128_from_le(
                        b0, b1, b2, b3, b4, b5, b6, b7, b8, b9, b10, b11, b12, b13, b14, b15,
                    ),
                    1,
                ) == b1
                &&& u128_le_byte(
                    u128_from_le(
                        b0, b1, b2, b3, b4, b5, b6, b7, b8, b9, b10, b11, b12, b13, b14, b15,
                    ),
                    2,
                ) == b2
                &&& u128_le_byte(
                    u128_from_le(
                        b0, b1, b2, b3, b4, b5, b6, b7, b8, b9, b10, b11, b12, b13, b14, b15,
                    ),
                    3,
                ) == b3
                &&& u128_le_byte(
                    u128_from_le(
                        b0, b1, b2, b3, b4, b5, b6, b7, b8, b9, b10, b11, b12, b13, b14, b15,
                    ),
                    4,
                ) == b4
                &&& u128_le_byte(
                    u128_from_le(
                        b0, b1, b2, b3, b4, b5, b6, b7, b8, b9, b10, b11, b12, b13, b14, b15,
                    ),
                    5,
                ) == b5
                &&& u128_le_byte(
                    u128_from_le(
                        b0, b1, b2, b3, b4, b5, b6, b7, b8, b9, b10, b11, b12, b13, b14, b15,
                    ),
                    6,
                ) == b6
                &&& u128_le_byte(
                    u128_from_le(
                        b0, b1, b2, b3, b4, b5, b6, b7, b8, b9, b10, b11, b12, b13, b14, b15,
                    ),
                    7,
                ) == b7
                &&& u128_le_byte(
                    u128_from_le(
                        b0, b1, b2, b3, b4, b5, b6, b7, b8, b9, b10, b11, b12, b13, b14, b15,
                    ),
                    8,
                ) == b8
                &&& u128_le_byte(
                    u128_from_le(
                        b0, b1, b2, b3, b4, b5, b6, b7, b8, b9, b10, b11, b12, b13, b14, b15,
                    ),
                    9,
                ) == b9
                &&& u128_le_byte(
                    u128_from_le(
                        b0, b1, b2, b3, b4, b5, b6, b7, b8, b9, b10, b11, b12, b13, b14, b15,
                    ),
                    10,
                ) == b10
                &&& u128_le_byte(
                    u128_from_le(
                        b0, b1, b2, b3, b4, b5, b6, b7, b8, b9, b10, b11, b12, b13, b14, b15,
                    ),
                    11,
                ) == b11
                &&& u128_le_byte(
                    u128_from_le(
                        b0, b1, b2, b3, b4, b5, b6, b7, b8, b9, b10, b11, b12, b13, b14, b15,
                    ),
                    12,
                ) == b12
                &&& u128_le_byte(
                    u128_from_le(
                        b0, b1, b2, b3, b4, b5, b6, b7, b8, b9, b10, b11, b12, b13, b14, b15,
                    ),
                    13,
                ) == b13
                &&& u128_le_byte(
                    u128_from_le(
                        b0, b1, b2, b3, b4, b5, b6, b7, b8, b9, b10, b11, b12, b13, b14, b15,
                    ),
                    14,
                ) == b14
                &&& u128_le_byte(
                    u128_from_le(
                        b0, b1, b2, b3, b4, b5, b6, b7, b8, b9, b10, b11, b12, b13, b14, b15,
                    ),
                    15,
                ) == b15
            },
{
}

/// Row `i` of a column read as `u128` values.
pub open spec fn u128_row(bytes: Seq<u8>, i: int) -> u128 {
    u128_from_le(
        bytes[16 * i], bytes[16 * i + 1], bytes[16 * i + 2], bytes[16 * i + 3],
        bytes[16 * i + 4], bytes[16 * i + 5], bytes[16 * i + 6], bytes[16 * i + 7],
        bytes[16 * i + 8], bytes[16 * i + 9], bytes[16 * i + 10], bytes[16 * i + 11],
        bytes[16 * i + 12], bytes[16 * i + 13], bytes[16 * i + 14], bytes[16 * i + 15],
    )
}

/// A column read as `u128` values.
pub open spec fn u128_rows(bytes: Seq<u8>) -> Seq<u128> {
    Seq::new(bytes.len() / 16, |i: int| u128_row(bytes, i))
}

/// The bytes of a column of `u128` values.
pub open spec fn u128_bytes(rows: Seq<u128>) -> Seq<u8> {
    Seq::new(rows.len() * 16, |k: int| u128_le_byte(rows[k / 16], k % 16))
}

/// Reading back what was written gives the rows written.
pub proof fn lemma_u128_rows_of_bytes(rows: Seq<u128>)
    ensures
        u128_rows(u128_bytes(rows)) == rows,
        u128_bytes(rows).len() == rows.len() * 16,
{
    lemma_u128_le_bytes();
    let bytes = u128_bytes(rows);
    assert forall|i: int| 0 <= i < rows.len() implies u128_row(bytes, i) == rows[i] by {
        let v = rows[i];
        assert(u128_from_le(
            u128_le_byte(v, 0), u128_le_byte(v, 1), u128_le_byte(v, 2), u128_le_byte(v, 3),
            u128_le_byte(v, 4), u128_le_byte(v, 5), u128_le_byte(v, 6), u128_le_byte(v, 7),
            u128_le_byte(v, 8), u128_le_byte(v, 9), u128_le_byte(v, 10), u128_le_byte(v, 11),
            u128_le_byte(v, 12), u128_le_byte(v, 13), u128_le_byte(v, 14), u128_le_byte(v, 15),
        ) == v);
    }
    assert(u128_rows(bytes) =~= rows);
}

/// Writing back what was read gives the bytes read.
pub proof fn lemma_u128_bytes_of_rows(bytes: Seq<u8>)
    requires
        bytes.len() % 16 == 0,
    ensures
        u128_bytes(u128_rows(bytes)) == bytes,
{
    lemma_u128_le_bytes();
    let rows = u128_rows(bytes);
    let back = u128_bytes(rows);
    assert forall|k: int| 0 <= k < bytes.len() implies back[k] == bytes[k] by {
        let i = k / 16;
        assert(rows[i] == u128_from_le(
            bytes[16 * i], bytes[16 * i + 1], bytes[16 * i + 2], bytes[16 * i + 3],
            bytes[16 * i + 4], bytes[16 * i + 5], bytes[16 * i + 6], bytes[16 * i + 7],
            bytes[16 * i + 8], bytes[16 * i + 9], bytes[16 * i + 10], bytes[16 * i + 11],
            bytes[16 * i + 12], bytes[16 * i + 13], bytes[16 * i + 14], bytes[16 * i + 15],
        ));
    }
    assert(back =~= bytes);
}

/// Reads a column as `u128` values.
pub fn read_u128_rows(data: &[u8]) -> (r: Vec<u128>)
    ensures
        r@ == u128_rows(data@),
{
    let n: usize = data.len() / 16;
    let mut out: Vec<u128> = Vec::new();
    let mut i: usize = 0;
    while i < n
        invariant
            i <= n,
            n == data@.len() / 16,
            data@.len() <= usize::MAX,
            out@.len() == i,
            forall|j: int| 0 <= j < i ==> out@[j] == u128_row(data@, j),
        decreases n - i,
    {
        let base: usize = 16 * i;
        let b0: u8 = data[base];
        let b1: u8 = data[base + 1];
        let b2: u8 = data[base + 2];
        let b3: u8 = data[base + 3];
        let b4: u8 = data[base + 4];
        let b5: u8 = data[base + 5];
        let b6: u8 = data[base + 6];
        let b7: u8 = data[base + 7];
        let b8: u8 = data[base + 8];
        let b9: u8 = data[base + 9];
        let b10: u8 = data[base + 10];
        let b11: u8 = data[base + 11];
        let b12: u8 = data[base + 12];
        let b13: u8 = data[base + 13];
        let b14: u8 = data[base + 14];
        let b15: u8 = data[base + 15];
        let v: u128 = (b0 as u128) | ((b1 as u128) << 8) | ((b2 as u128) << 16)
            | ((b3 as u128) << 24) | ((b4 as u128) << 32) | ((b5 as u128) << 40)
            | ((b6 as u128) << 48) | ((b7 as u128) << 56) | ((b8 as u128) << 64)
            | ((b9 as u128) << 72) | ((b10 as u128) << 80) | ((b11 as u128) << 88)
            | ((b12 as u128) << 96) | ((b13 as u128) << 104) | ((b14 as u128) << 112)
            | ((b15 as u128) << 120);
        out.push(v);
        i += 1;
    }
    assert(out@ =~= u128_rows(data@));
    out
}

/// Appends the little-endian bytes of `v`.
fn push_u128_le(out: &mut Vec<u8>, v: u128)
    ensures
        final(out)@ == old(out)@ + Seq::new(16, |k: int| u128_le_byte(v, k)),
{
    out.push(#[verifier::truncate] (v as u8));
    out.push(#[verifier::truncate] ((v >> 8) as u8));
    out.push(#[verifier::truncate] ((v >> 16) as u8));
    out.push(#[verifier::truncate] ((v >> 24) as u8));
    out.push(#[verifier::truncate] ((v >> 32) as u8));
    out.push(#[verifier::truncate] ((v >> 40) as u8));
    out.push(#[verifier::truncate] ((v >> 48) as u8));
    out.push(#[verifier::truncate] ((v >> 56) as u8));
    out.push(#[verifier::truncate] ((v >> 64) as u8));
    out.push(#[verifier::truncate] ((v >> 72) as u8));
    out.push(#[verifier::truncate] ((v >> 80) as u8));
    out.push(#[verifier::truncate] ((v >> 88) as u8));
    out.push(#[verifier::truncate] ((v >> 96) as u8));
    out.push(#[verifier::truncate] ((v >> 104) as u8));
    out.push(#[verifier::truncate] ((v >> 112) as u8));
    out.push(#[verifier::truncate] ((v >> 120) as u8));
    assert(out@ =~= old(out)@ + Seq::new(16, |k: int| u128_le_byte(v, k)));
}

/// The bytes of a column of `u128` values.
pub fn u128_rows_to_bytes(rows: &[u128]) -> (r: Vec<u8>)
    ensures
        r@ == u128_bytes(rows@),
        u128_rows(r@) == rows@,
{
    let n: usize = rows.len();
    let mut out: Vec<u8> = Vec::new();
    let mut i: usize = 0;
    while i < n
        invariant
            i <= n,
            n == rows@.len(),
            out@.len() == 16 * i,
            forall|k: int|
                0 <= k < 16 * i ==> out@[k] == u128_le_byte(rows@[k / 16], k % 16),
        decreases n - i,
    {
        let ghost before = out@;
        push_u128_le(&mut out, rows[i]);
        proof {
            assert forall|k: int| 0 <= k < 16 * (i + 1) implies out@[k] == u128_le_byte(
                rows@[k / 16],
                k % 16,
            ) by {
                if k >= 16 * i {
                    assert(k / 16 == i);
                    assert(k % 16 == k - 16 * i);
                    assert(out@[k] == Seq::new(16, |j: int| u128_le_byte(rows@[i as int], j))[k - 16
                        * i]);
                } else {
                    assert(out@[k] == before[k]);
                }
            }
        }
        i += 1;
    }
    assert(out@ =~= u128_bytes(rows@));
    proof {
        lemma_u128_rows_of_bytes(rows@);
    }
    out
}

/// Bit `k` of a byte.
pub open spec fn byte_bit(b: u8, k: int) -> bool {
    (b >> (k as u8)) & 1 == 1
}

/// The byte `b` with bit `k` set to `v`.
pub open spec fn byte_with_bit(b: u8, k: int, v: bool) -> u8 {
    if v {
        b | (1u8 << (k as u8))
    } else {
        b & !(1u8 << (k as u8))
    }
}

/// Row `i` of a column read as bits.
pub open spec fn bit_row(bytes: Seq<u8>, i: int) -> bool {
    byte_bit(bytes[i / 8], i % 8)
}

/// A column read as bits.
pub open spec fn bit_rows(bytes: Seq<u8>) -> Seq<bool> {
    Seq::new(bytes.len() * 8, |i: int| bit_row(bytes, i))
}

proof fn lemma_byte_with_bit(b: u8, k: u8, m: u8, v: bool)
    by (bit_vector)
    requires
        k < 8,
        m < 8,
    ensures
        ((if v {
            b | (1u8 << k)
        } else {
            b & !(1u8 << k)
        }) >> m) & 1 == 1 <==> (if m == k {
            v
        } else {
            (b >> m) & 1 == 1
        }),
{
}

/// Setting a bit changes that bit and no other.
pub proof fn lemma_bit_rows_update(bytes: Seq<u8>, i: int, v: bool)
    requires
        0 <= i < bytes.len() * 8,
    ensures
        bit_rows(bytes.update(i / 8, byte_with_bit(bytes[i / 8], i % 8, v))) == bit_rows(
            bytes,
        ).update(i, v),
{
    let after = bytes.update(i / 8, byte_with_bit(bytes[i / 8], i % 8, v));
    assert forall|j: int| 0 <= j < bytes.len() * 8 implies bit_row(after, j) == bit_rows(
        bytes,
    ).update(i, v)[j] by {
        if j / 8 == i / 8 {
            lemma_byte_with_bit(bytes[i / 8], (i % 8) as u8, (j % 8) as u8, v);
        }
    }
    assert(bit_rows(after) =~= bit_rows(bytes).update(i, v));
}

/// Reads bit `i` of a column.
pub fn get_bit(data: &[u8], i: usize) -> (r: bool)
    requires
        i < data@.len() * 8,
    ensures
        r == bit_row(data@, i as int),
{
    let k: u8 = (i % 8) as u8;
    (data[i / 8] >> k) & 1 == 1
}

/// Writes bit `i` of a column.
pub fn set_bit(data: &mut [u8], i: usize, v: bool)
    requires
        i < old(data)@.len() * 8,
    ensures
        final(data)@.len() == old(data)@.len(),
        bit_rows(final(data)@) == bit_rows(old(data)@).update(i as int, v),
{
    let k: u8 = (i % 8) as u8;
    let b: u8 = data[i / 8];
    let updated: u8 = if v {
        b | (1u8 << k)
    } else {
        b & !(1u8 << k)
    };
    data[i / 8] = updated;
    proof {
        lemma_bit_rows_update(old(data)@, i as int, v);
    }
}

/// The byte whose bits, from the lowest up, are given.
pub open spec fn byte_from_bits(
    b0: bool,
    b1: bool,
    b2: bool,
    b3: bool,
    b4: bool,
    b5: bool,
    b6: bool,
    b7: bool,
) -> u8 {
    (if b0 { 1u8 } else { 0u8 }) | (if b1 { 2u8 } else { 0u8 }) | (if b2 { 4u8 } else { 0u8 }) | (if b3 {
        8u8
    } else {
        0u8
    }) | (if b4 { 16u8 } else { 0u8 }) | (if b5 { 32u8 } else { 0u8 }) | (if b6 { 64u8 } else { 0u8 })
        | (if b7 { 128u8 } else { 0u8 })
}

/// The bytes of a column of bits.
pub open spec fn bit_bytes(bits: Seq<bool>) -> Seq<u8> {
    Seq::new(
        bits.len() / 8,
        |k: int|
            byte_from_bits(
                bits[8 * k],
                bits[8 * k + 1],
                bits[8 * k + 2],
                bits[8 * k + 3],
                bits[8 * k + 4],
                bits[8 * k + 5],
                bits[8 * k + 6],
                bits[8 * k + 7],
            ),
    )
}

proof fn lemma_byte_from_bits(
    b0: bool,
    b1: bool,
    b2: bool,
    b3: bool,
    b4: bool,
    b5: bool,
    b6: bool,
    b7: bool,
)
    by (bit_vector)
    ensures
        (byte_from_bits(b0, b1, b2, b3, b4, b5, b6, b7) >> 0u8) & 1 == 1 <==> b0,
        (byte_from_bits(b0, b1, b2, b3, b4, b5, b6, b7) >> 1u8) & 1 == 1 <==> b1,
        (byte_from_bits(b0, b1, b2, b3, b4, b5, b6, b7) >> 2u8) & 1 == 1 <==> b2,
        (byte_from_bits(b0, b1, b2, b3, b4, b5, b6, b7) >> 3u8) & 1 == 1 <==> b3,
        (byte_from_bits(b0, b1, b2, b3, b4, b5, b6, b7) >> 4u8) & 1 == 1 <==> b4,
        (byte_from_bits(b0, b1, b2, b3, b4, b5, b6, b7) >> 5u8) & 1 == 1 <==> b5,
        (byte_from_bits(b0, b1, b2, b3, b4, b5, b6, b7) >> 6u8) & 1 == 1 <==> b6,
        (byte_from_bits(b0, b1, b2, b3, b4, b5, b6, b7) >> 7u8) & 1 == 1 <==> b7,
{
}

/// Reading back the bits that were written gives the bits written.
pub proof fn lemma_bit_rows_of_bytes(bits: Seq<bool>)
    requires
        bits.len() % 8 == 0,
    ensures
        bit_rows(bit_bytes(bits)) == bits,
{
    let bytes = bit_bytes(bits);
    assert forall|i: int| 0 <= i < bits.len() implies bit_row(bytes, i) == bits[i] by {
        let k = i / 8;
        lemma_byte_from_bits(
            bits[8 * k],
            bits[8 * k + 1],
            bits[8 * k + 2],
            bits[8 * k + 3],
            bits[8 * k + 4],
            bits[8 * k + 5],
            bits[8 * k + 6],
            bits[8 * k + 7],
        );
    }
    assert(bit_rows(bytes) =~= bits);
}

/// Packs eight bits into a byte, the first bit lowest.
pub fn pack_byte(
    b0: bool,
    b1: bool,
    b2: bool,
    b3: bool,
    b4: bool,
    b5: bool,
    b6: bool,
    b7: bool,
) -> (r: u8)
    ensures
        r == byte_from_bits(b0, b1, b2, b3, b4, b5, b6, b7),
{
    (if b0 { 1u8 } else { 0u8 }) | (if b1 { 2u8 } else { 0u8 }) | (if b2 { 4u8 } else { 0u8 }) | (if b3 {
        8u8
    } else {
        0u8
    }) | (if b4 { 16u8 } else { 0u8 }) | (if b5 { 32u8 } else { 0u8 }) | (if b6 { 64u8 } else { 0u8 })
        | (if b7 { 128u8 } else { 0u8 })
}

/// The `u16` whose little-endian bytes are given.
pub open spec fn u16_from_le(b0: u8, b1: u8) -> u16 {
    (b0 as u16) | ((b1 as u16) << 8)
}

/// Row `i` of a column read as `u16` values.
pub open spec fn u16_row(bytes: Seq<u8>, i: int) -> u16 {
    u16_from_le(bytes[2 * i], bytes[2 * i + 1])
}

/// Row `i` of a column of elements of the given tower level, of at least a
/// byte each.
pub open spec fn value_row(bytes: Seq<u8>, tower_level: usize, i: int) -> u128 {
    if tower_level <= 3 {
        bytes[i] as u128
    } else if tower_level == 4 {
        u16_row(bytes, i) as u128
    } else if tower_level == 5 {
        u32_row(bytes, i) as u128
    } else if tower_level == 6 {
        u64_row(bytes, i) as u128
    } else {
        u128_row(bytes, i)
    }
}

/// The number of bytes of an element of the given tower level, of at least
/// a byte.
pub open spec fn value_bytes(tower_level: usize) -> nat {
    if tower_level <= 3 {
        1
    } else if tower_level == 4 {
        2
    } else if tower_level == 5 {
        4
    } else if tower_level == 6 {
        8
    } else {
        16
    }
}

/// A column read as elements of the given tower level, of at least a byte
/// each.
pub open spec fn value_rows(bytes: Seq<u8>, tower_level: usize) -> Seq<u128> {
    Seq::new(bytes.len() / value_bytes(tower_level), |i: int| value_row(bytes, tower_level, i))
}

/// Reads a column as elements of the given tower level.
pub fn read_value_rows(data: &[u8], tower_level: usize) -> (r: Vec<u128>)
    requires
        3 <= tower_level <= 7,
    ensures
        r@ == value_rows(data@, tower_level),
{
    let width: usize = if tower_level == 3 {
        1
    } else if tower_level == 4 {
        2
    } else if tower_level == 5 {
        4
    } else if tower_level == 6 {
        8
    } else {
        16
    };
    let n: usize = data.len() / width;
    let mut out: Vec<u128> = Vec::new();
    if tower_level == 5 {
        let rows = read_u32_rows(data);
        let mut i: usize = 0;
        while i < n
            invariant
                i <= n,
                n == rows@.len(),
                rows@ == u32_rows(data@),
                tower_level == 5,
                out@.len() == i,
                forall|j: int| 0 <= j < i ==> out@[j] == value_row(data@, tower_level, j),
            decreases n - i,
        {
            out.push(rows[i] as u128);
            i += 1;
        }
    } else if tower_level == 6 {
        let rows = read_u64_rows(data);
        let mut i: usize = 0;
        while i < n
            invariant
                i <= n,
                n == rows@.len(),
                rows@ == u64_rows(data@),
                tower_level == 6,
                out@.len() == i,
                forall|j: int| 0 <= j < i ==> out@[j] == value_row(data@, tower_level, j),
            decreases n - i,
        {
            out.push(rows[i] as u128);
            i += 1;
        }
    } else if tower_level == 7 {
        out = read_u128_rows(data);
    } else {
        let mut i: usize = 0;
        while i < n
            invariant
                i <= n,
                n == data@.len() / (width as nat),
                width == value_bytes(tower_level),
                data@.len() <= usize::MAX,
                3 <= tower_level <= 4,
                out@.len() == i,
                forall|j: int| 0 <= j < i ==> out@[j] == value_row(data@, tower_level, j),
            decreases n - i,
        {
            let v: u128 = if tower_level == 3 {
                data[i] as u128
            } else {
                let b0: u8 = data[2 * i];
                let b1: u8 = data[2 * i + 1];
                ((b0 as u16) | ((b1 as u16) << 8)) as u128
            };
            out.push(v);
            i += 1;
        }
    }
    assert(out@ =~= value_rows(data@, tower_level));
    out
}

/// The given bits followed by zeros, as many as `n_bytes` bytes hold.
pub open spec fn padded_bits(bits: Seq<bool>, n_bytes: nat) -> Seq<bool> {
    Seq::new(8 * n_bytes, |i: int| i < bits.len() && bits[i])
}

/// Whether bit `8 * k + j` exists and is set.
fn padded_bit(bits: &[bool], k: usize, j: u8) -> (r: bool)
    requires
        j < 8,
    ensures
        r == (8 * k + j < bits@.len() && bits@[8 * k + j]),
{
    let i: u128 = (k as u128) * 8 + (j as u128);
    if i < bits.len() as u128 {
        bits[i as usize]
    } else {
        false
    }
}

/// The bytes of a column of `n_bytes` bytes that holds the given bits.
pub fn pack_bits(bits: &[bool], n_bytes: usize) -> (r: Vec<u8>)
    ensures
        r@ == bit_bytes(padded_bits(bits@, n_bytes as nat)),
{
    let ghost padded = padded_bits(bits@, n_bytes as nat);
    let mut out: Vec<u8> = Vec::new();
    let mut k: usize = 0;
    while k < n_bytes
        invariant
            k <= n_bytes,
            padded == padded_bits(bits@, n_bytes as nat),
            out@.len() == k,
            forall|i: int| 0 <= i < k ==> out@[i] == bit_bytes(padded)[i],
        decreases n_bytes - k,
    {
        let b0 = padded_bit(bits, k, 0);
        let b1 = padded_bit(bits, k, 1);
        let b2 = padded_bit(bits, k, 2);
        let b3 = padded_bit(bits, k, 3);
        let b4 = padded_bit(bits, k, 4);
        let b5 = padded_bit(bits, k, 5);
        let b6 = padded_bit(bits, k, 6);
        let b7 = padded_bit(bits, k, 7);
        out.push(pack_byte(b0, b1, b2, b3, b4, b5, b6, b7));
        k += 1;
    }
    assert(out@ =~= bit_bytes(padded));
    out
}

} // verus!
