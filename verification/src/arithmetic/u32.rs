//! Gadgets on columns of bits read as 32-bit unsigned integers.
//!
//! Each row of 32 bits of a one-bit column is one integer, its lowest bit
//! first. A gadget declares the oracles and constraints of an operation and,
//! when the builder holds a witness, fills the columns of the new oracles.

use crate::arithmetic::Flags;
use crate::builder::{
    column_defect, first_defect, lemma_committed_shape, log_rows_spec, with_column, BuilderView,
    ConstraintSystemBuilder,
};
use crate::builder::witness::layout::lemma_column_len_monotonic;
use crate::constraint::{ArithExpr, ConstraintView};
use crate::error::Error;
use crate::names::{decimal, numbered};
use crate::oracle::{OracleId, ProjectionVariant, ShiftVariant};
use crate::rows::shifted_source;
use crate::builder::witness::layout::{checked_column_len, column_len};
use crate::builder::witness::views::{
    bit_bytes, lemma_u32_rows_of_bytes, pack_byte, u32_bytes, u32_rows,
};
use crate::builder::witness::{
    entry_of, get_spec, lemma_entry_of_table_with, table_with, EntryView,
};
use vstd::prelude::*;

verus! {

/// The number of variables of a block of 32 bits.
pub const LOG_WORD_BITS: usize = 5;

/// The number of 32-bit words in a one-bit column of `2^log_rows` rows.
pub open spec fn word_count(log_rows: usize) -> nat {
    column_len(log_rows, 0) / 4
}

/// The one-bit column of `2^log_rows` rows that holds the given words.
pub open spec fn u32_entry(log_rows: usize, rows: Seq<u32>) -> EntryView {
    EntryView { log_rows, tower_level: 0, data: u32_bytes(rows) }
}

/// The one-bit column of `2^log_rows` rows that holds the given bits.
pub open spec fn bit_entry(log_rows: usize, bits: Seq<bool>) -> EntryView {
    EntryView { log_rows, tower_level: 0, data: bit_bytes(bits) }
}

/// The words of the one-bit column stored for oracle `id`.
pub open spec fn input_rows(table: Seq<Option<EntryView>>, id: OracleId) -> Seq<u32> {
    u32_rows(get_spec(table, id, 0)->Ok_0)
}

/// Why the one-bit column of oracle `id` cannot be read, if the builder
/// holds a witness and it cannot.
pub open spec fn input_defect(b: BuilderView, id: OracleId) -> Option<Error> {
    match b.witness {
        None => None,
        Some(table) => match get_spec(table, id, 0) {
            Err(e) => Some(Error::Witness(e)),
            Ok(_) => None,
        },
    }
}

/// A word moved by `offset` bits.
pub open spec fn shift_word(x: u32, offset: usize, variant: ShiftVariant) -> u32 {
    match variant {
        ShiftVariant::LogicalLeft => x << (offset as u32),
        ShiftVariant::LogicalRight => x >> (offset as u32),
        ShiftVariant::CircularLeft => (x << (offset as u32)) | (x >> ((32 - offset) as u32)),
    }
}

/// The first `n` words of a column, each moved by `offset` bits; words that
/// the input lacks are zero.
pub open spec fn shift_rows(xs: Seq<u32>, n: nat, offset: usize, variant: ShiftVariant) -> Seq<
    u32,
> {
    Seq::new(
        n,
        |i: int|
            if i < xs.len() {
                shift_word(xs[i], offset, variant)
            } else {
                0
            },
    )
}

/// Bit `index` of each of the first `n` words of a column.
pub open spec fn selected_bits(xs: Seq<u32>, n: nat, index: usize) -> Seq<bool> {
    Seq::new(n, |i: int| i < xs.len() && (xs[i] >> (index as u32)) & 1 == 1)
}

/// The sum of two words, modulo `2^32`.
pub open spec fn adder_sum(x: u32, y: u32) -> u32 {
    if x + y >= 0x1_0000_0000 {
        (x + y - 0x1_0000_0000) as u32
    } else {
        (x + y) as u32
    }
}

/// The carries into the bits of the sum of two words.
pub open spec fn adder_cin(x: u32, y: u32) -> u32 {
    x ^ y ^ adder_sum(x, y)
}

/// The carries out of the bits of the sum of two words. The carry out of
/// the top bit is set exactly when the sum overflows.
pub open spec fn adder_cout(x: u32, y: u32) -> u32 {
    (if x + y >= 0x1_0000_0000 {
        0x8000_0000u32
    } else {
        0u32
    }) | (adder_cin(x, y) >> 1)
}

/// The difference of two words, modulo `2^32`.
pub open spec fn subtractor_diff(z: u32, y: u32) -> u32 {
    if z < y {
        (z - y + 0x1_0000_0000) as u32
    } else {
        (z - y) as u32
    }
}

/// The borrows into the bits of the difference of two words.
pub open spec fn subtractor_cin(z: u32, y: u32) -> u32 {
    subtractor_diff(z, y) ^ y ^ z
}

/// The borrows out of the bits of the difference of two words. The borrow
/// out of the top bit is set exactly when the difference underflows.
pub open spec fn subtractor_cout(z: u32, y: u32) -> u32 {
    (if z < y {
        0x8000_0000u32
    } else {
        0u32
    }) | (subtractor_cin(z, y) >> 1)
}

/// The three columns that the carry chain computes.
#[derive(Clone, Copy, Debug, PartialEq, Eq, Structural)]
pub enum ChainColumn {
    /// The sum, or the difference.
    Out,
    /// The carries, or borrows, out of each bit.
    Cout,
    /// The carries, or borrows, into each bit.
    Cin,
}

/// The composition `x + y + cin - z` of the sum relation.
pub open spec fn sum_composition() -> ArithExpr {
    ArithExpr::Add(
        Box::new(
            ArithExpr::Add(
                Box::new(ArithExpr::Add(Box::new(ArithExpr::Var(0)), Box::new(ArithExpr::Var(1)))),
                Box::new(ArithExpr::Var(2)),
            ),
        ),
        Box::new(ArithExpr::Var(3)),
    )
}

/// The composition `(x + cin) * (y + cin) + cin - cout` of the carry
/// relation.
pub open spec fn carry_composition() -> ArithExpr {
    ArithExpr::Add(
        Box::new(
            ArithExpr::Add(
                Box::new(
                    ArithExpr::Mul(
                        Box::new(
                            ArithExpr::Add(
                                Box::new(ArithExpr::Var(0)),
                                Box::new(ArithExpr::Var(2)),
                            ),
                        ),
                        Box::new(
                            ArithExpr::Add(
                                Box::new(ArithExpr::Var(1)),
                                Box::new(ArithExpr::Var(2)),
                            ),
                        ),
                    ),
                ),
                Box::new(ArithExpr::Var(2)),
            ),
        ),
        Box::new(ArithExpr::Var(3)),
    )
}

/// The composition `x` that asserts a column to be zero.
pub open spec fn identity_composition() -> ArithExpr {
    ArithExpr::Var(0)
}

fn make_sum_composition() -> (r: ArithExpr)
    ensures
        r == sum_composition(),
{
    ArithExpr::var(0).plus(ArithExpr::var(1)).plus(ArithExpr::var(2)).plus(ArithExpr::var(3))
}

fn make_carry_composition() -> (r: ArithExpr)
    ensures
        r == carry_composition(),
{
    ArithExpr::var(0).plus(ArithExpr::var(2)).times(ArithExpr::var(1).plus(ArithExpr::var(2))).plus(
        ArithExpr::var(2),
    ).plus(ArithExpr::var(3))
}

proof fn lemma_adder_bits(x: u32, y: u32, z: u32)
    by (bit_vector)
    requires
        z == (if x + y >= 0x1_0000_0000 {
            (x + y - 0x1_0000_0000) as u32
        } else {
            (x + y) as u32
        }),
    ensures
        ({
            let cin = x ^ y ^ z;
            let cout = (if x + y >= 0x1_0000_0000 {
                0x8000_0000u32
            } else {
                0u32
            }) | (cin >> 1);
            &&& ((x ^ y) ^ cin) ^ z == 0
            &&& (((x ^ cin) & (y ^ cin)) ^ cin) ^ cout == 0
            &&& cin == cout << 1
            &&& ((cout >> 31) & 1 == 1 <==> x + y >= 0x1_0000_0000)
        }),
{
}

/// The witness of the adder satisfies the sum relation and the carry
/// relation on every bit, the carries in are the carries out moved up by
/// one bit, and the bit that the overflow check asserts to be zero is set
/// exactly when the sum of the two words does not fit in 32 bits.
pub proof fn lemma_adder_correct(x: u32, y: u32)
    ensures
        adder_sum(x, y) == (x + y) % 0x1_0000_0000,
        sum_composition().eval_u32(seq![x, y, adder_cin(x, y), adder_sum(x, y)]) == 0,
        carry_composition().eval_u32(seq![x, y, adder_cin(x, y), adder_cout(x, y)]) == 0,
        adder_cin(x, y) == shift_word(adder_cout(x, y), 1, ShiftVariant::LogicalLeft),
        selected_bits(seq![adder_cout(x, y)], 1, 31)[0] <==> x + y >= 0x1_0000_0000,
{
    lemma_adder_bits(x, y, adder_sum(x, y));
    reveal_with_fuel(ArithExpr::eval_u32, 6);
    let vs = seq![x, y, adder_cin(x, y), adder_sum(x, y)];
    assert(vs[0] == x && vs[1] == y && vs[2] == adder_cin(x, y) && vs[3] == adder_sum(x, y));
    let vc = seq![x, y, adder_cin(x, y), adder_cout(x, y)];
    assert(vc[0] == x && vc[1] == y && vc[2] == adder_cin(x, y) && vc[3] == adder_cout(x, y));
    let vo = seq![adder_cout(x, y)];
    assert(vo[0] == adder_cout(x, y));
}

/// The words of a column, each moved by `offset` bits.
fn shifted_rows(xs: &[u32], n: usize, offset: usize, variant: ShiftVariant) -> (r: Vec<u32>)
    requires
        0 < offset < 32,
    ensures
        r@ == shift_rows(xs@, n as nat, offset, variant),
{
    let len: usize = xs.len();
    let shift: u32 = offset as u32;
    let mut out: Vec<u32> = Vec::new();
    let mut i: usize = 0;
    while i < n
        invariant
            i <= n,
            len == xs@.len(),
            0 < offset < 32,
            shift == offset as u32,
            out@.len() == i,
            forall|j: int| 0 <= j < i ==> out@[j] == shift_rows(xs@, n as nat, offset, variant)[j],
        decreases n - i,
    {
        let w: u32 = if i < len {
            let x: u32 = xs[i];
            match variant {
                ShiftVariant::LogicalLeft => x << shift,
                ShiftVariant::LogicalRight => x >> shift,
                ShiftVariant::CircularLeft => (x << shift) | (x >> (32 - shift)),
            }
        } else {
            0
        };
        out.push(w);
        i += 1;
    }
    assert(out@ =~= shift_rows(xs@, n as nat, offset, variant));
    out
}

/// Why `shift`, or `shl` or `shr` by a non-zero offset, fails, if it does.
pub open spec fn shift_defect(b: BuilderView, input: OracleId, offset: usize) -> Option<Error> {
    match b.oracles.shifted_defect(input, offset, LOG_WORD_BITS) {
        Some(e) => Some(Error::Oracle(e)),
        None => first_defect(
            input_defect(b, input),
            column_defect(b, b.oracles.oracles[input as int].n_vars, 0),
        ),
    }
}

/// The builder after `shift`, or after `shl` or `shr` by a non-zero
/// offset: one more oracle, and its column.
pub open spec fn shift_state(
    b: BuilderView,
    name: Seq<char>,
    input: OracleId,
    offset: usize,
    variant: ShiftVariant,
) -> BuilderView {
    let log_rows = b.oracles.oracles[input as int].n_vars;
    let b1 = b.with_oracle(b.oracles.shifted(b.named(name), input, offset, LOG_WORD_BITS, variant));
    match b.witness {
        Some(table) => b1.with_witness(
            table_with(
                table,
                b.next_oracle_id(),
                u32_entry(
                    log_rows,
                    shift_rows(input_rows(table, input), word_count(log_rows), offset, variant),
                ),
            ),
        ),
        None => b1,
    }
}

/// Declares the shift or the rotation of every word of `input` by `offset`
/// bits, and fills its column.
pub fn shift(
    builder: &mut ConstraintSystemBuilder,
    name: &str,
    input: OracleId,
    offset: usize,
    variant: ShiftVariant,
) -> (r: Result<OracleId, Error>)
    requires
        old(builder)@.wf(),
    ensures
        final(builder)@.wf(),
        match shift_defect(old(builder)@, input, offset) {
            Some(e) => r == Err::<OracleId, Error>(e),
            None => r == Ok::<OracleId, Error>(old(builder)@.next_oracle_id()) && final(builder)@
                == shift_state(old(builder)@, name@, input, offset, variant),
        },
{
    let shifted: usize = match builder.add_shifted(name, input, offset, LOG_WORD_BITS, variant) {
        Ok(id) => id,
        Err(e) => {
            return Err(Error::Oracle(e));
        },
    };
    proof {
        vstd::arithmetic::power2::lemma2_to64();
    }
    let log_rows: usize = builder.oracles().n_vars(input);
    match builder.witness() {
        Some(witness) => {
            let xs = match witness.load_u32(input, 0) {
                Ok(v) => v,
                Err(e) => {
                    return Err(Error::Witness(e));
                },
            };
            let len: usize = match checked_column_len(log_rows, 0) {
                Some(l) => l,
                None => {
                    return Err(Error::ColumnTooLarge { log_rows, tower_level: 0 });
                },
            };
            let rows = shifted_rows(xs.as_slice(), len / 4, offset, variant);
            witness.store_u32(shifted, log_rows, 0, rows.as_slice());
        },
        None => {},
    }
    Ok(shifted)
}

/// Declares `input << offset` on every word. With offset zero the input
/// itself is the result.
pub fn shl(builder: &mut ConstraintSystemBuilder, name: &str, input: OracleId, offset: usize) -> (r:
    Result<OracleId, Error>)
    requires
        old(builder)@.wf(),
    ensures
        final(builder)@.wf(),
        offset == 0 ==> r == Ok::<OracleId, Error>(input) && final(builder)@ == old(builder)@,
        offset != 0 ==> match shift_defect(old(builder)@, input, offset) {
            Some(e) => r == Err::<OracleId, Error>(e),
            None => r == Ok::<OracleId, Error>(old(builder)@.next_oracle_id()) && final(builder)@
                == shift_state(old(builder)@, name@, input, offset, ShiftVariant::LogicalLeft),
        },
{
    if offset == 0 {
        return Ok(input);
    }
    shift(builder, name, input, offset, ShiftVariant::LogicalLeft)
}

/// Declares `input >> offset` on every word. With offset zero the input
/// itself is the result.
pub fn shr(builder: &mut ConstraintSystemBuilder, name: &str, input: OracleId, offset: usize) -> (r:
    Result<OracleId, Error>)
    requires
        old(builder)@.wf(),
    ensures
        final(builder)@.wf(),
        offset == 0 ==> r == Ok::<OracleId, Error>(input) && final(builder)@ == old(builder)@,
        offset != 0 ==> match shift_defect(old(builder)@, input, offset) {
            Some(e) => r == Err::<OracleId, Error>(e),
            None => r == Ok::<OracleId, Error>(old(builder)@.next_oracle_id()) && final(builder)@
                == shift_state(old(builder)@, name@, input, offset, ShiftVariant::LogicalRight),
        },
{
    if offset == 0 {
        return Ok(input);
    }
    shift(builder, name, input, offset, ShiftVariant::LogicalRight)
}

/// The point of the boolean hypercube of five variables whose index is
/// `index`: its bits, the lowest first, as field elements.
pub open spec fn index_point(index: usize) -> Seq<u128> {
    Seq::new(
        5,
        |k: int|
            if (index >> (k as usize)) & 1 == 1 {
                1u128
            } else {
                0u128
            },
    )
}

fn make_index_point(index: usize) -> (r: Vec<u128>)
    ensures
        r@ == index_point(index),
{
    let mut out: Vec<u128> = Vec::new();
    let mut k: usize = 0;
    while k < 5
        invariant
            k <= 5,
            out@.len() == k,
            forall|j: int| 0 <= j < k ==> out@[j] == index_point(index)[j],
        decreases 5 - k,
    {
        let v: u128 = if (index >> k) & 1 == 1 {
            1
        } else {
            0
        };
        out.push(v);
        k += 1;
    }
    assert(out@ =~= index_point(index));
    out
}

/// Whether word `8 * k + j` exists and has its bit `index` set.
fn selected_bit(xs: &[u32], k: usize, j: u8, index: u32) -> (r: bool)
    requires
        j < 8,
        index < 32,
    ensures
        r == (8 * k + j < xs@.len() && (xs@[8 * k + j] >> index) & 1 == 1),
{
    let i: u128 = (k as u128) * 8 + (j as u128);
    if i < xs.len() as u128 {
        (xs[i as usize] >> index) & 1 == 1
    } else {
        false
    }
}

/// The bytes of the column of the bits `index` of the given words.
fn selected_bytes(xs: &[u32], n_bytes: usize, index: usize) -> (r: Vec<u8>)
    requires
        index < 32,
    ensures
        r@ == bit_bytes(selected_bits(xs@, (8 * n_bytes) as nat, index)),
{
    let shift: u32 = index as u32;
    let ghost bits = selected_bits(xs@, (8 * n_bytes) as nat, index);
    let mut out: Vec<u8> = Vec::new();
    let mut k: usize = 0;
    while k < n_bytes
        invariant
            k <= n_bytes,
            index < 32,
            shift == index as u32,
            bits == selected_bits(xs@, (8 * n_bytes) as nat, index),
            out@.len() == k,
            forall|i: int| 0 <= i < k ==> out@[i] == bit_bytes(bits)[i],
        decreases n_bytes - k,
    {
        let b0 = selected_bit(xs, k, 0, shift);
        let b1 = selected_bit(xs, k, 1, shift);
        let b2 = selected_bit(xs, k, 2, shift);
        let b3 = selected_bit(xs, k, 3, shift);
        let b4 = selected_bit(xs, k, 4, shift);
        let b5 = selected_bit(xs, k, 5, shift);
        let b6 = selected_bit(xs, k, 6, shift);
        let b7 = selected_bit(xs, k, 7, shift);
        out.push(pack_byte(b0, b1, b2, b3, b4, b5, b6, b7));
        k += 1;
    }
    assert(out@ =~= bit_bytes(bits));
    out
}

/// Why `select_bit` fails, if it does.
pub open spec fn select_bit_defect(b: BuilderView, input: OracleId, index: usize) -> Option<Error> {
    match log_rows_spec(b.oracles.oracles, seq![input]) {
        Err(e) => Some(e),
        Ok(log_rows) => if log_rows < LOG_WORD_BITS {
            Some(Error::NotEnoughVariables { n_vars: log_rows })
        } else if index >= 32 {
            Some(Error::BitIndexOutOfRange { index })
        } else {
            first_defect(
                input_defect(b, input),
                column_defect(b, (log_rows - LOG_WORD_BITS) as usize, 0),
            )
        },
    }
}

/// The builder after `select_bit`: one more oracle, the projection of the
/// input on bit `index` of every word, and its column.
pub open spec fn select_bit_state(
    b: BuilderView,
    name: Seq<char>,
    input: OracleId,
    index: usize,
) -> BuilderView {
    let log_rows = b.oracles.oracles[input as int].n_vars;
    let out_rows = (log_rows - LOG_WORD_BITS) as usize;
    let b1 = b.with_oracle(
        b.oracles.projected(b.named(name), input, index_point(index), ProjectionVariant::FirstVars),
    );
    match b.witness {
        Some(table) => b1.with_witness(
            table_with(
                table,
                b.next_oracle_id(),
                bit_entry(
                    out_rows,
                    selected_bits(input_rows(table, input), 8 * column_len(out_rows, 0), index),
                ),
            ),
        ),
        None => b1,
    }
}

/// Declares the oracle of bit `index` of every word of `input`, and fills
/// its column.
pub fn select_bit(
    builder: &mut ConstraintSystemBuilder,
    name: &str,
    input: OracleId,
    index: usize,
) -> (r: Result<OracleId, Error>)
    requires
        old(builder)@.wf(),
    ensures
        final(builder)@.wf(),
        match select_bit_defect(old(builder)@, input, index) {
            Some(e) => r == Err::<OracleId, Error>(e),
            None => r == Ok::<OracleId, Error>(old(builder)@.next_oracle_id()) && final(builder)@
                == select_bit_state(old(builder)@, name@, input, index),
        },
{
    let ids: Vec<OracleId> = vec![input];
    assert(ids@ =~= seq![input]);
    let log_rows: usize = match builder.log_rows(ids.as_slice()) {
        Ok(n) => n,
        Err(e) => {
            return Err(e);
        },
    };
    if log_rows < LOG_WORD_BITS {
        return Err(Error::NotEnoughVariables { n_vars: log_rows });
    }
    if index >= 32 {
        return Err(Error::BitIndexOutOfRange { index });
    }
    let query = make_index_point(index);
    let bits: usize = match builder.add_projected(name, input, query, ProjectionVariant::FirstVars) {
        Ok(id) => id,
        Err(e) => {
            return Err(Error::Oracle(e));
        },
    };
    let out_rows: usize = log_rows - LOG_WORD_BITS;
    match builder.witness() {
        Some(witness) => {
            let xs = match witness.load_u32(input, 0) {
                Ok(v) => v,
                Err(e) => {
                    return Err(Error::Witness(e));
                },
            };
            let len: usize = match checked_column_len(out_rows, 0) {
                Some(l) => l,
                None => {
                    return Err(Error::ColumnTooLarge { log_rows: out_rows, tower_level: 0 });
                },
            };
            let bytes = selected_bytes(xs.as_slice(), len, index);
            witness.store_bytes(bits, out_rows, 0, bytes.as_slice());
        },
        None => {},
    }
    Ok(bits)
}

proof fn lemma_subtractor_bits(z: u32, y: u32, x: u32)
    by (bit_vector)
    requires
        x == (if z < y {
            (z - y + 0x1_0000_0000) as u32
        } else {
            (z - y) as u32
        }),
    ensures
        ({
            let cin = x ^ y ^ z;
            let cout = (if z < y {
                0x8000_0000u32
            } else {
                0u32
            }) | (cin >> 1);
            &&& ((x ^ y) ^ cin) ^ z == 0
            &&& (((x ^ cin) & (y ^ cin)) ^ cin) ^ cout == 0
            &&& cin == cout << 1
            &&& ((cout >> 31) & 1 == 1 <==> z < y)
        }),
{
}

/// The witness of the subtractor satisfies the sum relation and the carry
/// relation on every bit, the borrows in are the borrows out moved up by
/// one bit, and the bit that the underflow check asserts to be zero is set
/// exactly when the difference of the two words is negative.
pub proof fn lemma_subtractor_correct(z: u32, y: u32)
    ensures
        subtractor_diff(z, y) == (z - y) % 0x1_0000_0000,
        sum_composition().eval_u32(seq![subtractor_diff(z, y), y, subtractor_cin(z, y), z]) == 0,
        carry_composition().eval_u32(
            seq![subtractor_diff(z, y), y, subtractor_cin(z, y), subtractor_cout(z, y)],
        ) == 0,
        subtractor_cin(z, y) == shift_word(subtractor_cout(z, y), 1, ShiftVariant::LogicalLeft),
        selected_bits(seq![subtractor_cout(z, y)], 1, 31)[0] <==> z < y,
{
    lemma_subtractor_bits(z, y, subtractor_diff(z, y));
    reveal_with_fuel(ArithExpr::eval_u32, 6);
    let vs = seq![subtractor_diff(z, y), y, subtractor_cin(z, y), z];
    assert(vs[0] == subtractor_diff(z, y) && vs[1] == y && vs[2] == subtractor_cin(z, y) && vs[3]
        == z);
    let vc = seq![subtractor_diff(z, y), y, subtractor_cin(z, y), subtractor_cout(z, y)];
    assert(vc[0] == subtractor_diff(z, y) && vc[1] == y && vc[2] == subtractor_cin(z, y) && vc[3]
        == subtractor_cout(z, y));
    let vo = seq![subtractor_cout(z, y)];
    assert(vo[0] == subtractor_cout(z, y));
}

/// The result word of the carry chain: the sum, or the difference.
pub open spec fn chain_out(subtract: bool, p: u32, q: u32) -> u32 {
    if subtract {
        subtractor_diff(p, q)
    } else {
        adder_sum(p, q)
    }
}

/// The carries, or borrows, into the bits of the result.
pub open spec fn chain_cin(subtract: bool, p: u32, q: u32) -> u32 {
    if subtract {
        subtractor_cin(p, q)
    } else {
        adder_cin(p, q)
    }
}

/// The carries, or borrows, out of the bits of the result.
pub open spec fn chain_cout(subtract: bool, p: u32, q: u32) -> u32 {
    if subtract {
        subtractor_cout(p, q)
    } else {
        adder_cout(p, q)
    }
}

/// The word of one column of the carry chain, for the input words `p` and
/// `q`.
pub open spec fn chain_value(column: ChainColumn, subtract: bool, p: u32, q: u32) -> u32 {
    match column {
        ChainColumn::Out => chain_out(subtract, p, q),
        ChainColumn::Cout => chain_cout(subtract, p, q),
        ChainColumn::Cin => chain_cin(subtract, p, q),
    }
}

/// The `n` words of one column of the carry chain; words that either input
/// lacks are zero.
pub open spec fn chain_column(
    column: ChainColumn,
    subtract: bool,
    ps: Seq<u32>,
    qs: Seq<u32>,
    n: nat,
) -> Seq<u32> {
    Seq::new(
        n,
        |i: int|
            if i < ps.len() && i < qs.len() {
                chain_value(column, subtract, ps[i], qs[i])
            } else {
                0
            },
    )
}

/// The three columns of the carry chain, computed word by word.
fn chain_rows(
    subtract: bool,
    ps: &[u32],
    qs: &[u32],
    n: usize,
) -> (r: (Vec<u32>, Vec<u32>, Vec<u32>))
    ensures
        r.0@ == chain_column(ChainColumn::Out, subtract, ps@, qs@, n as nat),
        r.1@ == chain_column(ChainColumn::Cout, subtract, ps@, qs@, n as nat),
        r.2@ == chain_column(ChainColumn::Cin, subtract, ps@, qs@, n as nat),
{
    let np: usize = ps.len();
    let nq: usize = qs.len();
    let mut outs: Vec<u32> = Vec::new();
    let mut couts: Vec<u32> = Vec::new();
    let mut cins: Vec<u32> = Vec::new();
    let mut i: usize = 0;
    while i < n
        invariant
            i <= n,
            np == ps@.len(),
            nq == qs@.len(),
            outs@.len() == i,
            couts@.len() == i,
            cins@.len() == i,
            forall|j: int|
                0 <= j < i ==> outs@[j] == chain_column(ChainColumn::Out, subtract, ps@, qs@, n as nat)[j],
            forall|j: int|
                0 <= j < i ==> couts@[j] == chain_column(ChainColumn::Cout, subtract, ps@, qs@, n as nat)[j],
            forall|j: int|
                0 <= j < i ==> cins@[j] == chain_column(ChainColumn::Cin, subtract, ps@, qs@, n as nat)[j],
        decreases n - i,
    {
        if i < np && i < nq {
            let p: u32 = ps[i];
            let q: u32 = qs[i];
            let out: u32 = if subtract {
                p.wrapping_sub(q)
            } else {
                p.wrapping_add(q)
            };
            let carry: bool = if subtract {
                p < q
            } else {
                out < p
            };
            let cin: u32 = if subtract {
                out ^ q ^ p
            } else {
                p ^ q ^ out
            };
            let top: u32 = if carry {
                0x8000_0000
            } else {
                0
            };
            let cout: u32 = top | (cin >> 1);
            outs.push(out);
            couts.push(cout);
            cins.push(cin);
        } else {
            outs.push(0);
            couts.push(0);
            cins.push(0);
        }
        i += 1;
    }
    assert(outs@ =~= chain_column(ChainColumn::Out, subtract, ps@, qs@, n as nat));
    assert(couts@ =~= chain_column(ChainColumn::Cout, subtract, ps@, qs@, n as nat));
    assert(cins@ =~= chain_column(ChainColumn::Cin, subtract, ps@, qs@, n as nat));
    (outs, couts, cins)
}

/// Why `add` or `sub` fails, if it does.
pub open spec fn chain_defect(b: BuilderView, pin: OracleId, qin: OracleId) -> Option<Error> {
    match log_rows_spec(b.oracles.oracles, seq![pin, qin]) {
        Err(e) => Some(e),
        Ok(log_rows) => if log_rows < LOG_WORD_BITS {
            Some(Error::Oracle(crate::oracle::Error::InvalidBlockSize { n_vars: log_rows }))
        } else {
            first_defect(
                input_defect(b, pin),
                first_defect(input_defect(b, qin), column_defect(b, log_rows, 0)),
            )
        },
    }
}

/// The name of the result oracle of the carry chain.
pub open spec fn chain_out_name(subtract: bool) -> Seq<char> {
    if subtract {
        "xin"@
    } else {
        "zout"@
    }
}

/// The oracles of the sum relation: the two terms, the carries in and the
/// sum. In a subtraction the result is the first term and the first input
/// is the sum.
pub open spec fn chain_sum_ids(
    subtract: bool,
    pin: OracleId,
    qin: OracleId,
    cin: OracleId,
    out: OracleId,
) -> Seq<OracleId> {
    if subtract {
        seq![out, qin, cin, pin]
    } else {
        seq![pin, qin, cin, out]
    }
}

/// The oracles of the carry relation.
pub open spec fn chain_carry_ids(
    subtract: bool,
    pin: OracleId,
    qin: OracleId,
    cin: OracleId,
    cout: OracleId,
    out: OracleId,
) -> Seq<OracleId> {
    if subtract {
        seq![out, qin, cin, cout]
    } else {
        seq![pin, qin, cin, cout]
    }
}

/// The builder after the declarations of `add` or `sub`: inside the
/// namespace `name`, the committed carries out, the carries in as the
/// carries out moved up by one bit within each word, and the committed
/// result.
pub open spec fn chain_declared(
    b: BuilderView,
    name: Seq<char>,
    pin: OracleId,
    subtract: bool,
) -> BuilderView {
    let log_rows = b.oracles.oracles[pin as int].n_vars;
    let b0 = b.with_namespace(name);
    let b1 = b0.with_committed("cout"@, log_rows, 0);
    let b2 = b1.with_oracle(
        b1.oracles.shifted(
            b1.named("cin"@),
            b.next_oracle_id(),
            1,
            LOG_WORD_BITS,
            ShiftVariant::LogicalLeft,
        ),
    );
    b2.with_committed(chain_out_name(subtract), log_rows, 0)
}

/// The builder once the three columns of the carry chain are stored, if it
/// holds a witness.
pub open spec fn chain_filled(
    b: BuilderView,
    log_rows: usize,
    pin: OracleId,
    qin: OracleId,
    cout: OracleId,
    subtract: bool,
) -> BuilderView {
    match b.witness {
        Some(table) => {
            let ps = input_rows(table, pin);
            let qs = input_rows(table, qin);
            let n = word_count(log_rows);
            b.with_witness(
                table_with(
                    table_with(
                        table_with(
                            table,
                            (cout + 2) as usize,
                            u32_entry(
                                log_rows,
                                chain_column(ChainColumn::Out, subtract, ps, qs, n),
                            ),
                        ),
                        cout,
                        u32_entry(
                            log_rows,
                            chain_column(ChainColumn::Cout, subtract, ps, qs, n),
                        ),
                    ),
                    (cout + 1) as usize,
                    u32_entry(
                        log_rows,
                        chain_column(ChainColumn::Cin, subtract, ps, qs, n),
                    ),
                ),
            )
        },
        None => b,
    }
}

/// The builder with the sum relation and the carry relation registered.
pub open spec fn chain_constrained(
    b: BuilderView,
    pin: OracleId,
    qin: OracleId,
    cout: OracleId,
    subtract: bool,
) -> BuilderView {
    let cin = (cout + 1) as usize;
    let out = (cout + 2) as usize;
    b.with_constraint(
        ConstraintView {
            oracle_ids: chain_sum_ids(subtract, pin, qin, cin, out),
            composition: sum_composition(),
        },
    ).with_constraint(
        ConstraintView {
            oracle_ids: chain_carry_ids(subtract, pin, qin, cin, cout, out),
            composition: carry_composition(),
        },
    )
}

/// The builder with the overflow check, when it is asked for: the top carry
/// of every word is declared and asserted to be zero.
pub open spec fn chain_checked(b: BuilderView, cout: OracleId, flags: Flags) -> BuilderView {
    match flags {
        Flags::Checked => select_bit_state(b, "last_cout"@, cout, 31).with_constraint(
            ConstraintView {
                oracle_ids: seq![(cout + 3) as usize],
                composition: identity_composition(),
            },
        ),
        Flags::Unchecked => b,
    }
}

/// The builder after `add` or `sub`: the declarations, the columns, the two
/// relations and the overflow check, then back out of the namespace.
pub open spec fn chain_state(
    b: BuilderView,
    name: Seq<char>,
    pin: OracleId,
    qin: OracleId,
    flags: Flags,
    subtract: bool,
) -> BuilderView {
    let log_rows = b.oracles.oracles[pin as int].n_vars;
    let cout = b.next_oracle_id();
    chain_checked(
        chain_constrained(
            chain_filled(chain_declared(b, name, pin, subtract), log_rows, pin, qin, cout, subtract),
            pin,
            qin,
            cout,
            subtract,
        ),
        cout,
        flags,
    ).without_namespace()
}

/// Declares the oracles of the carry chain.
#[verifier::rlimit(30)]
fn chain_declare(
    builder: &mut ConstraintSystemBuilder,
    name: &str,
    pin: OracleId,
    qin: OracleId,
    subtract: bool,
) -> (r: Result<(usize, OracleId), Error>)
    requires
        old(builder)@.wf(),
    ensures
        final(builder)@.wf(),
        match log_rows_spec(old(builder)@.oracles.oracles, seq![pin, qin]) {
            Err(e) => r == Err::<(usize, OracleId), Error>(e),
            Ok(log_rows) => if log_rows < LOG_WORD_BITS {
                r == Err::<(usize, OracleId), Error>(
                    Error::Oracle(crate::oracle::Error::InvalidBlockSize { n_vars: log_rows }),
                )
            } else {
                &&& r == Ok::<(usize, OracleId), Error>((log_rows, old(builder)@.next_oracle_id()))
                &&& log_rows == old(builder)@.oracles.oracles[pin as int].n_vars
                &&& final(builder)@ == chain_declared(old(builder)@, name@, pin, subtract)
                &&& final(builder)@.witness == old(builder)@.witness
                &&& final(builder)@.next_oracle_id() == old(builder)@.next_oracle_id() + 3
                &&& forall|i: int|
                    0 <= i < old(builder)@.oracles.oracles.len() ==> final(builder)@.oracles.oracles[i]
                        == old(builder)@.oracles.oracles[i]
                &&& final(builder)@.oracles.oracles[old(builder)@.next_oracle_id() as int].n_vars
                    == log_rows
            },
        },
{
    let ids: Vec<OracleId> = vec![pin, qin];
    assert(ids@ =~= seq![pin, qin]);
    let log_rows: usize = match builder.log_rows(ids.as_slice()) {
        Ok(n) => n,
        Err(e) => {
            return Err(e);
        },
    };
    builder.push_namespace(name);
    proof {
        vstd::arithmetic::power2::lemma2_to64();
    }
    let ghost b0 = builder@;
    let cout: usize = builder.add_committed("cout", log_rows, 0);
    let ghost b1 = builder@;
    assert(b1.oracles.oracles[cout as int].n_vars == log_rows);
    let cin: usize = match builder.add_shifted(
        "cin",
        cout,
        1,
        LOG_WORD_BITS,
        ShiftVariant::LogicalLeft,
    ) {
        Ok(id) => id,
        Err(e) => {
            return Err(Error::Oracle(e));
        },
    };
    let ghost b2 = builder@;
    if subtract {
        builder.add_committed("xin", log_rows, 0);
    } else {
        builder.add_committed("zout", log_rows, 0);
    }
    assert(b0 == old(builder)@.with_namespace(name@));
    assert(b1 == b0.with_committed("cout"@, log_rows, 0));
    assert(b2 == b1.with_oracle(
        b1.oracles.shifted(b1.named("cin"@), cout, 1, LOG_WORD_BITS, ShiftVariant::LogicalLeft),
    ));
    assert(builder@ == b2.with_committed(chain_out_name(subtract), log_rows, 0));
    Ok((log_rows, cout))
}

/// Computes and stores the three columns of the carry chain.
#[verifier::rlimit(30)]
fn chain_fill(
    builder: &mut ConstraintSystemBuilder,
    log_rows: usize,
    pin: OracleId,
    qin: OracleId,
    cout: OracleId,
    subtract: bool,
) -> (r: Result<(), Error>)
    requires
        old(builder)@.wf(),
        cout + 2 <= usize::MAX,
    ensures
        final(builder)@.wf(),
        match first_defect(
            input_defect(old(builder)@, pin),
            first_defect(input_defect(old(builder)@, qin), column_defect(old(builder)@, log_rows, 0)),
        ) {
            Some(e) => r == Err::<(), Error>(e),
            None => r == Ok::<(), Error>(()) && final(builder)@ == chain_filled(
                old(builder)@,
                log_rows,
                pin,
                qin,
                cout,
                subtract,
            ),
        },
{
    match builder.witness() {
        Some(witness) => {
            let ps = match witness.load_u32(pin, 0) {
                Ok(v) => v,
                Err(e) => {
                    return Err(Error::Witness(e));
                },
            };
            let qs = match witness.load_u32(qin, 0) {
                Ok(v) => v,
                Err(e) => {
                    return Err(Error::Witness(e));
                },
            };
            let len: usize = match checked_column_len(log_rows, 0) {
                Some(l) => l,
                None => {
                    return Err(Error::ColumnTooLarge { log_rows, tower_level: 0 });
                },
            };
            let rows = chain_rows(subtract, ps.as_slice(), qs.as_slice(), len / 4);
            witness.store_u32(cout + 2, log_rows, 0, rows.0.as_slice());
            witness.store_u32(cout, log_rows, 0, rows.1.as_slice());
            witness.store_u32(cout + 1, log_rows, 0, rows.2.as_slice());
        },
        None => {},
    }
    Ok(())
}

/// Registers the sum relation and the carry relation.
fn chain_constrain(
    builder: &mut ConstraintSystemBuilder,
    pin: OracleId,
    qin: OracleId,
    cout: OracleId,
    subtract: bool,
)
    requires
        cout + 2 <= usize::MAX,
    ensures
        final(builder)@ == chain_constrained(old(builder)@, pin, qin, cout, subtract),
{
    let cin: usize = cout + 1;
    let out: usize = cout + 2;
    let sum_ids: Vec<OracleId> = if subtract {
        vec![out, qin, cin, pin]
    } else {
        vec![pin, qin, cin, out]
    };
    assert(sum_ids@ =~= chain_sum_ids(subtract, pin, qin, cin, out));
    builder.assert_zero(sum_ids, make_sum_composition());
    let carry_ids: Vec<OracleId> = if subtract {
        vec![out, qin, cin, cout]
    } else {
        vec![pin, qin, cin, cout]
    };
    assert(carry_ids@ =~= chain_carry_ids(subtract, pin, qin, cin, cout, out));
    builder.assert_zero(carry_ids, make_carry_composition());
}

/// Declares the top carry of every word and asserts it to be zero, when the
/// overflow check is asked for.
fn chain_check(builder: &mut ConstraintSystemBuilder, cout: OracleId, flags: Flags) -> (r: Result<
    (),
    Error,
>)
    requires
        old(builder)@.wf(),
        flags == Flags::Checked ==> select_bit_defect(old(builder)@, cout, 31) is None
            && old(builder)@.next_oracle_id() == cout + 3,
    ensures
        final(builder)@.wf(),
        r == Ok::<(), Error>(()),
        final(builder)@ == chain_checked(old(builder)@, cout, flags),
{
    match flags {
        Flags::Checked => {
            let last_cout: usize = match select_bit(builder, "last_cout", cout, 31) {
                Ok(id) => id,
                Err(e) => {
                    return Err(e);
                },
            };
            let overflow_ids: Vec<OracleId> = vec![last_cout];
            assert(overflow_ids@ =~= seq![last_cout]);
            builder.assert_zero(overflow_ids, ArithExpr::var(0));
        },
        Flags::Unchecked => {},
    }
    Ok(())
}

/// The gadget behind `add` and `sub`.
#[verifier::rlimit(30)]
fn carry_chain(
    builder: &mut ConstraintSystemBuilder,
    name: &str,
    pin: OracleId,
    qin: OracleId,
    flags: Flags,
    subtract: bool,
) -> (r: Result<OracleId, Error>)
    requires
        old(builder)@.wf(),
    ensures
        final(builder)@.wf(),
        match chain_defect(old(builder)@, pin, qin) {
            Some(e) => r == Err::<OracleId, Error>(e),
            None => r == Ok::<OracleId, Error>((old(builder)@.next_oracle_id() + 2) as usize)
                && final(builder)@ == chain_state(old(builder)@, name@, pin, qin, flags, subtract),
        },
{
    let (log_rows, cout) = match chain_declare(builder, name, pin, qin, subtract) {
        Ok(v) => v,
        Err(e) => {
            return Err(e);
        },
    };
    let ghost declared = builder@;
    proof {
        lemma_inputs_unchanged(old(builder)@, declared, pin, qin, log_rows);
    }
    match chain_fill(builder, log_rows, pin, qin, cout, subtract) {
        Ok(()) => {},
        Err(e) => {
            return Err(e);
        },
    }
    let ghost filled = builder@;
    chain_constrain(builder, pin, qin, cout, subtract);
    proof {
        lemma_chain_check_ready(filled, builder@, declared, log_rows, pin, qin, cout, subtract);
    }
    match chain_check(builder, cout, flags) {
        Ok(()) => {},
        Err(e) => {
            return Err(e);
        },
    }
    builder.pop_namespace();
    Ok(cout + 2)
}

/// What the carry chain reads from the witness does not depend on the
/// declarations made before.
proof fn lemma_inputs_unchanged(
    before: BuilderView,
    declared: BuilderView,
    pin: OracleId,
    qin: OracleId,
    log_rows: usize,
)
    requires
        declared.witness == before.witness,
    ensures
        input_defect(declared, pin) == input_defect(before, pin),
        input_defect(declared, qin) == input_defect(before, qin),
        column_defect(declared, log_rows, 0) == column_defect(before, log_rows, 0),
{
}

/// After the columns are stored and the relations registered, the top carry
/// can be selected from the column of the carries out.
proof fn lemma_chain_check_ready(
    filled: BuilderView,
    constrained: BuilderView,
    declared: BuilderView,
    log_rows: usize,
    pin: OracleId,
    qin: OracleId,
    cout: OracleId,
    subtract: bool,
)
    requires
        declared.wf(),
        filled.wf(),
        log_rows >= LOG_WORD_BITS,
        cout + 3 == declared.next_oracle_id(),
        declared.oracles.oracles[cout as int].n_vars == log_rows,
        column_defect(declared, log_rows, 0) is None,
        filled == chain_filled(declared, log_rows, pin, qin, cout, subtract),
        constrained == chain_constrained(filled, pin, qin, cout, subtract),
    ensures
        constrained.wf(),
        select_bit_defect(constrained, cout, 31) is None,
        constrained.next_oracle_id() == cout + 3,
{
    lemma_column_len_monotonic((log_rows - LOG_WORD_BITS) as usize, log_rows, 0);
    let ids = seq![cout];
    assert(ids[0] == cout);
    assert(crate::builder::tuple_defect(constrained.oracles.oracles, log_rows, ids, 1) is None) by {
        assert(crate::builder::tuple_defect(constrained.oracles.oracles, log_rows, ids, 0) is None);
    }
}

/// The words of the one-bit column that the table holds for oracle `id`,
/// if it holds one.
pub open spec fn column_words(table: Seq<Option<EntryView>>, id: OracleId) -> Option<Seq<u32>> {
    match entry_of(table, id) {
        Some(entry) => if entry.tower_level == 0 {
            Some(u32_rows(entry.data))
        } else {
            None
        },
        None => None,
    }
}

/// Where `shift` succeeds on a builder that holds a witness, the column of
/// its result holds every word of the input moved by `offset` bits, and
/// the columns of the oracles declared before are as they were.
pub proof fn lemma_shift_result(
    b: BuilderView,
    name: Seq<char>,
    input: OracleId,
    offset: usize,
    variant: ShiftVariant,
    other: OracleId,
)
    requires
        b.witness is Some,
        b.oracles.oracles.len() < usize::MAX,
        other < b.next_oracle_id(),
    ensures
        ({
            let state = shift_state(b, name, input, offset, variant);
            let log_rows = b.oracles.oracles[input as int].n_vars;
            &&& state.witness is Some
            &&& column_words(state.witness->0, b.next_oracle_id()) == Some(
                shift_rows(
                    input_rows(b.witness->0, input),
                    word_count(log_rows),
                    offset,
                    variant,
                ),
            )
            &&& entry_of(state.witness->0, other) == entry_of(b.witness->0, other)
        }),
{
    let log_rows = b.oracles.oracles[input as int].n_vars;
    let rows = shift_rows(input_rows(b.witness->0, input), word_count(log_rows), offset, variant);
    lemma_u32_rows_of_bytes(rows);
    lemma_entry_of_table_with(b.witness->0, b.next_oracle_id(), u32_entry(log_rows, rows), other);
    lemma_entry_of_table_with(
        b.witness->0,
        b.next_oracle_id(),
        u32_entry(log_rows, rows),
        b.next_oracle_id(),
    );
}

/// Where `add` or `sub` succeeds on a builder that holds a witness, the
/// column of its result holds, in every word, the sum of the words of the
/// two inputs modulo `2^32`, or their difference, and the columns of the
/// oracles declared before are as they were.
pub proof fn lemma_chain_result(
    b: BuilderView,
    name: Seq<char>,
    pin: OracleId,
    qin: OracleId,
    flags: Flags,
    subtract: bool,
    other: OracleId,
)
    requires
        b.witness is Some,
        b.oracles.oracles.len() + 4 <= usize::MAX,
        other < b.next_oracle_id(),
    ensures
        ({
            let state = chain_state(b, name, pin, qin, flags, subtract);
            let log_rows = b.oracles.oracles[pin as int].n_vars;
            &&& state.witness is Some
            &&& column_words(state.witness->0, (b.next_oracle_id() + 2) as usize) == Some(
                chain_column(
                    ChainColumn::Out,
                    subtract,
                    input_rows(b.witness->0, pin),
                    input_rows(b.witness->0, qin),
                    word_count(log_rows),
                ),
            )
            &&& entry_of(state.witness->0, other) == entry_of(b.witness->0, other)
        }),
{
    let log_rows = b.oracles.oracles[pin as int].n_vars;
    let cout = b.next_oracle_id();
    let cin = (cout + 1) as usize;
    let out = (cout + 2) as usize;
    let last = (cout + 3) as usize;
    let table = b.witness->0;
    let ps = input_rows(table, pin);
    let qs = input_rows(table, qin);
    let n = word_count(log_rows);
    let outs = chain_column(ChainColumn::Out, subtract, ps, qs, n);
    let couts = chain_column(ChainColumn::Cout, subtract, ps, qs, n);
    let cins = chain_column(ChainColumn::Cin, subtract, ps, qs, n);
    let declared = chain_declared(b, name, pin, subtract);
    assert(declared.witness == b.witness);
    let filled = chain_filled(declared, log_rows, pin, qin, cout, subtract);
    let t1 = table_with(table, out, u32_entry(log_rows, outs));
    let t2 = table_with(t1, cout, u32_entry(log_rows, couts));
    let t3 = table_with(t2, cin, u32_entry(log_rows, cins));
    assert(filled.witness == Some(t3));
    lemma_u32_rows_of_bytes(outs);
    lemma_entry_of_table_with(table, out, u32_entry(log_rows, outs), out);
    lemma_entry_of_table_with(t1, cout, u32_entry(log_rows, couts), out);
    lemma_entry_of_table_with(t2, cin, u32_entry(log_rows, cins), out);
    lemma_entry_of_table_with(table, out, u32_entry(log_rows, outs), other);
    lemma_entry_of_table_with(t1, cout, u32_entry(log_rows, couts), other);
    lemma_entry_of_table_with(t2, cin, u32_entry(log_rows, cins), other);
    let constrained = chain_constrained(filled, pin, qin, cout, subtract);
    assert(constrained.witness == filled.witness);
    assert(declared.oracles.oracles.len() == b.oracles.oracles.len() + 3) by {
        lemma_chain_declared_len(b, name, pin, subtract);
    }
    assert(constrained.next_oracle_id() == last);
    match flags {
        Flags::Checked => {
            let selected = select_bit_state(constrained, "last_cout"@, cout, 31);
            let out_rows = (constrained.oracles.oracles[cout as int].n_vars - LOG_WORD_BITS) as usize;
            let entry = bit_entry(
                out_rows,
                selected_bits(input_rows(t3, cout), 8 * column_len(out_rows, 0), 31),
            );
            assert(selected.witness == Some(table_with(t3, last, entry)));
            lemma_entry_of_table_with(t3, last, entry, out);
            lemma_entry_of_table_with(t3, last, entry, other);
        },
        Flags::Unchecked => {},
    }
}

/// The declarations of `add` or `sub` add three oracles.
proof fn lemma_chain_declared_len(b: BuilderView, name: Seq<char>, pin: OracleId, subtract: bool)
    ensures
        chain_declared(b, name, pin, subtract).oracles.oracles.len() == b.oracles.oracles.len() + 3,
        chain_declared(b, name, pin, subtract).witness == b.witness,
{
}

/// Declares the sum of two columns of words, modulo `2^32`, or, when
/// checked, their sum under the constraint that it does not overflow.
pub fn add(
    builder: &mut ConstraintSystemBuilder,
    name: &str,
    xin: OracleId,
    yin: OracleId,
    flags: Flags,
) -> (r: Result<OracleId, Error>)
    requires
        old(builder)@.wf(),
    ensures
        final(builder)@.wf(),
        match chain_defect(old(builder)@, xin, yin) {
            Some(e) => r == Err::<OracleId, Error>(e),
            None => r == Ok::<OracleId, Error>((old(builder)@.next_oracle_id() + 2) as usize)
                && final(builder)@ == chain_state(old(builder)@, name@, xin, yin, flags, false),
        },
{
    carry_chain(builder, name, xin, yin, flags, false)
}

/// Declares the difference `zin - yin` of two columns of words, modulo
/// `2^32`, or, when checked, their difference under the constraint that it
/// does not underflow.
pub fn sub(
    builder: &mut ConstraintSystemBuilder,
    name: &str,
    zin: OracleId,
    yin: OracleId,
    flags: Flags,
) -> (r: Result<OracleId, Error>)
    requires
        old(builder)@.wf(),
    ensures
        final(builder)@.wf(),
        match chain_defect(old(builder)@, zin, yin) {
            Some(e) => r == Err::<OracleId, Error>(e),
            None => r == Ok::<OracleId, Error>((old(builder)@.next_oracle_id() + 2) as usize)
                && final(builder)@ == chain_state(old(builder)@, name@, zin, yin, flags, true),
        },
{
    carry_chain(builder, name, zin, yin, flags, true)
}

/// Rotating a word left by `offset` bits and then by `32 - offset` bits
/// gives the word back.
pub proof fn lemma_rotation_round_trip(x: u32, offset: usize)
    requires
        0 < offset < 32,
    ensures
        shift_word(
            shift_word(x, offset, ShiftVariant::CircularLeft),
            (32 - offset) as usize,
            ShiftVariant::CircularLeft,
        ) == x,
{
    let o: u32 = offset as u32;
    assert(((((x << o) | (x >> ((32 - o) as u32))) << ((32 - o) as u32)) | (((x << o) | (x >> ((32
        - o) as u32))) >> o)) == x) by (bit_vector)
        requires
            0 < o < 32,
    ;
}

/// Shifting a word right by `offset` bits and then left by as many gives
/// the word back exactly when its `offset` lowest bits are zero: a logical
/// shift loses the bits that it moves out.
pub proof fn lemma_logical_shift_round_trip(x: u32, offset: usize)
    requires
        0 < offset < 32,
    ensures
        shift_word(
            shift_word(x, offset, ShiftVariant::LogicalRight),
            offset,
            ShiftVariant::LogicalLeft,
        ) == x <==> x & (((1u32 << (offset as u32)) - 1) as u32) == 0,
{
    let o: u32 = offset as u32;
    assert(((x >> o) << o == x) <==> (x & (((1u32 << o) - 1) as u32) == 0)) by (bit_vector)
        requires
            0 < o < 32,
    ;
}

proof fn lemma_shift_bits(x: u32, o: u32, k: u32)
    by (bit_vector)
    requires
        0 < o < 32,
        k < 32,
    ensures
        ((x << o) >> k) & 1 == 1 <==> k >= o && (x >> ((k - o) as u32)) & 1 == 1,
        ((x >> o) >> k) & 1 == 1 <==> k + o < 32 && (x >> ((k + o) as u32)) & 1 == 1,
        (((x << o) | (x >> ((32 - o) as u32))) >> k) & 1 == 1 <==> (if k >= o {
            (x >> ((k - o) as u32)) & 1 == 1
        } else {
            (x >> ((k + 32 - o) as u32)) & 1 == 1
        }),
{
}

/// A word moved by `offset` bits holds, in each of its 32 bits, the row
/// that the shifted oracle of blocks of 32 rows holds there: bit `k` of the
/// moved word is the bit of the word that the shift takes row `k` from, and
/// zero where the shift fills with zero.
pub proof fn lemma_shift_word_rows(x: u32, offset: usize, variant: ShiftVariant, k: int)
    requires
        0 < offset < 32,
        0 <= k < 32,
    ensures
        (shift_word(x, offset, variant) >> (k as u32)) & 1 == 1 <==> match shifted_source(
            variant,
            offset as int,
            32,
            k,
        ) {
            Some(p) => (x >> (p as u32)) & 1 == 1,
            None => false,
        },
{
    lemma_shift_bits(x, offset as u32, k as u32);
}

/// Why `half` fails, if it does.
pub open spec fn half_defect(b: BuilderView, input: OracleId, flags: Flags) -> Option<Error> {
    match flags {
        Flags::Checked => match select_bit_defect(b, input, 0) {
            Some(e) => Some(e),
            None => shift_defect(half_checked(b, input, flags), input, 1),
        },
        Flags::Unchecked => shift_defect(b, input, 1),
    }
}

/// The builder with the parity check of `half`, when it is asked for: the
/// lowest bit of every word is declared and asserted to be zero.
pub open spec fn half_checked(b: BuilderView, input: OracleId, flags: Flags) -> BuilderView {
    match flags {
        Flags::Checked => select_bit_state(b, "lsb"@, input, 0).with_constraint(
            ConstraintView {
                oracle_ids: seq![b.next_oracle_id()],
                composition: identity_composition(),
            },
        ),
        Flags::Unchecked => b,
    }
}

/// Declares the half of every word of `input`: the word moved down by one
/// bit, under the constraint, when checked, that the word is even.
pub fn half(builder: &mut ConstraintSystemBuilder, name: &str, input: OracleId, flags: Flags) -> (r:
    Result<OracleId, Error>)
    requires
        old(builder)@.wf(),
    ensures
        final(builder)@.wf(),
        match half_defect(old(builder)@, input, flags) {
            Some(e) => r == Err::<OracleId, Error>(e),
            None => r == Ok::<OracleId, Error>(
                half_checked(old(builder)@, input, flags).next_oracle_id(),
            ) && final(builder)@ == shift_state(
                half_checked(old(builder)@, input, flags),
                name@,
                input,
                1,
                ShiftVariant::LogicalRight,
            ),
        },
{
    match flags {
        Flags::Checked => {
            let lsb: usize = match select_bit(builder, "lsb", input, 0) {
                Ok(id) => id,
                Err(e) => {
                    return Err(e);
                },
            };
            let ids: Vec<OracleId> = vec![lsb];
            assert(ids@ =~= seq![lsb]);
            builder.assert_zero(ids, ArithExpr::var(0));
        },
        Flags::Unchecked => {},
    }
    shr(builder, name, input, 1)
}

/// Why `packed` fails, if it does.
pub open spec fn packed_defect(b: BuilderView, input: OracleId) -> Option<Error> {
    match b.oracles.packed_defect(input, LOG_WORD_BITS) {
        Some(e) => Some(Error::Oracle(e)),
        None => match b.witness {
            None => None,
            Some(table) => match get_spec(table, input, 0) {
                Err(e) => Some(Error::Witness(e)),
                Ok(data) => {
                    let log_rows = (b.oracles.oracles[input as int].n_vars - LOG_WORD_BITS) as usize;
                    if data.len() != column_len(log_rows, LOG_WORD_BITS) {
                        Some(
                            Error::Witness(
                                crate::builder::witness::Error::IncorrectDataLength {
                                    log_rows,
                                    tower_level: LOG_WORD_BITS,
                                },
                            ),
                        )
                    } else {
                        None
                    }
                },
            },
        },
    }
}

/// The builder after `packed`: one more oracle, whose rows are the words of
/// the input as elements of the 32-bit field, and its column, which holds
/// the bytes of the column of the input.
pub open spec fn packed_state(b: BuilderView, name: Seq<char>, input: OracleId) -> BuilderView {
    let log_rows = (b.oracles.oracles[input as int].n_vars - LOG_WORD_BITS) as usize;
    let b1 = b.with_oracle(b.oracles.packed(b.named(name), input, LOG_WORD_BITS));
    match b.witness {
        Some(table) => b1.with_witness(
            table_with(
                table,
                b.next_oracle_id(),
                EntryView {
                    log_rows,
                    tower_level: LOG_WORD_BITS,
                    data: get_spec(table, input, 0)->Ok_0,
                },
            ),
        ),
        None => b1,
    }
}

/// Declares the oracle that packs every word of `input` into one element of
/// the 32-bit field, and stores its column.
pub fn packed(builder: &mut ConstraintSystemBuilder, name: &str, input: OracleId) -> (r: Result<
    OracleId,
    Error,
>)
    requires
        old(builder)@.wf(),
    ensures
        final(builder)@.wf(),
        match packed_defect(old(builder)@, input) {
            Some(e) => r == Err::<OracleId, Error>(e),
            None => r == Ok::<OracleId, Error>(old(builder)@.next_oracle_id()) && final(builder)@
                == packed_state(old(builder)@, name@, input),
        },
{
    let packed: usize = match builder.add_packed(name, input, LOG_WORD_BITS) {
        Ok(id) => id,
        Err(e) => {
            return Err(Error::Oracle(e));
        },
    };
    let log_rows: usize = builder.oracles().n_vars(packed);
    match builder.witness() {
        Some(witness) => {
            let data = match witness.load_bytes(input, 0) {
                Ok(v) => v,
                Err(e) => {
                    return Err(Error::Witness(e));
                },
            };
            match witness.set_data(packed, log_rows, LOG_WORD_BITS, data) {
                Ok(()) => {},
                Err(e) => {
                    return Err(Error::Witness(e));
                },
            }
        },
        None => {},
    }
    Ok(packed)
}

/// The bitwise sum of three words: the sum of three bits without its
/// carry, on every bit.
pub open spec fn add3_left(x: u32, y: u32, z: u32) -> u32 {
    (x ^ y) ^ z
}

/// The bitwise majority of three words: the carry of the sum of three
/// bits, on every bit.
pub open spec fn add3_right(x: u32, y: u32, z: u32) -> u32 {
    (x & y) | (x & z) | (y & z)
}

/// The composition `x + y + z - left`.
pub open spec fn add3_left_composition() -> ArithExpr {
    sum_composition()
}

/// The composition `x * (y + z) + y * z * (1 + x * (1 + (y + z + x * y * z))) - right`,
/// which vanishes on bits exactly when `right` is the majority of `x`, `y`
/// and `z`.
pub open spec fn add3_right_composition() -> ArithExpr {
    let x = ArithExpr::Var(0);
    let y = ArithExpr::Var(1);
    let z = ArithExpr::Var(2);
    let right = ArithExpr::Var(3);
    let one = ArithExpr::Const(1);
    let y_plus_z = ArithExpr::Add(Box::new(y), Box::new(z));
    let xyz = ArithExpr::Mul(Box::new(ArithExpr::Mul(Box::new(x), Box::new(y))), Box::new(z));
    let inner = ArithExpr::Add(
        Box::new(one),
        Box::new(ArithExpr::Add(Box::new(y_plus_z), Box::new(xyz))),
    );
    let outer = ArithExpr::Add(
        Box::new(one),
        Box::new(ArithExpr::Mul(Box::new(x), Box::new(inner))),
    );
    let yz = ArithExpr::Mul(Box::new(y), Box::new(z));
    ArithExpr::Add(
        Box::new(
            ArithExpr::Add(
                Box::new(ArithExpr::Mul(Box::new(x), Box::new(y_plus_z))),
                Box::new(ArithExpr::Mul(Box::new(yz), Box::new(outer))),
            ),
        ),
        Box::new(right),
    )
}

fn make_add3_right_composition() -> (r: ArithExpr)
    ensures
        r == add3_right_composition(),
{
    let y_plus_z = ArithExpr::var(1).plus(ArithExpr::var(2));
    let xyz = ArithExpr::var(0).times(ArithExpr::var(1)).times(ArithExpr::var(2));
    let inner = ArithExpr::constant(1).plus(y_plus_z.plus(xyz));
    let outer = ArithExpr::constant(1).plus(ArithExpr::var(0).times(inner));
    let yz = ArithExpr::var(1).times(ArithExpr::var(2));
    let y_plus_z_again = ArithExpr::var(1).plus(ArithExpr::var(2));
    ArithExpr::var(0).times(y_plus_z_again).plus(yz.times(outer)).plus(ArithExpr::var(3))
}

proof fn lemma_add3_bits(x: u32, y: u32, z: u32)
    by (bit_vector)
    ensures
        (((x ^ y) ^ z) ^ ((x ^ y) ^ z)) == 0,
        (((x & (y ^ z)) ^ ((y & z) & (0xffff_ffffu32 ^ (x & (0xffff_ffffu32 ^ ((y ^ z) ^ ((x & y)
            & z))))))) ^ ((x & y) | (x & z) | (y & z))) == 0,
        (((x ^ y) ^ z) + 2 * ((x & y) | (x & z) | (y & z))) == x + y + z,
{
}

/// The witness of the three-operand adder satisfies its two relations on
/// every bit, and the bitwise sum plus twice the bitwise majority is the
/// sum of the three words.
pub proof fn lemma_add3_correct(x: u32, y: u32, z: u32)
    ensures
        add3_left_composition().eval_u32(seq![x, y, z, add3_left(x, y, z)]) == 0,
        add3_right_composition().eval_u32(seq![x, y, z, add3_right(x, y, z)]) == 0,
        add3_left(x, y, z) + 2 * add3_right(x, y, z) == x + y + z,
{
    lemma_add3_bits(x, y, z);
    reveal_with_fuel(ArithExpr::eval_u32, 10);
    let vl = seq![x, y, z, add3_left(x, y, z)];
    assert(vl[0] == x && vl[1] == y && vl[2] == z && vl[3] == add3_left(x, y, z));
    let vr = seq![x, y, z, add3_right(x, y, z)];
    assert(vr[0] == x && vr[1] == y && vr[2] == z && vr[3] == add3_right(x, y, z));
}

proof fn lemma_add3_sum_bits(x: u32, y: u32, z: u32)
    by (bit_vector)
    ensures
        ({
            let left = (x ^ y) ^ z;
            let right = ((x & y) | (x & z) | (y & z)) << 1u32;
            (if left + right >= 0x1_0000_0000 {
                (left + right - 0x1_0000_0000) as u32
            } else {
                (left + right) as u32
            }) == ((x + y + z) % 0x1_0000_0000) as u32
        }),
{
}

/// The two words that `add3` reduces three words to, the bitwise sum and
/// the bitwise majority moved up by one bit, add up to the sum of the three
/// words modulo `2^32`.
pub proof fn lemma_add3_sum(x: u32, y: u32, z: u32)
    ensures
        adder_sum(
            add3_left(x, y, z),
            shift_word(add3_right(x, y, z), 1, ShiftVariant::LogicalLeft),
        ) == (x + y + z) % 0x1_0000_0000,
{
    lemma_add3_sum_bits(x, y, z);
}

/// The `n` words of the bitwise sum, or of the bitwise majority, of three
/// columns; words that an input lacks are zero.
pub open spec fn add3_column(
    majority: bool,
    xs: Seq<u32>,
    ys: Seq<u32>,
    zs: Seq<u32>,
    n: nat,
) -> Seq<u32> {
    Seq::new(
        n,
        |i: int|
            if i < xs.len() && i < ys.len() && i < zs.len() {
                if majority {
                    add3_right(xs[i], ys[i], zs[i])
                } else {
                    add3_left(xs[i], ys[i], zs[i])
                }
            } else {
                0
            },
    )
}

fn add3_rows(xs: &[u32], ys: &[u32], zs: &[u32], n: usize) -> (r: (Vec<u32>, Vec<u32>))
    ensures
        r.0@ == add3_column(false, xs@, ys@, zs@, n as nat),
        r.1@ == add3_column(true, xs@, ys@, zs@, n as nat),
{
    let nx: usize = xs.len();
    let ny: usize = ys.len();
    let nz: usize = zs.len();
    let mut lefts: Vec<u32> = Vec::new();
    let mut rights: Vec<u32> = Vec::new();
    let mut i: usize = 0;
    while i < n
        invariant
            i <= n,
            nx == xs@.len(),
            ny == ys@.len(),
            nz == zs@.len(),
            lefts@.len() == i,
            rights@.len() == i,
            forall|j: int|
                0 <= j < i ==> lefts@[j] == add3_column(false, xs@, ys@, zs@, n as nat)[j],
            forall|j: int|
                0 <= j < i ==> rights@[j] == add3_column(true, xs@, ys@, zs@, n as nat)[j],
        decreases n - i,
    {
        if i < nx && i < ny && i < nz {
            let x: u32 = xs[i];
            let y: u32 = ys[i];
            let z: u32 = zs[i];
            lefts.push((x ^ y) ^ z);
            rights.push((x & y) | (x & z) | (y & z));
        } else {
            lefts.push(0);
            rights.push(0);
        }
        i += 1;
    }
    assert(lefts@ =~= add3_column(false, xs@, ys@, zs@, n as nat));
    assert(rights@ =~= add3_column(true, xs@, ys@, zs@, n as nat));
    (lefts, rights)
}

/// The inputs of `add3` with coefficient one each.
pub open spec fn add3_terms(xin: OracleId, yin: OracleId, zin: OracleId) -> Seq<(OracleId, u128)> {
    seq![(xin, 1u128), (yin, 1u128), (zin, 1u128)]
}

/// The builder after the declarations of `add3`: inside the namespace
/// `name`, the bitwise sum of the inputs as their linear combination, and
/// the committed bitwise majority.
pub open spec fn add3_declared(
    b: BuilderView,
    name: Seq<char>,
    xin: OracleId,
    yin: OracleId,
    zin: OracleId,
) -> BuilderView {
    let log_rows = b.oracles.oracles[xin as int].n_vars;
    let b0 = b.with_namespace(name);
    let b1 = b0.with_oracle(
        b0.oracles.linear_combination(b0.named("left"@), log_rows, 0, add3_terms(xin, yin, zin)),
    );
    b1.with_committed("right"@, log_rows, 0)
}

/// The builder once the two columns of `add3` are stored, if it holds a
/// witness. `left` is the id of the bitwise sum.
pub open spec fn add3_filled(
    b: BuilderView,
    log_rows: usize,
    xin: OracleId,
    yin: OracleId,
    zin: OracleId,
    left: OracleId,
) -> BuilderView {
    match b.witness {
        Some(table) => {
            let xs = input_rows(table, xin);
            let ys = input_rows(table, yin);
            let zs = input_rows(table, zin);
            let n = word_count(log_rows);
            b.with_witness(
                table_with(
                    table_with(
                        table,
                        left,
                        u32_entry(log_rows, add3_column(false, xs, ys, zs, n)),
                    ),
                    (left + 1) as usize,
                    u32_entry(log_rows, add3_column(true, xs, ys, zs, n)),
                ),
            )
        },
        None => b,
    }
}

/// The builder with the two relations of `add3` registered.
pub open spec fn add3_constrained(
    b: BuilderView,
    xin: OracleId,
    yin: OracleId,
    zin: OracleId,
    left: OracleId,
) -> BuilderView {
    b.with_constraint(
        ConstraintView {
            oracle_ids: seq![xin, yin, zin, left],
            composition: add3_left_composition(),
        },
    ).with_constraint(
        ConstraintView {
            oracle_ids: seq![xin, yin, zin, (left + 1) as usize],
            composition: add3_right_composition(),
        },
    )
}

/// The builder of `add3` before its final addition: the declarations, the
/// columns, the majority moved up by one bit, and the two relations, then
/// back out of the namespace.
pub open spec fn add3_reduced(
    b: BuilderView,
    name: Seq<char>,
    xin: OracleId,
    yin: OracleId,
    zin: OracleId,
) -> BuilderView {
    let log_rows = b.oracles.oracles[xin as int].n_vars;
    let left = b.next_oracle_id();
    let right = (left + 1) as usize;
    let b2 = add3_filled(add3_declared(b, name, xin, yin, zin), log_rows, xin, yin, zin, left);
    let b3 = shift_state(b2, "right_shifted"@, right, 1, ShiftVariant::LogicalLeft);
    add3_constrained(b3, xin, yin, zin, left).without_namespace()
}

/// Why `add3` fails, if it does.
pub open spec fn add3_defect(
    b: BuilderView,
    name: Seq<char>,
    xin: OracleId,
    yin: OracleId,
    zin: OracleId,
) -> Option<Error> {
    match log_rows_spec(b.oracles.oracles, seq![xin, yin, zin]) {
        Err(e) => Some(e),
        Ok(log_rows) => {
            let left = b.next_oracle_id();
            let right = (left + 1) as usize;
            let b1 = add3_declared(b, name, xin, yin, zin);
            let b2 = add3_filled(b1, log_rows, xin, yin, zin, left);
            first_defect(
                input_defect(b, xin),
                first_defect(
                    input_defect(b, yin),
                    first_defect(
                        input_defect(b, zin),
                        first_defect(
                            column_defect(b, log_rows, 0),
                            first_defect(
                                shift_defect(b2, right, 1),
                                chain_defect(
                                    add3_reduced(b, name, xin, yin, zin),
                                    left,
                                    (left + 2) as usize,
                                ),
                            ),
                        ),
                    ),
                ),
            )
        },
    }
}

/// Declares the oracles of `add3`.
fn add3_declare(
    builder: &mut ConstraintSystemBuilder,
    name: &str,
    xin: OracleId,
    yin: OracleId,
    zin: OracleId,
) -> (r: Result<(usize, OracleId), Error>)
    requires
        old(builder)@.wf(),
    ensures
        final(builder)@.wf(),
        match log_rows_spec(old(builder)@.oracles.oracles, seq![xin, yin, zin]) {
            Err(e) => r == Err::<(usize, OracleId), Error>(e),
            Ok(log_rows) => {
                &&& r == Ok::<(usize, OracleId), Error>((log_rows, old(builder)@.next_oracle_id()))
                &&& log_rows == old(builder)@.oracles.oracles[xin as int].n_vars
                &&& final(builder)@ == add3_declared(old(builder)@, name@, xin, yin, zin)
                &&& final(builder)@.witness == old(builder)@.witness
                &&& old(builder)@.next_oracle_id() + 2 <= usize::MAX
            },
        },
{
    let ids: Vec<OracleId> = vec![xin, yin, zin];
    assert(ids@ =~= seq![xin, yin, zin]);
    let log_rows: usize = match builder.log_rows(ids.as_slice()) {
        Ok(n) => n,
        Err(e) => {
            return Err(e);
        },
    };
    builder.push_namespace(name);
    let terms: Vec<(OracleId, u128)> = vec![(xin, 1u128), (yin, 1u128), (zin, 1u128)];
    assert(terms@ =~= add3_terms(xin, yin, zin));
    proof {
        let oracles = old(builder)@.oracles.oracles;
        crate::builder::lemma_tuple_without_defect(oracles, log_rows, ids@, 3);
        reveal_with_fuel(crate::oracle::combination_defect, 4);
        assert(ids@[0] == xin && ids@[1] == yin && ids@[2] == zin);
        assert(terms@[0] == (xin, 1u128) && terms@[1] == (yin, 1u128) && terms@[2] == (zin, 1u128));
    }
    let left: usize = match builder.add_linear_combination("left", log_rows, terms) {
        Ok(id) => id,
        Err(e) => {
            return Err(Error::Oracle(e));
        },
    };
    builder.add_committed("right", log_rows, 0);
    Ok((log_rows, left))
}

/// Computes and stores the two columns of `add3`.
fn add3_fill(
    builder: &mut ConstraintSystemBuilder,
    log_rows: usize,
    xin: OracleId,
    yin: OracleId,
    zin: OracleId,
    left: OracleId,
) -> (r: Result<(), Error>)
    requires
        old(builder)@.wf(),
        left + 1 <= usize::MAX,
    ensures
        final(builder)@.wf(),
        match first_defect(
            input_defect(old(builder)@, xin),
            first_defect(
                input_defect(old(builder)@, yin),
                first_defect(
                    input_defect(old(builder)@, zin),
                    column_defect(old(builder)@, log_rows, 0),
                ),
            ),
        ) {
            Some(e) => r == Err::<(), Error>(e),
            None => r == Ok::<(), Error>(()) && final(builder)@ == add3_filled(
                old(builder)@,
                log_rows,
                xin,
                yin,
                zin,
                left,
            ),
        },
{
    match builder.witness() {
        Some(witness) => {
            let xs = match witness.load_u32(xin, 0) {
                Ok(v) => v,
                Err(e) => {
                    return Err(Error::Witness(e));
                },
            };
            let ys = match witness.load_u32(yin, 0) {
                Ok(v) => v,
                Err(e) => {
                    return Err(Error::Witness(e));
                },
            };
            let zs = match witness.load_u32(zin, 0) {
                Ok(v) => v,
                Err(e) => {
                    return Err(Error::Witness(e));
                },
            };
            let len: usize = match checked_column_len(log_rows, 0) {
                Some(l) => l,
                None => {
                    return Err(Error::ColumnTooLarge { log_rows, tower_level: 0 });
                },
            };
            let rows = add3_rows(xs.as_slice(), ys.as_slice(), zs.as_slice(), len / 4);
            witness.store_u32(left, log_rows, 0, rows.0.as_slice());
            witness.store_u32(left + 1, log_rows, 0, rows.1.as_slice());
        },
        None => {},
    }
    Ok(())
}

/// Registers the two relations of `add3`.
fn add3_constrain(
    builder: &mut ConstraintSystemBuilder,
    xin: OracleId,
    yin: OracleId,
    zin: OracleId,
    left: OracleId,
)
    requires
        left + 1 <= usize::MAX,
    ensures
        final(builder)@ == add3_constrained(old(builder)@, xin, yin, zin, left),
{
    let left_ids: Vec<OracleId> = vec![xin, yin, zin, left];
    assert(left_ids@ =~= seq![xin, yin, zin, left]);
    builder.assert_zero(left_ids, make_sum_composition());
    let right_ids: Vec<OracleId> = vec![xin, yin, zin, left + 1];
    assert(right_ids@ =~= seq![xin, yin, zin, (left + 1) as usize]);
    builder.assert_zero(right_ids, make_add3_right_composition());
}

/// Declares the sum of three columns of words. The three words of a row
/// are first reduced to two, their bitwise sum and their bitwise majority
/// moved up by one bit, which have the same sum modulo `2^32`; the two are
/// then added as `add` adds.
#[verifier::rlimit(30)]
pub fn add3(
    builder: &mut ConstraintSystemBuilder,
    name: &str,
    xin: OracleId,
    yin: OracleId,
    zin: OracleId,
    flags: Flags,
) -> (r: Result<OracleId, Error>)
    requires
        old(builder)@.wf(),
    ensures
        final(builder)@.wf(),
        match add3_defect(old(builder)@, name@, xin, yin, zin) {
            Some(e) => r == Err::<OracleId, Error>(e),
            None => r == Ok::<OracleId, Error>((old(builder)@.next_oracle_id() + 5) as usize)
                && final(builder)@ == chain_state(
                add3_reduced(old(builder)@, name@, xin, yin, zin),
                "add3 -> add2"@,
                old(builder)@.next_oracle_id(),
                (old(builder)@.next_oracle_id() + 2) as usize,
                flags,
                false,
            ),
        },
{
    let (log_rows, left) = match add3_declare(builder, name, xin, yin, zin) {
        Ok(v) => v,
        Err(e) => {
            return Err(e);
        },
    };
    let ghost declared = builder@;
    proof {
        lemma_inputs_unchanged(old(builder)@, declared, xin, yin, log_rows);
        lemma_inputs_unchanged(old(builder)@, declared, zin, zin, log_rows);
    }
    match add3_fill(builder, log_rows, xin, yin, zin, left) {
        Ok(()) => {},
        Err(e) => {
            return Err(e);
        },
    }
    let right: usize = left + 1;
    let right_shifted: usize = match shl(builder, "right_shifted", right, 1) {
        Ok(id) => id,
        Err(e) => {
            return Err(e);
        },
    };
    add3_constrain(builder, xin, yin, zin, left);
    builder.pop_namespace();
    self::add(builder, "add3 -> add2", left, right_shifted, flags)
}

/// Where `add3` succeeds on a builder that holds the columns of its three
/// inputs, the column of its result holds, in every word, the sum of the
/// words of the three inputs modulo `2^32`.
pub proof fn lemma_add3_result(
    b: BuilderView,
    name: Seq<char>,
    xin: OracleId,
    yin: OracleId,
    zin: OracleId,
    flags: Flags,
    log_rows: usize,
    xs: Seq<u32>,
    ys: Seq<u32>,
    zs: Seq<u32>,
)
    requires
        b.oracles.oracles.len() + 8 <= usize::MAX,
        b.oracles.batches.len() + 3 < usize::MAX,
        holds_words(b, xin, log_rows, xs),
        holds_words(b, yin, log_rows, ys),
        holds_words(b, zin, log_rows, zs),
    ensures
        holds_words(
            chain_state(
                add3_reduced(b, name, xin, yin, zin),
                "add3 -> add2"@,
                b.next_oracle_id(),
                (b.next_oracle_id() + 2) as usize,
                flags,
                false,
            ),
            (b.next_oracle_id() + 5) as usize,
            log_rows,
            Seq::new(xs.len(), |i: int| ((xs[i] + ys[i] + zs[i]) % 0x1_0000_0000) as u32),
        ),
{
    let left = b.next_oracle_id();
    let right = (left + 1) as usize;
    let shifted = (left + 2) as usize;
    let n = word_count(log_rows);
    let table = b.witness->0;
    assert(input_rows(table, xin) == xs);
    assert(input_rows(table, yin) == ys);
    assert(input_rows(table, zin) == zs);
    let lefts = add3_column(false, xs, ys, zs, n);
    let rights = add3_column(true, xs, ys, zs, n);
    let b0 = b.with_namespace(name);
    let b1 = b0.with_oracle(
        b0.oracles.linear_combination(b0.named("left"@), log_rows, 0, add3_terms(xin, yin, zin)),
    );
    lemma_committed_shape(b1, "right"@, log_rows, 0);
    let declared = add3_declared(b, name, xin, yin, zin);
    assert(declared.witness == b.witness);
    assert(declared.oracles.oracles.len() == b.oracles.oracles.len() + 2);
    let filled = add3_filled(declared, log_rows, xin, yin, zin, left);
    let t1 = table_with(table, left, u32_entry(log_rows, lefts));
    let t2 = table_with(t1, right, u32_entry(log_rows, rights));
    assert(filled.witness == Some(t2));
    lemma_u32_rows_of_bytes(lefts);
    lemma_u32_rows_of_bytes(rights);
    lemma_entry_of_table_with(table, left, u32_entry(log_rows, lefts), left);
    lemma_entry_of_table_with(t1, right, u32_entry(log_rows, rights), left);
    lemma_entry_of_table_with(t1, right, u32_entry(log_rows, rights), right);
    assert(holds_words(filled, left, log_rows, lefts));
    assert(holds_words(filled, right, log_rows, rights));
    lemma_shift_result(filled, "right_shifted"@, right, 1, ShiftVariant::LogicalLeft, left);
    let moved = shift_state(filled, "right_shifted"@, right, 1, ShiftVariant::LogicalLeft);
    let shifts = shift_rows(rights, n, 1, ShiftVariant::LogicalLeft);
    assert(input_rows(t2, right) == rights);
    assert(holds_words(moved, shifted, log_rows, shifts));
    assert(holds_words(moved, left, log_rows, lefts));
    let reduced = add3_reduced(b, name, xin, yin, zin);
    assert(reduced.witness == moved.witness);
    assert(reduced.oracles == moved.oracles);
    assert(holds_words(reduced, shifted, log_rows, shifts));
    assert(holds_words(reduced, left, log_rows, lefts));
    lemma_chain_result(reduced, "add3 -> add2"@, left, shifted, flags, false, left);
    lemma_chain_shape(reduced, "add3 -> add2"@, left, flags, false);
    let outs = chain_column(ChainColumn::Out, false, lefts, shifts, n);
    let target = Seq::new(xs.len(), |i: int| ((xs[i] + ys[i] + zs[i]) % 0x1_0000_0000) as u32);
    assert forall|i: int| 0 <= i < n implies outs[i] == target[i] by {
        lemma_add3_sum(xs[i], ys[i], zs[i]);
    }
    assert(outs =~= target);
}

/// Why `constant` fails, if it does.
pub open spec fn constant_defect(b: BuilderView, log_count: usize) -> Option<Error> {
    if log_count + LOG_WORD_BITS > usize::MAX {
        Some(Error::Oracle(crate::oracle::Error::TooManyVariables))
    } else {
        column_defect(b, (log_count + LOG_WORD_BITS) as usize, 0)
    }
}

/// The 32-bit column of `2^log_rows` rows that holds the given words.
pub open spec fn word_entry(log_rows: usize, rows: Seq<u32>) -> EntryView {
    EntryView { log_rows, tower_level: LOG_WORD_BITS, data: u32_bytes(rows) }
}

/// A column of `n` words that all hold `value`.
pub open spec fn constant_rows(value: u32, n: nat) -> Seq<u32> {
    Seq::new(n, |i: int| value)
}

/// The builder after the first part of `constant`: inside the namespace
/// `name`, the committed column of bits, and its column.
pub open spec fn constant_output(
    b: BuilderView,
    name: Seq<char>,
    log_count: usize,
    value: u32,
) -> BuilderView {
    let log_rows = (log_count + LOG_WORD_BITS) as usize;
    with_column(
        b.with_namespace(name).with_committed("output"@, log_rows, 0),
        b.next_oracle_id(),
        u32_entry(log_rows, constant_rows(value, word_count(log_rows))),
    )
}

/// The builder after the second part of `constant`: the packing of the
/// column `output` into 32-bit elements and the transparent constant, their
/// columns, and the constraint that the two are equal, then back out of the
/// namespace.
pub open spec fn constant_unpacked(
    b: BuilderView,
    output: OracleId,
    log_count: usize,
    value: u32,
) -> BuilderView {
    let log_rows = (log_count + LOG_WORD_BITS) as usize;
    let rows = constant_rows(value, word_count(log_rows));
    let b2 = b.with_oracle(b.oracles.packed(b.named("output_packed"@), output, LOG_WORD_BITS));
    let b3 = b2.with_oracle(
        b2.oracles.transparent(
            b2.named("transparent"@),
            crate::oracle::TransparentView::Constant { n_vars: log_count, value: value as u128 },
        ),
    );
    let b4 = with_column(
        with_column(b3, b.next_oracle_id(), word_entry(log_count, rows)),
        (b.next_oracle_id() + 1) as usize,
        word_entry(log_count, rows),
    );
    b4.with_constraint(
        ConstraintView {
            oracle_ids: seq![b.next_oracle_id(), (b.next_oracle_id() + 1) as usize],
            composition: difference_composition(),
        },
    ).without_namespace()
}

/// The builder after `constant`. Inside the namespace `name`, the gadget
/// declares a committed column of bits, its packing into 32-bit elements
/// and the transparent constant; stores the columns, which all hold
/// `value` in every word; and registers the constraint that the packed
/// column equals the constant.
pub open spec fn constant_state(
    b: BuilderView,
    name: Seq<char>,
    log_count: usize,
    value: u32,
) -> BuilderView {
    constant_unpacked(constant_output(b, name, log_count, value), b.next_oracle_id(), log_count, value)
}

/// The composition `x - y`.
pub open spec fn difference_composition() -> ArithExpr {
    ArithExpr::Add(Box::new(ArithExpr::Var(0)), Box::new(ArithExpr::Var(1)))
}

fn constant_words(value: u32, n: usize) -> (r: Vec<u32>)
    ensures
        r@ == constant_rows(value, n as nat),
{
    let mut out: Vec<u32> = Vec::new();
    let mut i: usize = 0;
    while i < n
        invariant
            i <= n,
            out@.len() == i,
            forall|j: int| 0 <= j < i ==> out@[j] == value,
        decreases n - i,
    {
        out.push(value);
        i += 1;
    }
    assert(out@ =~= constant_rows(value, n as nat));
    out
}

/// Declares the committed column of bits of `constant` and stores its
/// column.
#[verifier::rlimit(30)]
fn constant_declare_output(
    builder: &mut ConstraintSystemBuilder,
    name: &str,
    log_count: usize,
    value: u32,
) -> (r: Result<(OracleId, Vec<u32>), Error>)
    requires
        old(builder)@.wf(),
    ensures
        final(builder)@.wf(),
        match constant_defect(old(builder)@, log_count) {
            Some(e) => r == Err::<(OracleId, Vec<u32>), Error>(e),
            None => {
                &&& r is Ok
                &&& r->Ok_0.0 == old(builder)@.next_oracle_id()
                &&& final(builder)@ == constant_output(old(builder)@, name@, log_count, value)
                &&& final(builder)@.witness is Some ==> r->Ok_0.1@ == constant_rows(
                    value,
                    word_count((log_count + LOG_WORD_BITS) as usize),
                ) && column_len((log_count + LOG_WORD_BITS) as usize, 0) <= usize::MAX
                &&& crate::oracle::OracleSetView::packed_defect(
                    final(builder)@.oracles,
                    r->Ok_0.0,
                    LOG_WORD_BITS,
                ) is None
                &&& final(builder)@.next_oracle_id() == r->Ok_0.0 + 1
            },
        },
{
    let log_rows: usize = match log_count.checked_add(LOG_WORD_BITS) {
        Some(n) => n,
        None => {
            return Err(Error::Oracle(crate::oracle::Error::TooManyVariables));
        },
    };
    builder.push_namespace(name);
    let output: usize = builder.add_committed("output", log_rows, 0);
    let mut words: Vec<u32> = Vec::new();
    match builder.witness() {
        Some(witness) => {
            let len: usize = match checked_column_len(log_rows, 0) {
                Some(l) => l,
                None => {
                    return Err(Error::ColumnTooLarge { log_rows, tower_level: 0 });
                },
            };
            words = constant_words(value, len / 4);
            witness.store_u32(output, log_rows, 0, words.as_slice());
        },
        None => {},
    }
    Ok((output, words))
}

/// Declares the packing and the transparent constant of `constant`, stores
/// their columns and registers the constraint that they are equal.
#[verifier::rlimit(30)]
fn constant_unpack(
    builder: &mut ConstraintSystemBuilder,
    output: OracleId,
    log_count: usize,
    value: u32,
    words: &Vec<u32>,
) -> (r: Result<(), Error>)
    requires
        old(builder)@.wf(),
        log_count + LOG_WORD_BITS <= usize::MAX,
        old(builder)@.oracles.packed_defect(output, LOG_WORD_BITS) is None,
        old(builder)@.witness is Some ==> words@ == constant_rows(
            value,
            word_count((log_count + LOG_WORD_BITS) as usize),
        ) && column_len((log_count + LOG_WORD_BITS) as usize, 0) <= usize::MAX,
    ensures
        final(builder)@.wf(),
        r == Ok::<(), Error>(()),
        final(builder)@ == constant_unpacked(old(builder)@, output, log_count, value),
{
    let output_packed: usize = match builder.add_packed("output_packed", output, LOG_WORD_BITS) {
        Ok(id) => id,
        Err(e) => {
            return Err(Error::Oracle(e));
        },
    };
    let transparent: usize = match builder.add_transparent(
        "transparent",
        crate::oracle::Transparent::Constant { n_vars: log_count, value: value as u128 },
    ) {
        Ok(id) => id,
        Err(e) => {
            return Err(Error::Oracle(e));
        },
    };
    match builder.witness() {
        Some(witness) => {
            proof {
                crate::builder::witness::layout::lemma_column_len_packed(log_count, LOG_WORD_BITS);
            }
            witness.store_u32(output_packed, log_count, LOG_WORD_BITS, words.as_slice());
            witness.store_u32(transparent, log_count, LOG_WORD_BITS, words.as_slice());
        },
        None => {},
    }
    let ids: Vec<OracleId> = vec![output_packed, transparent];
    assert(ids@ =~= seq![output_packed, transparent]);
    builder.assert_zero(ids, ArithExpr::var(0).plus(ArithExpr::var(1)));
    builder.pop_namespace();
    Ok(())
}

/// Declares a column of `2^log_count` words that all hold `value`, as a
/// committed column of bits constrained to equal the constant.
pub fn constant(
    builder: &mut ConstraintSystemBuilder,
    name: &str,
    log_count: usize,
    value: u32,
) -> (r: Result<OracleId, Error>)
    requires
        old(builder)@.wf(),
    ensures
        final(builder)@.wf(),
        match constant_defect(old(builder)@, log_count) {
            Some(e) => r == Err::<OracleId, Error>(e),
            None => r == Ok::<OracleId, Error>(old(builder)@.next_oracle_id()) && final(builder)@
                == constant_state(old(builder)@, name@, log_count, value),
        },
{
    let (output, words) = match constant_declare_output(builder, name, log_count, value) {
        Ok(v) => v,
        Err(e) => {
            return Err(e);
        },
    };
    match constant_unpack(builder, output, log_count, value, &words) {
        Ok(()) => {},
        Err(e) => {
            return Err(e);
        },
    }
    Ok(output)
}

/// What `shl` does to a builder: the new builder and the result, or an
/// error.
pub open spec fn shl_outcome(
    b: BuilderView,
    name: Seq<char>,
    input: OracleId,
    offset: usize,
) -> Result<(BuilderView, OracleId), Error> {
    if offset == 0 {
        Ok((b, input))
    } else {
        match shift_defect(b, input, offset) {
            Some(e) => Err(e),
            None => Ok(
                (
                    shift_state(b, name, input, offset, ShiftVariant::LogicalLeft),
                    b.next_oracle_id(),
                ),
            ),
        }
    }
}

/// What `add` does to a builder: the new builder and the result, or an
/// error.
pub open spec fn add_outcome(
    b: BuilderView,
    name: Seq<char>,
    xin: OracleId,
    yin: OracleId,
    flags: Flags,
) -> Result<(BuilderView, OracleId), Error> {
    match chain_defect(b, xin, yin) {
        Some(e) => Err(e),
        None => Ok(
            (chain_state(b, name, xin, yin, flags, false), (b.next_oracle_id() + 2) as usize),
        ),
    }
}

/// What one bit of the multiplier does in `mul_const`: nothing when the
/// bit is clear; when it is set, the input is moved up by `offset` bits and,
/// unless it is the first such term, added to the sum so far. The outcome
/// is the new builder, the new sum and whether the next term is still the
/// first.
pub open spec fn mul_term(
    b: BuilderView,
    input: OracleId,
    flags: Flags,
    bit: bool,
    offset: usize,
    result: OracleId,
    first: bool,
) -> Result<(BuilderView, OracleId, bool), Error> {
    if !bit {
        Ok((b, result, first))
    } else {
        match shl_outcome(b, "input_shl"@ + decimal(offset as nat), input, offset) {
            Err(e) => Err(e),
            Ok((b1, shifted)) => if first {
                Ok((b1, shifted, false))
            } else {
                match add_outcome(b1, "add_shl"@ + decimal(offset as nat), result, shifted, flags) {
                    Err(e) => Err(e),
                    Ok((b2, sum)) => Ok((b2, sum, false)),
                }
            },
        }
    }
}

/// What the bits of the multiplier `tmp`, from the lowest up, do in
/// `mul_const`, the lowest bit standing for `2^offset`. The outcome is the
/// new builder, the sum of the terms and the position of the highest set
/// bit.
pub open spec fn mul_terms(
    b: BuilderView,
    input: OracleId,
    flags: Flags,
    tmp: u32,
    offset: usize,
    result: OracleId,
    first: bool,
) -> Result<(BuilderView, OracleId, usize), Error>
    decreases tmp,
{
    if tmp == 0 {
        Ok((b, result, offset))
    } else {
        match mul_term(b, input, flags, tmp % 2 == 1, offset, result, first) {
            Err(e) => Err(e),
            Ok((b1, sum, still_first)) => mul_terms(
                b1,
                input,
                flags,
                tmp / 2,
                if tmp / 2 != 0 {
                    (offset + 1) as usize
                } else {
                    offset
                },
                sum,
                still_first,
            ),
        }
    }
}

/// What the overflow checks of `mul_const` do: each of the bits `i .. 32`
/// of the input is declared and asserted to be zero.
pub open spec fn mul_checks(b: BuilderView, input: OracleId, i: usize) -> Result<BuilderView, Error>
    decreases 32 - i,
{
    if i >= 32 {
        Ok(b)
    } else {
        match select_bit_defect(b, input, i) {
            Some(e) => Err(e),
            None => mul_checks(
                select_bit_state(b, "bit"@ + decimal(i as nat), input, i).with_constraint(
                    ConstraintView {
                        oracle_ids: seq![b.next_oracle_id()],
                        composition: identity_composition(),
                    },
                ),
                input,
                (i + 1) as usize,
            ),
        }
    }
}

/// What `mul_const` does with the multiplier zero: the product is the
/// transparent constant zero.
pub open spec fn mul_zero_outcome(b: BuilderView, name: Seq<char>, input: OracleId) -> Result<
    (BuilderView, OracleId),
    Error,
> {
    match log_rows_spec(b.oracles.oracles, seq![input]) {
        Err(e) => Err(e),
        Ok(log_rows) => match column_defect(b, log_rows, 0) {
            Some(e) => Err(e),
            None => Ok(
                (
                    with_column(
                        b.with_oracle(
                            b.oracles.transparent(
                                b.named(name),
                                crate::oracle::TransparentView::Constant {
                                    n_vars: log_rows,
                                    value: 0,
                                },
                            ),
                        ),
                        b.next_oracle_id(),
                        u32_entry(log_rows, constant_rows(0, word_count(log_rows))),
                    ),
                    b.next_oracle_id(),
                ),
            ),
        },
    }
}

/// What `mul_const` does to a builder: the new builder and the product, or
/// an error. The product by zero is the constant zero and the product by
/// one is the input. Otherwise, inside the namespace `name`, the input
/// moved up by the position of each set bit of the multiplier is summed up,
/// and, when checked, every bit of the input that the highest term moves
/// out of the word is asserted to be zero.
pub open spec fn mul_const_outcome(
    b: BuilderView,
    name: Seq<char>,
    input: OracleId,
    value: u32,
    flags: Flags,
) -> Result<(BuilderView, OracleId), Error> {
    if value == 0 {
        mul_zero_outcome(b, name, input)
    } else if value == 1 {
        Ok((b, input))
    } else {
        match mul_terms(b.with_namespace(name), input, flags, value, 0, input, true) {
            Err(e) => Err(e),
            Ok((b1, result, offset)) => match flags {
                Flags::Checked => match mul_checks(b1, input, (32 - offset) as usize) {
                    Err(e) => Err(e),
                    Ok(b2) => Ok((b2.without_namespace(), result)),
                },
                Flags::Unchecked => Ok((b1.without_namespace(), result)),
            },
        }
    }
}

/// The word that the terms of `mul_const` sum up to, for the input word
/// `x` and the bits of the multiplier `tmp` from the lowest up, the lowest
/// standing for `2^offset`: as `mul_terms` does on columns, the input is
/// moved up by the position of every set bit, and the terms are added up
/// modulo `2^32`.
pub open spec fn product_terms(x: u32, tmp: u32, offset: usize, acc: u32, first: bool) -> u32
    decreases tmp,
{
    if tmp == 0 {
        acc
    } else {
        let term = if offset == 0 {
            x
        } else {
            shift_word(x, offset, ShiftVariant::LogicalLeft)
        };
        let sum = if tmp % 2 == 1 {
            if first {
                term
            } else {
                adder_sum(acc, term)
            }
        } else {
            acc
        };
        product_terms(
            x,
            tmp / 2,
            if tmp / 2 != 0 {
                (offset + 1) as usize
            } else {
                offset
            },
            sum,
            first && tmp % 2 != 1,
        )
    }
}

proof fn lemma_shift_doubles(x: u32, o: u32)
    by (bit_vector)
    requires
        o < 31,
    ensures
        x << ((o + 1) as u32) == (((x << o) as u64 * 2) % 0x1_0000_0000) as u32,
        x << 0u32 == x,
{
}

/// A word moved up by `offset` bits is the word times `2^offset`, modulo
/// `2^32`.
pub proof fn lemma_shift_is_product(x: u32, offset: usize)
    requires
        offset <= 31,
    ensures
        (x << (offset as u32)) == (x * vstd::arithmetic::power2::pow2(offset as nat))
            % 0x1_0000_0000,
    decreases offset,
{
    vstd::arithmetic::power2::lemma2_to64();
    if offset == 0 {
        lemma_shift_doubles(x, 0);
    } else {
        let o = (offset - 1) as usize;
        lemma_shift_is_product(x, o);
        lemma_shift_doubles(x, o as u32);
        let p = vstd::arithmetic::power2::pow2(o as nat) as int;
        vstd::arithmetic::power2::lemma_pow2_unfold(offset as nat);
        let m = 0x1_0000_0000int;
        let y = (x << (o as u32)) as int;
        assert(y == (x * p) % m);
        vstd::arithmetic::div_mod::lemma_mul_mod_noop_general(x * p, 2, m);
        assert((x * p) * 2 == x * (2 * p)) by (nonlinear_arith);
    }
}

/// The terms of `mul_const` sum up to the product: for a multiplier whose
/// bits, moved up by `offset`, fit in 32 bits, the word that the terms sum
/// up to is the sum so far plus the input times the multiplier times
/// `2^offset`, modulo `2^32`.
pub proof fn lemma_product_terms(x: u32, tmp: u32, offset: usize, acc: u32, first: bool)
    requires
        tmp > 0,
        offset <= 31,
        tmp * vstd::arithmetic::power2::pow2(offset as nat) < 0x1_0000_0000,
    ensures
        product_terms(x, tmp, offset, acc, first) == ((if first {
            0int
        } else {
            acc as int
        }) + x * tmp * vstd::arithmetic::power2::pow2(offset as nat)) % 0x1_0000_0000,
    decreases tmp,
{
    let m = 0x1_0000_0000int;
    let p = vstd::arithmetic::power2::pow2(offset as nat) as int;
    let v = if first {
        0int
    } else {
        acc as int
    };
    vstd::arithmetic::power2::lemma2_to64();
    vstd::arithmetic::power2::lemma_pow2_pos(offset as nat);
    lemma_shift_is_product(x, offset);
    let term = if offset == 0 {
        x
    } else {
        shift_word(x, offset, ShiftVariant::LogicalLeft)
    };
    assert(term == (x * p) % m);
    let bit = tmp % 2;
    let half = (tmp / 2) as u32;
    let sum = if bit == 1 {
        if first {
            term
        } else {
            adder_sum(acc, term)
        }
    } else {
        acc
    };
    let still_first = first && bit != 1;
    // the value of the sum after this bit
    let w = if still_first {
        0int
    } else {
        sum as int
    };
    assert(w == (v + x * bit * p) % m) by {
        if bit == 1 {
            assert(x * bit * p == x * p) by (nonlinear_arith)
                requires
                    bit == 1,
            ;
            if first {
                assert(v + x * p == x * p);
            } else {
                assert(adder_sum(acc, term) == (acc + term) % m);
                vstd::arithmetic::div_mod::lemma_add_mod_noop_right(acc as int, x * p, m);
            }
        } else {
            assert(x * bit * p == 0) by (nonlinear_arith)
                requires
                    bit == 0,
            ;
            if !first {
                vstd::arithmetic::div_mod::lemma_small_mod(acc as nat, m as nat);
            }
        }
    }
    if half == 0 {
        assert(tmp == 1 && bit == 1);
        assert(product_terms(x, half, offset, sum, still_first) == sum);
        assert(x * tmp * p == x * bit * p);
    } else {
        vstd::arithmetic::power2::lemma_pow2_unfold((offset + 1) as nat);
        let q = vstd::arithmetic::power2::pow2((offset + 1) as nat) as int;
        assert(q == 2 * p);
        assert(half * q <= tmp * p) by (nonlinear_arith)
            requires
                tmp == 2 * half + bit,
                bit >= 0,
                q == 2 * p,
                p > 0,
        ;
        assert(offset + 1 <= 31) by {
            if offset + 1 > 31 {
                vstd::arithmetic::power2::lemma_pow2_strictly_increases(31, (offset + 1) as nat);
                assert(half * q >= q) by (nonlinear_arith)
                    requires
                        half >= 1,
                        q > 0,
                ;
            }
        }
        lemma_product_terms(x, half, (offset + 1) as usize, sum, still_first);
        let rest = x * half * q;
        assert(x * tmp * p == x * bit * p + rest) by (nonlinear_arith)
            requires
                tmp == 2 * half + bit,
                q == 2 * p,
                rest == x * half * q,
        ;
        assert(product_terms(x, tmp, offset, acc, first) == (w + rest) % m);
        vstd::arithmetic::div_mod::lemma_add_mod_noop(v + x * bit * p, rest, m);
        vstd::arithmetic::div_mod::lemma_add_mod_noop(w, rest, m);
        vstd::arithmetic::div_mod::lemma_mod_twice(v + x * bit * p, m);
    }
}

/// The terms of `mul_const` sum up to the product of the input word and the
/// multiplier, modulo `2^32`.
pub proof fn lemma_mul_const_product(x: u32, value: u32)
    requires
        value > 0,
    ensures
        product_terms(x, value, 0, x, true) == (x * value) % 0x1_0000_0000,
{
    vstd::arithmetic::power2::lemma2_to64();
    lemma_product_terms(x, value, 0, x, true);
    assert(x * value * 1 == x * value) by (nonlinear_arith);
}

/// The word that one bit of the multiplier leaves as the sum of
/// `mul_const`: the sum so far when the bit is clear, and otherwise the
/// input word moved up by `offset` bits, alone if it is the first term and
/// added to the sum so far if it is not.
pub open spec fn term_sum(x: u32, bit: bool, offset: usize, acc: u32, first: bool) -> u32 {
    if !bit {
        acc
    } else {
        let term = if offset == 0 {
            x
        } else {
            shift_word(x, offset, ShiftVariant::LogicalLeft)
        };
        if first {
            term
        } else {
            adder_sum(acc, term)
        }
    }
}

/// Whether the builder holds, for the oracle `id` of `log_rows` variables,
/// a one-bit column of exactly the given words.
pub open spec fn holds_words(b: BuilderView, id: OracleId, log_rows: usize, words: Seq<u32>) -> bool {
    &&& b.witness is Some
    &&& id < b.oracles.oracles.len()
    &&& b.oracles.oracles[id as int].n_vars == log_rows
    &&& words.len() == word_count(log_rows)
    &&& column_words(b.witness->0, id) == Some(words)
}

/// What one bit of the multiplier does to the columns, where `mul_term`
/// succeeds on a builder that holds the columns of the input and of the
/// sum so far: the column of the new sum holds, word by word, what
/// `term_sum` says, and the column of the input is as it was.
pub proof fn lemma_mul_term_result(
    b: BuilderView,
    input: OracleId,
    flags: Flags,
    bit: bool,
    offset: usize,
    result: OracleId,
    first: bool,
    log_rows: usize,
    xs: Seq<u32>,
    accs: Seq<u32>,
)
    requires
        b.oracles.oracles.len() + 5 <= usize::MAX,
        b.oracles.batches.len() + 1 < usize::MAX,
        holds_words(b, input, log_rows, xs),
        holds_words(b, result, log_rows, accs),
        mul_term(b, input, flags, bit, offset, result, first) is Ok,
    ensures
        ({
            let (state, sum, still_first) = mul_term(b, input, flags, bit, offset, result, first)->Ok_0;
            &&& still_first == (first && !bit)
            &&& state.oracles.oracles.len() <= b.oracles.oracles.len() + 5
            &&& state.oracles.batches.len() <= b.oracles.batches.len() + 1
            &&& holds_words(state, input, log_rows, xs)
            &&& holds_words(
                state,
                sum,
                log_rows,
                Seq::new(xs.len(), |i: int| term_sum(xs[i], bit, offset, accs[i], first)),
            )
        }),
{
    let n = word_count(log_rows);
    let target = Seq::new(xs.len(), |i: int| term_sum(xs[i], bit, offset, accs[i], first));
    let table = b.witness->0;
    if !bit {
        assert(target =~= accs);
    } else {
        let shl_name = "input_shl"@ + decimal(offset as nat);
        let (b1, shifted) = shl_outcome(b, shl_name, input, offset)->Ok_0;
        let terms = Seq::new(
            xs.len(),
            |i: int|
                if offset == 0 {
                    xs[i]
                } else {
                    shift_word(xs[i], offset, ShiftVariant::LogicalLeft)
                },
        );
        assert(input_rows(table, input) == xs);
        assert(input_rows(table, result) == accs);
        if offset == 0 {
            assert(terms =~= xs);
        } else {
            lemma_shift_result(b, shl_name, input, offset, ShiftVariant::LogicalLeft, input);
            lemma_shift_result(b, shl_name, input, offset, ShiftVariant::LogicalLeft, result);
            assert(shift_rows(xs, n, offset, ShiftVariant::LogicalLeft) =~= terms);
        }
        assert(holds_words(b1, shifted, log_rows, terms));
        assert(holds_words(b1, input, log_rows, xs));
        assert(holds_words(b1, result, log_rows, accs));
        if first {
            assert(target =~= terms);
        } else {
            let add_name = "add_shl"@ + decimal(offset as nat);
            let state = chain_state(b1, add_name, result, shifted, flags, false);
            let t1 = b1.witness->0;
            lemma_chain_result(b1, add_name, result, shifted, flags, false, input);
            assert(input_rows(t1, result) == accs);
            assert(input_rows(t1, shifted) == terms);
            assert(chain_column(ChainColumn::Out, false, accs, terms, n) =~= target);
            lemma_chain_shape(b1, add_name, result, flags, false);
        }
    }
}

/// The result of `add` or `sub` has the number of variables of its first
/// input, the oracles declared before are as they were, and at most four
/// oracles and one batch are added.
pub proof fn lemma_chain_shape(
    b: BuilderView,
    name: Seq<char>,
    pin: OracleId,
    flags: Flags,
    subtract: bool,
)
    requires
        b.oracles.oracles.len() + 4 <= usize::MAX,
        b.oracles.batches.len() + 1 < usize::MAX,
        pin < b.oracles.oracles.len(),
    ensures
        forall|qin: OracleId|
            ({
                let state = #[trigger] chain_state(b, name, pin, qin, flags, subtract);
                let log_rows = b.oracles.oracles[pin as int].n_vars;
                &&& b.oracles.oracles.len() + 3 <= state.oracles.oracles.len()
                    <= b.oracles.oracles.len() + 4
                &&& state.oracles.batches.len() <= b.oracles.batches.len() + 1
                &&& state.oracles.oracles[(b.oracles.oracles.len() + 2) as int].n_vars == log_rows
                &&& forall|i: int|
                    0 <= i < b.oracles.oracles.len() ==> state.oracles.oracles[i]
                        == b.oracles.oracles[i]
            }),
{
    let log_rows = b.oracles.oracles[pin as int].n_vars;
    let b0 = b.with_namespace(name);
    lemma_committed_shape(b0, "cout"@, log_rows, 0);
    let b1 = b0.with_committed("cout"@, log_rows, 0);
    let b2 = b1.with_oracle(
        b1.oracles.shifted(
            b1.named("cin"@),
            b.next_oracle_id(),
            1,
            LOG_WORD_BITS,
            ShiftVariant::LogicalLeft,
        ),
    );
    lemma_committed_shape(b2, chain_out_name(subtract), log_rows, 0);
    lemma_same_batch_again(b0, b2, log_rows, 0);
}

/// Once a batch of a shape exists, declaring another committed oracle of
/// that shape opens no batch.
proof fn lemma_same_batch_again(b: BuilderView, later: BuilderView, n_vars: usize, tower_level: usize)
    requires
        later.oracles.batches == b.with_batch(n_vars, tower_level).oracles.batches,
        b.oracles.batches.len() < usize::MAX,
    ensures
        later.with_batch(n_vars, tower_level).oracles.batches == later.oracles.batches,
{
    reveal(BuilderView::has_batch);
    reveal(BuilderView::batch_of);
    if b.has_batch(n_vars, tower_level) {
        let k = choose|k: int|
            0 <= k < b.oracles.batches.len() && b.oracles.batches[k] == (
            crate::oracle::CommittedBatch { n_vars, tower_level });
        assert(0 <= k < later.oracles.batches.len() && later.oracles.batches[k] == (
        crate::oracle::CommittedBatch { n_vars, tower_level }));
    } else {
        let k = b.oracles.batches.len() as int;
        assert(0 <= k < later.oracles.batches.len() && later.oracles.batches[k] == (
        crate::oracle::CommittedBatch { n_vars, tower_level }));
    }
}

/// What the terms of `mul_const` do to the columns, where `mul_terms`
/// succeeds on a builder that holds the columns of the input and of the
/// sum so far: the column of the sum of the terms holds, word by word, what
/// `product_terms` says, and the column of the input is as it was.
#[verifier::rlimit(40)]
pub proof fn lemma_mul_terms_result(
    b: BuilderView,
    input: OracleId,
    flags: Flags,
    tmp: u32,
    offset: usize,
    result: OracleId,
    first: bool,
    log_rows: usize,
    xs: Seq<u32>,
    accs: Seq<u32>,
)
    requires
        offset <= 31,
        tmp * vstd::arithmetic::power2::pow2(offset as nat) < 0x1_0000_0000,
        b.oracles.oracles.len() + 5 * (32 - offset) <= usize::MAX,
        b.oracles.batches.len() + (32 - offset) < usize::MAX,
        holds_words(b, input, log_rows, xs),
        holds_words(b, result, log_rows, accs),
        mul_terms(b, input, flags, tmp, offset, result, first) is Ok,
    ensures
        ({
            let (state, sum, last) = mul_terms(b, input, flags, tmp, offset, result, first)->Ok_0;
            &&& offset <= last <= 31
            &&& state.oracles.oracles.len() <= b.oracles.oracles.len() + 5 * (32 - offset)
            &&& b.oracles.oracles.len() <= state.oracles.oracles.len()
            &&& holds_words(state, input, log_rows, xs)
            &&& holds_words(
                state,
                sum,
                log_rows,
                Seq::new(xs.len(), |i: int| product_terms(xs[i], tmp, offset, accs[i], first)),
            )
        }),
    decreases tmp,
{
    let target = Seq::new(xs.len(), |i: int| product_terms(xs[i], tmp, offset, accs[i], first));
    if tmp == 0 {
        assert(target =~= accs);
    } else {
        let bit = tmp % 2 == 1;
        let half = (tmp / 2) as u32;
        let step = mul_term(b, input, flags, bit, offset, result, first);
        assert(step is Ok);
        let (b1, sum1, first1) = step->Ok_0;
        lemma_mul_term_result(b, input, flags, bit, offset, result, first, log_rows, xs, accs);
        let rows1 = Seq::new(xs.len(), |i: int| term_sum(xs[i], bit, offset, accs[i], first));
        assert(holds_words(b1, sum1, log_rows, rows1));
        assert(holds_words(b1, input, log_rows, xs));
        if half == 0 {
            assert(mul_terms(b1, input, flags, half, offset, sum1, first1) == Ok::<
                (BuilderView, OracleId, usize),
                Error,
            >((b1, sum1, offset)));
            assert forall|i: int| 0 <= i < xs.len() implies target[i] == rows1[i] by {
                assert(product_terms(xs[i], 0, offset, rows1[i], first1) == rows1[i]);
            }
            assert(target =~= rows1);
        } else {
            let next = (offset + 1) as usize;
            vstd::arithmetic::power2::lemma2_to64();
            vstd::arithmetic::power2::lemma_pow2_pos(offset as nat);
            let p = vstd::arithmetic::power2::pow2(offset as nat) as int;
            vstd::arithmetic::power2::lemma_pow2_unfold((offset + 1) as nat);
            let q = vstd::arithmetic::power2::pow2((offset + 1) as nat) as int;
            assert(half * q <= tmp * p) by (nonlinear_arith)
                requires
                    tmp >= 2 * half,
                    q == 2 * p,
                    p > 0,
                    half >= 0,
            ;
            if offset + 1 > 31 {
                vstd::arithmetic::power2::lemma_pow2_strictly_increases(31, (offset + 1) as nat);
                assert(half * q >= q) by (nonlinear_arith)
                    requires
                        half >= 1,
                        q > 0,
                ;
            }
            assert(offset + 1 <= 31);
            lemma_mul_terms_result(b1, input, flags, half, next, sum1, first1, log_rows, xs, rows1);
            let after = Seq::new(
                xs.len(),
                |i: int| product_terms(xs[i], half, next, rows1[i], first1),
            );
            assert forall|i: int| 0 <= i < xs.len() implies target[i] == after[i] by {
                assert(rows1[i] == term_sum(xs[i], bit, offset, accs[i], first));
            }
            assert(after =~= target);
        }
    }
}

/// The overflow checks of `mul_const` leave the columns of the oracles
/// declared before as they were.
pub proof fn lemma_mul_checks_keep(
    b: BuilderView,
    input: OracleId,
    i: usize,
    id: OracleId,
    log_rows: usize,
    words: Seq<u32>,
)
    requires
        i <= 32,
        b.oracles.oracles.len() + (32 - i) <= usize::MAX,
        holds_words(b, id, log_rows, words),
        mul_checks(b, input, i) is Ok,
    ensures
        holds_words(mul_checks(b, input, i)->Ok_0, id, log_rows, words),
    decreases 32 - i,
{
    if i < 32 {
        let selected = select_bit_state(b, "bit"@ + decimal(i as nat), input, i);
        let checked = selected.with_constraint(
            ConstraintView {
                oracle_ids: seq![b.next_oracle_id()],
                composition: identity_composition(),
            },
        );
        let out_rows = (b.oracles.oracles[input as int].n_vars - LOG_WORD_BITS) as usize;
        let table = b.witness->0;
        let entry = bit_entry(
            out_rows,
            selected_bits(input_rows(table, input), 8 * column_len(out_rows, 0), i),
        );
        lemma_entry_of_table_with(table, b.next_oracle_id(), entry, id);
        assert(holds_words(checked, id, log_rows, words));
        lemma_mul_checks_keep(checked, input, (i + 1) as usize, id, log_rows, words);
    }
}

/// Where `mul_const` by a multiplier of at least two succeeds on a builder
/// that holds the column of the input, the column of its result holds, in
/// every word, the product of the input word and the multiplier modulo
/// `2^32`.
pub proof fn lemma_mul_const_result(
    b: BuilderView,
    name: Seq<char>,
    input: OracleId,
    value: u32,
    flags: Flags,
    log_rows: usize,
    xs: Seq<u32>,
)
    requires
        value >= 2,
        b.oracles.oracles.len() + 192 <= usize::MAX,
        b.oracles.batches.len() + 32 < usize::MAX,
        holds_words(b, input, log_rows, xs),
        mul_const_outcome(b, name, input, value, flags) is Ok,
    ensures
        ({
            let (state, product) = mul_const_outcome(b, name, input, value, flags)->Ok_0;
            holds_words(
                state,
                product,
                log_rows,
                Seq::new(xs.len(), |i: int| ((xs[i] * value) % 0x1_0000_0000) as u32),
            )
        }),
{
    vstd::arithmetic::power2::lemma2_to64();
    let b0 = b.with_namespace(name);
    assert(holds_words(b0, input, log_rows, xs));
    assert(value * vstd::arithmetic::power2::pow2(0) < 0x1_0000_0000) by (nonlinear_arith)
        requires
            value <= 0xffff_ffff,
            vstd::arithmetic::power2::pow2(0) == 1,
    ;
    lemma_mul_terms_result(b0, input, flags, value, 0, input, true, log_rows, xs, xs);
    let (b1, result, offset) = mul_terms(b0, input, flags, value, 0, input, true)->Ok_0;
    let sums = Seq::new(xs.len(), |i: int| product_terms(xs[i], value, 0, xs[i], true));
    let target = Seq::new(xs.len(), |i: int| ((xs[i] * value) % 0x1_0000_0000) as u32);
    assert forall|i: int| 0 <= i < xs.len() implies sums[i] == target[i] by {
        lemma_mul_const_product(xs[i], value);
    }
    assert(sums =~= target);
    match flags {
        Flags::Checked => {
            lemma_mul_checks_keep(b1, input, (32 - offset) as usize, result, log_rows, target);
        },
        Flags::Unchecked => {},
    }
}

/// Stores a column of zero words for the oracle `id`.
fn store_zero_words(builder: &mut ConstraintSystemBuilder, id: OracleId, log_rows: usize) -> (r:
    Result<(), Error>)
    requires
        old(builder)@.wf(),
    ensures
        final(builder)@.wf(),
        match column_defect(old(builder)@, log_rows, 0) {
            Some(e) => r == Err::<(), Error>(e),
            None => r == Ok::<(), Error>(()) && final(builder)@ == with_column(
                old(builder)@,
                id,
                u32_entry(log_rows, constant_rows(0, word_count(log_rows))),
            ),
        },
{
    match builder.witness() {
        Some(witness) => {
            let len: usize = match checked_column_len(log_rows, 0) {
                Some(l) => l,
                None => {
                    return Err(Error::ColumnTooLarge { log_rows, tower_level: 0 });
                },
            };
            proof {
                crate::builder::witness::layout::lemma_column_len_whole(log_rows, 0);
            }
            let words = constant_words(0, len / 4);
            witness.store_u32(id, log_rows, 0, words.as_slice());
        },
        None => {},
    }
    Ok(())
}

/// Declares the transparent constant zero of the shape of `input`.
#[verifier::rlimit(30)]
fn mul_zero(builder: &mut ConstraintSystemBuilder, name: &str, input: OracleId) -> (r: Result<
    OracleId,
    Error,
>)
    requires
        old(builder)@.wf(),
    ensures
        final(builder)@.wf(),
        match mul_zero_outcome(old(builder)@, name@, input) {
            Err(e) => r == Err::<OracleId, Error>(e),
            Ok((state, id)) => r == Ok::<OracleId, Error>(id) && final(builder)@ == state,
        },
{
    let ids: Vec<OracleId> = vec![input];
    assert(ids@ =~= seq![input]);
    let log_rows: usize = match builder.log_rows(ids.as_slice()) {
        Ok(n) => n,
        Err(e) => {
            return Err(e);
        },
    };
    let id: usize = match builder.add_transparent(
        name,
        crate::oracle::Transparent::Constant { n_vars: log_rows, value: 0 },
    ) {
        Ok(id) => id,
        Err(e) => {
            return Err(Error::Oracle(e));
        },
    };
    match store_zero_words(builder, id, log_rows) {
        Ok(()) => {},
        Err(e) => {
            return Err(e);
        },
    }
    Ok(id)
}

/// Handles one bit of the multiplier of `mul_const`.
fn mul_add_term(
    builder: &mut ConstraintSystemBuilder,
    input: OracleId,
    flags: Flags,
    bit: bool,
    offset: usize,
    result: OracleId,
    first: bool,
) -> (r: Result<(OracleId, bool), Error>)
    requires
        old(builder)@.wf(),
    ensures
        final(builder)@.wf(),
        match mul_term(old(builder)@, input, flags, bit, offset, result, first) {
            Err(e) => r == Err::<(OracleId, bool), Error>(e),
            Ok((state, sum, still_first)) => r == Ok::<(OracleId, bool), Error>((sum, still_first))
                && final(builder)@ == state,
        },
{
    if !bit {
        return Ok((result, first));
    }
    let shl_name = numbered("input_shl", offset);
    let shifted: usize = match shl(builder, shl_name.as_str(), input, offset) {
        Ok(id) => id,
        Err(e) => {
            return Err(e);
        },
    };
    if first {
        Ok((shifted, false))
    } else {
        let add_name = numbered("add_shl", offset);
        match self::add(builder, add_name.as_str(), result, shifted, flags) {
            Ok(sum) => Ok((sum, false)),
            Err(e) => Err(e),
        }
    }
}

proof fn lemma_multiplier_step(tmp: u32, offset: u32)
    by (bit_vector)
    requires
        offset <= 31,
        tmp <= (0xffff_ffffu32 >> offset),
    ensures
        tmp >> 1 == tmp / 2,
        (tmp & 1 == 1) == (tmp % 2 == 1),
        offset == 31 ==> tmp >> 1 == 0,
        offset < 31 ==> (tmp >> 1) <= (0xffff_ffffu32 >> ((offset + 1) as u32)),
{
}

/// Sums up the terms of `mul_const`.
fn mul_sum_terms(
    builder: &mut ConstraintSystemBuilder,
    input: OracleId,
    value: u32,
    flags: Flags,
) -> (r: Result<(OracleId, usize), Error>)
    requires
        old(builder)@.wf(),
    ensures
        final(builder)@.wf(),
        match mul_terms(old(builder)@, input, flags, value, 0, input, true) {
            Err(e) => r == Err::<(OracleId, usize), Error>(e),
            Ok((state, sum, offset)) => r == Ok::<(OracleId, usize), Error>((sum, offset))
                && final(builder)@ == state && offset <= 31,
        },
{
    let ghost target = mul_terms(old(builder)@, input, flags, value, 0, input, true);
    let mut tmp: u32 = value;
    let mut offset: usize = 0;
    let mut result: usize = input;
    let mut first: bool = true;
    proof {
        assert(value <= (0xffff_ffffu32 >> 0u32)) by (bit_vector);
    }
    while tmp != 0
        invariant
            builder@.wf(),
            offset <= 31,
            tmp <= (0xffff_ffffu32 >> (offset as u32)),
            target == mul_terms(old(builder)@, input, flags, value, 0, input, true),
            mul_terms(builder@, input, flags, tmp, offset, result, first) == target,
        decreases tmp,
    {
        proof {
            lemma_multiplier_step(tmp, offset as u32);
        }
        let (sum, still_first) = match mul_add_term(
            builder,
            input,
            flags,
            tmp & 1 == 1,
            offset,
            result,
            first,
        ) {
            Ok(v) => v,
            Err(e) => {
                return Err(e);
            },
        };
        result = sum;
        first = still_first;
        tmp = tmp >> 1;
        if tmp != 0 {
            offset = offset + 1;
        }
    }
    Ok((result, offset))
}

/// Declares the overflow checks of `mul_const`.
fn mul_check_bits(
    builder: &mut ConstraintSystemBuilder,
    input: OracleId,
    start: usize,
) -> (r: Result<(), Error>)
    requires
        old(builder)@.wf(),
        start <= 32,
    ensures
        final(builder)@.wf(),
        match mul_checks(old(builder)@, input, start) {
            Err(e) => r == Err::<(), Error>(e),
            Ok(state) => r == Ok::<(), Error>(()) && final(builder)@ == state,
        },
{
    let ghost target = mul_checks(old(builder)@, input, start);
    let mut i: usize = start;
    while i < 32
        invariant
            builder@.wf(),
            start <= i <= 32,
            target == mul_checks(old(builder)@, input, start),
            mul_checks(builder@, input, i) == target,
        decreases 32 - i,
    {
        let bit_name = numbered("bit", i);
        let x: usize = match select_bit(builder, bit_name.as_str(), input, i) {
            Ok(id) => id,
            Err(e) => {
                return Err(e);
            },
        };
        let ids: Vec<OracleId> = vec![x];
        assert(ids@ =~= seq![x]);
        builder.assert_zero(ids, ArithExpr::var(0));
        i += 1;
    }
    Ok(())
}

/// Declares the product of every word of `input` and the constant `value`,
/// modulo `2^32`, as the sum of the input moved up by the position of each
/// set bit of `value`; when checked, under the constraint that neither a
/// sum nor the highest term overflows.
pub fn mul_const(
    builder: &mut ConstraintSystemBuilder,
    name: &str,
    input: OracleId,
    value: u32,
    flags: Flags,
) -> (r: Result<OracleId, Error>)
    requires
        old(builder)@.wf(),
    ensures
        final(builder)@.wf(),
        match mul_const_outcome(old(builder)@, name@, input, value, flags) {
            Err(e) => r == Err::<OracleId, Error>(e),
            Ok((state, id)) => r == Ok::<OracleId, Error>(id) && final(builder)@ == state,
        },
{
    if value == 0 {
        return mul_zero(builder, name, input);
    }
    if value == 1 {
        return Ok(input);
    }
    builder.push_namespace(name);
    let (result, offset) = match mul_sum_terms(builder, input, value, flags) {
        Ok(v) => v,
        Err(e) => {
            return Err(e);
        },
    };
    match flags {
        Flags::Checked => {
            match mul_check_bits(builder, input, 32 - offset) {
                Ok(()) => {},
                Err(e) => {
                    return Err(e);
                },
            }
        },
        Flags::Unchecked => {},
    }
    builder.pop_namespace();
    Ok(result)
}

} // verus!
