//! The Keccak-f[1600] permutation as a circuit.
//!
//! One permutation takes 32 rows of 64 bits in each column: one row for
//! each of its 24 rounds, and 8 rows of padding. A row holds the state
//! before a round in 25 columns and the state after it in 25 more; the
//! other columns hold what lies between the two.

use crate::builder::{column_defect, with_column, BuilderView, ConstraintSystemBuilder};
use crate::constraint::{ArithExpr, ConstraintView};
use crate::error::Error;
use crate::names::decimal;
use crate::oracle::{OracleId, ShiftVariant, Transparent, TransparentView};
use crate::builder::witness::layout::{checked_column_len, column_len};
use crate::builder::witness::views::{
    lemma_u64_rows_of_bytes, read_u64_rows, u64_bytes, u64_rows, u64_rows_to_bytes,
};
use crate::builder::witness::{entry_of, lemma_entry_of_table_with, EntryView};
use rand::RngCore;
use vstd::prelude::*;

verus! {

/// The number of variables of the rows of one round.
pub const LOG_ROWS_PER_ROUND: usize = 6;

/// The number of variables of the rounds of one permutation.
pub const LOG_ROUNDS_PER_PERMUTATION: usize = 5;

/// The number of variables of the rows of one permutation.
pub const LOG_ROWS_PER_PERMUTATION: usize = 11;

/// The number of rounds of one permutation.
pub const ROUNDS_PER_PERMUTATION: usize = 24;

/// The rotation offsets of the rho step.
pub const RHO: [u32; 25] = [
    0, 44, 43, 21, 14, 28, 20, 3, 45, 61, 1, 6, 25, 8, 18, 27, 36, 10, 15, 56, 62, 55, 39, 41, 2,
];

/// The lane permutation of the pi step.
pub const PI: [usize; 25] = [
    0, 6, 12, 18, 24, 3, 9, 10, 16, 22, 1, 7, 13, 19, 20, 4, 5, 11, 17, 23, 2, 8, 14, 15, 21,
];

/// The round constants of the iota step, padded with zeros to 32 rounds.
pub const KECCAKF_RC: [u64; 32] = [
    0x0000000000000001,
    0x0000000000008082,
    0x800000000000808A,
    0x8000000080008000,
    0x000000000000808B,
    0x0000000080000001,
    0x8000000080008081,
    0x8000000000008009,
    0x000000000000008A,
    0x0000000000000088,
    0x0000000080008009,
    0x000000008000000A,
    0x000000008000808B,
    0x800000000000008B,
    0x8000000000008089,
    0x8000000000008003,
    0x8000000000008002,
    0x8000000000000080,
    0x000000000000800A,
    0x800000008000000A,
    0x8000000080008081,
    0x8000000000008080,
    0x0000000080000001,
    0x8000000080008008,
    0,
    0,
    0,
    0,
    0,
    0,
    0,
    0,
];

/// A lane rotated left by `r` bits.
pub open spec fn rotate_left(v: u64, r: u32) -> u64 {
    if r == 0 || r >= 64 {
        v
    } else {
        (v << (r as u64)) | (v >> ((64 - r) as u64))
    }
}

/// The parity of column `x` of the state.
pub open spec fn theta_c(s: Seq<u64>, x: int) -> u64 {
    s[x] ^ s[x + 5] ^ s[x + 10] ^ s[x + 15] ^ s[x + 20]
}

/// What the theta step adds to every lane of column `x`.
pub open spec fn theta_d(s: Seq<u64>, x: int) -> u64 {
    theta_c(s, (x + 4) % 5) ^ rotate_left(theta_c(s, (x + 1) % 5), 1)
}

/// Lane `xy` after the theta step.
pub open spec fn a_theta(s: Seq<u64>, xy: int) -> u64 {
    s[xy] ^ theta_d(s, xy % 5)
}

/// Lane `xy` after the rho and pi steps.
pub open spec fn rho_pi(s: Seq<u64>, xy: int) -> u64 {
    rotate_left(a_theta(s, PI[xy] as int), RHO[xy])
}

/// Lane `xy` after the chi step.
pub open spec fn chi(s: Seq<u64>, xy: int) -> u64 {
    rho_pi(s, xy) ^ (!rho_pi(s, (xy % 5 + 1) % 5 + 5 * (xy / 5)) & rho_pi(
        s,
        (xy % 5 + 2) % 5 + 5 * (xy / 5),
    ))
}

/// Lane `xy` after round `round`, from the state `s` before it.
pub open spec fn round_out(s: Seq<u64>, round: int, xy: int) -> u64 {
    if xy == 0 {
        chi(s, xy) ^ KECCAKF_RC[round]
    } else {
        chi(s, xy)
    }
}

/// The state after round `round`, from the state `s` before it.
pub open spec fn keccak_round(s: Seq<u64>, round: int) -> Seq<u64> {
    Seq::new(25, |xy: int| round_out(s, round, xy))
}

/// The state before round `round` of the permutation of `input`.
pub open spec fn state_at(input: Seq<u64>, round: nat) -> Seq<u64>
    decreases round,
{
    if round == 0 {
        input
    } else {
        keccak_round(state_at(input, (round - 1) as nat), round - 1)
    }
}

fn rotl(v: u64, r: u32) -> (out: u64)
    ensures
        out == rotate_left(v, r),
{
    if r == 0 || r >= 64 {
        v
    } else {
        (v << r) | (v >> (64 - r))
    }
}

fn column_parity(s: &[u64], x: usize) -> (out: u64)
    requires
        s@.len() == 25,
        x < 5,
    ensures
        out == theta_c(s@, x as int),
{
    s[x] ^ s[x + 5] ^ s[x + 10] ^ s[x + 15] ^ s[x + 20]
}

fn theta_effect(s: &[u64], x: usize) -> (out: u64)
    requires
        s@.len() == 25,
        x < 5,
    ensures
        out == theta_d(s@, x as int),
{
    column_parity(s, (x + 4) % 5) ^ rotl(column_parity(s, (x + 1) % 5), 1)
}

fn after_theta(s: &[u64], xy: usize) -> (out: u64)
    requires
        s@.len() == 25,
        xy < 25,
    ensures
        out == a_theta(s@, xy as int),
{
    s[xy] ^ theta_effect(s, xy % 5)
}

fn after_rho_pi(s: &[u64], xy: usize) -> (out: u64)
    requires
        s@.len() == 25,
        xy < 25,
    ensures
        out == rho_pi(s@, xy as int),
{
    rotl(after_theta(s, PI[xy]), RHO[xy])
}

fn after_round(s: &[u64], round: usize, xy: usize) -> (out: u64)
    requires
        s@.len() == 25,
        xy < 25,
        round < 32,
    ensures
        out == round_out(s@, round as int, xy as int),
{
    let x: usize = xy % 5;
    let y: usize = xy / 5;
    let b0: u64 = after_rho_pi(s, xy);
    let b1: u64 = after_rho_pi(s, (x + 1) % 5 + 5 * y);
    let b2: u64 = after_rho_pi(s, (x + 2) % 5 + 5 * y);
    let v: u64 = b0 ^ (!b1 & b2);
    if xy == 0 {
        v ^ KECCAKF_RC[round]
    } else {
        v
    }
}

/// The number of columns of the trace of a permutation.
pub const TRACE_COLUMNS: usize = 142;

/// The word that one of the columns of the trace holds in the row of round
/// `round`, given the state `s` before that round. The columns are, in
/// order: the 25 lanes of the state before the round; the 25 lanes of the
/// state after it; the 5 column parities; the 5 effects of theta; the 5
/// parities rotated by one bit; the 25 lanes after theta; the 25 lanes
/// after rho and pi; the 25 lanes of the state that the next row starts
/// with, zero in the last row of a permutation; the round constant; and the
/// selector, all ones in the rows of the 24 rounds and zero in the padding.
#[verifier::opaque]
pub open spec fn row_word(column: int, s: Seq<u64>, round: int) -> u64 {
    if column < 25 {
        s[column]
    } else if column < 50 {
        round_out(s, round, column - 25)
    } else if column < 55 {
        theta_c(s, column - 50)
    } else if column < 60 {
        theta_d(s, column - 55)
    } else if column < 65 {
        rotate_left(theta_c(s, column - 60), 1)
    } else if column < 90 {
        a_theta(s, column - 65)
    } else if column < 115 {
        rho_pi(s, column - 90)
    } else if column < 140 {
        if round < 31 {
            round_out(s, round, column - 115)
        } else {
            0
        }
    } else if column == 140 {
        KECCAKF_RC[round]
    } else {
        if round < 24 {
            0xffff_ffff_ffff_ffff
        } else {
            0
        }
    }
}

/// The word of a column of the trace in row `row`, for the given inputs of
/// the permutations: rows `32 p .. 32 p + 32` are those of permutation `p`.
pub open spec fn trace_word(column: int, inputs: Seq<Seq<u64>>, row: int) -> u64 {
    row_word(column, state_at(inputs[row / 32], (row % 32) as nat), row % 32)
}

/// The lanes of the given states.
pub open spec fn lanes(states: Seq<[u64; 25]>) -> Seq<Seq<u64>> {
    states.map_values(|s: [u64; 25]| s@)
}

/// The first among the first `k` permutations whose trace does not end in
/// the expected state, if there is one.
pub open spec fn trace_defect(inputs: Seq<Seq<u64>>, outputs: Seq<Seq<u64>>, k: nat) -> Option<
    usize,
>
    decreases k,
{
    if k == 0 {
        None
    } else {
        match trace_defect(inputs, outputs, (k - 1) as nat) {
            Some(p) => Some(p),
            None => if state_at(inputs[k - 1], 24) == outputs[k - 1] {
                None
            } else {
                Some((k - 1) as usize)
            },
        }
    }
}

/// Once a trace is found not to match, the answer no longer changes.
pub proof fn lemma_trace_defect_stays(inputs: Seq<Seq<u64>>, outputs: Seq<Seq<u64>>, k: nat, m: nat)
    requires
        k <= m,
        trace_defect(inputs, outputs, k) is Some,
    ensures
        trace_defect(inputs, outputs, m) == trace_defect(inputs, outputs, k),
    decreases m - k,
{
    if k < m {
        lemma_trace_defect_stays(inputs, outputs, k, (m - 1) as nat);
    }
}

/// The row of the trace of round `round`, from the state before it.
fn keccak_row(s: &[u64], round: usize) -> (r: Vec<u64>)
    requires
        s@.len() == 25,
        round < 32,
    ensures
        r@.len() == TRACE_COLUMNS,
        forall|c: int| 0 <= c < TRACE_COLUMNS ==> r@[c] == row_word(c, s@, round as int),
{
    let mut row: Vec<u64> = Vec::new();
    let mut c: usize = 0;
    while c < TRACE_COLUMNS
        invariant
            c <= TRACE_COLUMNS,
            s@.len() == 25,
            round < 32,
            row@.len() == c,
            forall|k: int| 0 <= k < c ==> row@[k] == row_word(k, s@, round as int),
        decreases TRACE_COLUMNS - c,
    {
        proof {
            reveal(row_word);
        }
        let v: u64 = if c < 25 {
            s[c]
        } else if c < 50 {
            after_round(s, round, c - 25)
        } else if c < 55 {
            column_parity(s, c - 50)
        } else if c < 60 {
            theta_effect(s, c - 55)
        } else if c < 65 {
            rotl(column_parity(s, c - 60), 1)
        } else if c < 90 {
            after_theta(s, c - 65)
        } else if c < 115 {
            after_rho_pi(s, c - 90)
        } else if c < 140 {
            if round < 31 {
                after_round(s, round, c - 115)
            } else {
                0
            }
        } else if c == 140 {
            KECCAKF_RC[round]
        } else {
            if round < 24 {
                0xffff_ffff_ffff_ffff
            } else {
                0
            }
        };
        row.push(v);
        c += 1;
    }
    row
}

/// The state after a round, read from the row of that round.
fn next_state(row: &Vec<u64>, Ghost(s): Ghost<Seq<u64>>, Ghost(round): Ghost<int>) -> (r: Vec<u64>)
    requires
        row@.len() == TRACE_COLUMNS,
        forall|c: int| 0 <= c < TRACE_COLUMNS ==> row@[c] == row_word(c, s, round),
    ensures
        r@ == keccak_round(s, round),
{
    let mut state: Vec<u64> = Vec::new();
    let mut xy: usize = 0;
    while xy < 25
        invariant
            xy <= 25,
            row@.len() == TRACE_COLUMNS,
            forall|c: int| 0 <= c < TRACE_COLUMNS ==> row@[c] == row_word(c, s, round),
            state@.len() == xy,
            forall|k: int| 0 <= k < xy ==> state@[k] == round_out(s, round, k),
        decreases 25 - xy,
    {
        state.push(row[25 + xy]);
        proof {
            reveal(row_word);
            assert(row@[25 + xy] == row_word(25 + xy, s, round));
        }
        xy += 1;
    }
    assert(state@ =~= keccak_round(s, round));
    state
}

/// The lanes of a state.
fn state_lanes(state: &[u64; 25]) -> (r: Vec<u64>)
    ensures
        r@ == state@,
{
    let mut out: Vec<u64> = Vec::new();
    let mut xy: usize = 0;
    while xy < 25
        invariant
            xy <= 25,
            out@.len() == xy,
            forall|k: int| 0 <= k < xy ==> out@[k] == state@[k],
        decreases 25 - xy,
    {
        out.push(state[xy]);
        xy += 1;
    }
    assert(out@ =~= state@);
    out
}

/// The rows of the trace of the permutations of the given inputs, 32 rows
/// for each.
pub fn keccak_trace(inputs: &[[u64; 25]]) -> (rows: Vec<Vec<u64>>)
    ensures
        rows@.len() == 32 * inputs@.len(),
        forall|r: int|
            0 <= r < rows@.len() ==> (#[trigger] rows@[r])@.len() == TRACE_COLUMNS && forall|c: int|
                0 <= c < TRACE_COLUMNS ==> rows@[r]@[c] == trace_word(c, lanes(inputs@), r),
{
    let n: usize = inputs.len();
    let mut rows: Vec<Vec<u64>> = Vec::new();
    let mut p: usize = 0;
    while p < n
        invariant
            p <= n,
            n == inputs@.len(),
            rows@.len() == 32 * p,
            forall|r: int|
                0 <= r < rows@.len() ==> (#[trigger] rows@[r])@.len() == TRACE_COLUMNS && forall|
                    c: int,
                |
                    0 <= c < TRACE_COLUMNS ==> rows@[r]@[c] == trace_word(c, lanes(inputs@), r),
        decreases n - p,
    {
        let mut state = state_lanes(&inputs[p]);
        let mut round: usize = 0;
        while round < 32
            invariant
                round <= 32,
                p < n,
                n == inputs@.len(),
                rows@.len() == 32 * p + round,
                state@ == state_at(lanes(inputs@)[p as int], round as nat),
                state@.len() == 25,
                forall|r: int|
                    0 <= r < rows@.len() ==> (#[trigger] rows@[r])@.len() == TRACE_COLUMNS
                        && forall|c: int|
                        0 <= c < TRACE_COLUMNS ==> rows@[r]@[c] == trace_word(
                            c,
                            lanes(inputs@),
                            r,
                        ),
            decreases 32 - round,
        {
            let row = keccak_row(state.as_slice(), round);
            let after = next_state(&row, Ghost(state@), Ghost(round as int));
            proof {
                let r = 32 * p + round;
                assert(r / 32 == p as int && r % 32 == round as int);
                assert(state_at(lanes(inputs@)[p as int], (round + 1) as nat) == keccak_round(
                    state@,
                    round as int,
                ));
            }
            rows.push(row);
            state = after;
            round += 1;
        }
        p += 1;
    }
    rows
}

/// The state after the last round of permutation `p` stands in the columns
/// of the state after the round, in row 23 of the permutation.
pub proof fn lemma_trace_end(inputs: Seq<Seq<u64>>, p: int, xy: int)
    requires
        0 <= p,
        0 <= xy < 25,
    ensures
        trace_word(25 + xy, inputs, 32 * p + 23) == state_at(inputs[p], 24)[xy],
{
    reveal(row_word);
    let r = 32 * p + 23;
    assert(r / 32 == p && r % 32 == 23);
    assert(state_at(inputs[p], 24) == keccak_round(state_at(inputs[p], 23), 23));
}

/// Whether the state after the round that a row holds is the given state.
fn row_ends_in(row: &Vec<u64>, expected: &[u64; 25]) -> (r: bool)
    requires
        row@.len() == TRACE_COLUMNS,
    ensures
        r <==> forall|k: int| 0 <= k < 25 ==> row@[25 + k] == expected@[k],
{
    let mut equal: bool = true;
    let mut xy: usize = 0;
    while xy < 25
        invariant
            xy <= 25,
            row@.len() == TRACE_COLUMNS,
            equal <==> forall|k: int| 0 <= k < xy ==> row@[25 + k] == expected@[k],
        decreases 25 - xy,
    {
        if row[25 + xy] != expected[xy] {
            equal = false;
        }
        xy += 1;
    }
    equal
}

/// The first permutation whose trace does not end in the expected state.
fn check_trace(
    rows: &Vec<Vec<u64>>,
    outputs: &[[u64; 25]],
    Ghost(inputs): Ghost<Seq<Seq<u64>>>,
) -> (r: Option<usize>)
    requires
        rows@.len() == 32 * outputs@.len(),
        inputs.len() == outputs@.len(),
        forall|r: int|
            0 <= r < rows@.len() ==> (#[trigger] rows@[r])@.len() == TRACE_COLUMNS && forall|c: int|
                0 <= c < TRACE_COLUMNS ==> rows@[r]@[c] == trace_word(c, inputs, r),
    ensures
        r == trace_defect(inputs, lanes(outputs@), outputs@.len()),
{
    let n: usize = outputs.len();
    let total: usize = rows.len();
    let mut p: usize = 0;
    while p < n
        invariant
            p <= n,
            n == outputs@.len(),
            total == 32 * n,
            rows@.len() == 32 * n,
            inputs.len() == n,
            forall|r: int|
                0 <= r < rows@.len() ==> (#[trigger] rows@[r])@.len() == TRACE_COLUMNS && forall|
                    c: int,
                |
                    0 <= c < TRACE_COLUMNS ==> rows@[r]@[c] == trace_word(c, inputs, r),
            trace_defect(inputs, lanes(outputs@), p as nat) is None,
        decreases n - p,
    {
        let row = &rows[32 * p + 23];
        let expected = &outputs[p];
        let equal = row_ends_in(row, expected);
        proof {
            let after = state_at(inputs[p as int], 24);
            let out = lanes(outputs@)[p as int];
            assert(out == expected@);
            assert(row == rows@[32 * p + 23]);
            assert forall|k: int| 0 <= k < 25 implies row@[25 + k] == after[k] by {
                lemma_trace_end(inputs, p as int, k);
            }
            lemma_state_at_len(inputs[p as int], 24);
            if equal {
                assert(after =~= out);
            } else {
                let k = choose|k: int| 0 <= k < 25 && row@[25 + k] != expected@[k];
                assert(after[k] != out[k]);
            }
        }
        if !equal {
            proof {
                lemma_trace_defect_stays(inputs, lanes(outputs@), (p + 1) as nat, n as nat);
            }
            return Some(p);
        }
        p += 1;
    }
    None
}

/// After at least one round the state has 25 lanes.
pub proof fn lemma_state_at_len(input: Seq<u64>, round: nat)
    requires
        round > 0,
    ensures
        state_at(input, round).len() == 25,
{
}

/// The name `prefix[i]`.
pub open spec fn indexed_name(prefix: Seq<char>, i: nat) -> Seq<char> {
    prefix + seq!['['] + decimal(i) + seq![']']
}

fn indexed(prefix: &str, i: usize) -> (r: String)
    ensures
        r@ == indexed_name(prefix@, i as nat),
{
    let mut name = String::from_str(prefix);
    name.append("[");
    let digits = crate::names::decimal_string(i);
    name.append(digits.as_str());
    name.append("]");
    proof {
        reveal_strlit("[");
        reveal_strlit("]");
        assert("["@ =~= seq!['[']);
        assert("]"@ =~= seq![']']);
    }
    name
}

/// What declaring the first `k` of a group of shifted oracles does to a
/// builder. Oracle `i` of the group is named `prefix[first_label + i]` and
/// shifts oracle `inners[i]` by `offsets[i]`.
pub open spec fn shifted_group(
    b: BuilderView,
    prefix: Seq<char>,
    first_label: nat,
    inners: Seq<OracleId>,
    offsets: Seq<usize>,
    block_bits: usize,
    variant: ShiftVariant,
    k: nat,
) -> Result<BuilderView, Error>
    decreases k,
{
    if k == 0 {
        Ok(b)
    } else {
        match shifted_group(b, prefix, first_label, inners, offsets, block_bits, variant, (k - 1) as nat) {
            Err(e) => Err(e),
            Ok(prev) => match prev.oracles.shifted_defect(inners[k - 1], offsets[k - 1], block_bits) {
                Some(e) => Err(Error::Oracle(e)),
                None => Ok(
                    prev.with_oracle(
                        prev.oracles.shifted(
                            prev.named(indexed_name(prefix, (first_label + k - 1) as nat)),
                            inners[k - 1],
                            offsets[k - 1],
                            block_bits,
                            variant,
                        ),
                    ),
                ),
            },
        }
    }
}

/// Once an oracle of the group cannot be declared, the answer no longer
/// changes.
pub proof fn lemma_shifted_group_stays(
    b: BuilderView,
    prefix: Seq<char>,
    first_label: nat,
    inners: Seq<OracleId>,
    offsets: Seq<usize>,
    block_bits: usize,
    variant: ShiftVariant,
    k: nat,
    m: nat,
)
    requires
        k <= m,
        shifted_group(b, prefix, first_label, inners, offsets, block_bits, variant, k) is Err,
    ensures
        shifted_group(b, prefix, first_label, inners, offsets, block_bits, variant, m)
            == shifted_group(b, prefix, first_label, inners, offsets, block_bits, variant, k),
    decreases m - k,
{
    if k < m {
        lemma_shifted_group_stays(
            b,
            prefix,
            first_label,
            inners,
            offsets,
            block_bits,
            variant,
            k,
            (m - 1) as nat,
        );
    }
}

/// Whether `after` is `before` with `k` more oracles and nothing else
/// changed but the batches.
pub open spec fn grown_by(before: BuilderView, after: BuilderView, k: nat) -> bool {
    &&& after.oracles.oracles.len() == before.oracles.oracles.len() + k
    &&& forall|i: int|
        0 <= i < before.oracles.oracles.len() ==> after.oracles.oracles[i]
            == before.oracles.oracles[i]
    &&& after.constraints == before.constraints
    &&& after.constraints_base == before.constraints_base
    &&& after.non_zero_oracle_ids == before.non_zero_oracle_ids
    &&& after.flushes == before.flushes
    &&& after.witness == before.witness
    &&& after.next_channel_id == before.next_channel_id
    &&& after.namespace_path == before.namespace_path
}

/// A group of shifted oracles adds its oracles and changes nothing else.
pub proof fn lemma_shifted_group_grows(
    b: BuilderView,
    prefix: Seq<char>,
    first_label: nat,
    inners: Seq<OracleId>,
    offsets: Seq<usize>,
    block_bits: usize,
    variant: ShiftVariant,
    k: nat,
)
    requires
        shifted_group(b, prefix, first_label, inners, offsets, block_bits, variant, k) is Ok,
    ensures
        grown_by(
            b,
            shifted_group(b, prefix, first_label, inners, offsets, block_bits, variant, k)->Ok_0,
            k,
        ),
        shifted_group(
            b,
            prefix,
            first_label,
            inners,
            offsets,
            block_bits,
            variant,
            k,
        )->Ok_0.oracles.batches == b.oracles.batches,
    decreases k,
{
    if k > 0 {
        lemma_shifted_group_grows(
            b,
            prefix,
            first_label,
            inners,
            offsets,
            block_bits,
            variant,
            (k - 1) as nat,
        );
    }
}

/// The group of the lanes after theta adds its oracles and changes nothing
/// else.
pub proof fn lemma_theta_group_grows(
    b: BuilderView,
    log_size: usize,
    state_in: OracleId,
    d: OracleId,
    k: nat,
)
    requires
        theta_group(b, log_size, state_in, d, k) is Ok,
    ensures
        grown_by(b, theta_group(b, log_size, state_in, d, k)->Ok_0, k),
        theta_group(b, log_size, state_in, d, k)->Ok_0.oracles.batches == b.oracles.batches,
    decreases k,
{
    if k > 0 {
        lemma_theta_group_grows(b, log_size, state_in, d, (k - 1) as nat);
    }
}

/// Declares a group of shifted oracles, one for each of `inners`.
fn add_shifted_group(
    builder: &mut ConstraintSystemBuilder,
    prefix: &str,
    first_label: usize,
    inners: &Vec<OracleId>,
    offsets: &Vec<usize>,
    block_bits: usize,
    variant: ShiftVariant,
) -> (r: Result<(), Error>)
    requires
        old(builder)@.wf(),
        inners@.len() == offsets@.len(),
        first_label + inners@.len() <= usize::MAX,
    ensures
        final(builder)@.wf(),
        match shifted_group(
            old(builder)@,
            prefix@,
            first_label as nat,
            inners@,
            offsets@,
            block_bits,
            variant,
            inners@.len(),
        ) {
            Err(e) => r == Err::<(), Error>(e),
            Ok(state) => r == Ok::<(), Error>(()) && final(builder)@ == state,
        },
{
    let n: usize = inners.len();
    let mut i: usize = 0;
    while i < n
        invariant
            i <= n,
            n == inners@.len(),
            n == offsets@.len(),
            first_label + n <= usize::MAX,
            builder@.wf(),
            shifted_group(
                old(builder)@,
                prefix@,
                first_label as nat,
                inners@,
                offsets@,
                block_bits,
                variant,
                i as nat,
            ) == Ok::<BuilderView, Error>(builder@),
        decreases n - i,
    {
        let name = indexed(prefix, first_label + i);
        match builder.add_shifted(name.as_str(), inners[i], offsets[i], block_bits, variant) {
            Ok(_) => {},
            Err(e) => {
                proof {
                    lemma_shifted_group_stays(
                        old(builder)@,
                        prefix@,
                        first_label as nat,
                        inners@,
                        offsets@,
                        block_bits,
                        variant,
                        (i + 1) as nat,
                        n as nat,
                    );
                }
                return Err(Error::Oracle(e));
            },
        }
        i += 1;
    }
    Ok(())
}

/// The terms of the oracle of lane `xy` after theta: the lane before the
/// round and the effect of theta on its column.
pub open spec fn theta_terms(state_in: OracleId, d: OracleId, xy: int) -> Seq<(OracleId, u128)> {
    seq![((state_in + xy) as usize, 1u128), ((d + xy % 5) as usize, 1u128)]
}

/// What declaring the first `k` of the oracles of the lanes after theta
/// does to a builder. `state_in` and `d` are the ids of the first lane
/// before the round and of the first effect of theta.
pub open spec fn theta_group(
    b: BuilderView,
    log_size: usize,
    state_in: OracleId,
    d: OracleId,
    k: nat,
) -> Result<BuilderView, Error>
    decreases k,
{
    if k == 0 {
        Ok(b)
    } else {
        match theta_group(b, log_size, state_in, d, (k - 1) as nat) {
            Err(e) => Err(e),
            Ok(prev) => match crate::oracle::combination_defect(
                prev.oracles.oracles,
                log_size,
                theta_terms(state_in, d, k - 1),
                2,
            ) {
                Some(e) => Err(Error::Oracle(e)),
                None => Ok(
                    prev.with_oracle(
                        prev.oracles.linear_combination(
                            prev.named(indexed_name("a_theta"@, (k - 1) as nat)),
                            log_size,
                            0,
                            theta_terms(state_in, d, k - 1),
                        ),
                    ),
                ),
            },
        }
    }
}

/// Once an oracle of the group cannot be declared, the answer no longer
/// changes.
pub proof fn lemma_theta_group_stays(
    b: BuilderView,
    log_size: usize,
    state_in: OracleId,
    d: OracleId,
    k: nat,
    m: nat,
)
    requires
        k <= m,
        theta_group(b, log_size, state_in, d, k) is Err,
    ensures
        theta_group(b, log_size, state_in, d, m) == theta_group(b, log_size, state_in, d, k),
    decreases m - k,
{
    if k < m {
        lemma_theta_group_stays(b, log_size, state_in, d, k, (m - 1) as nat);
    }
}

/// Declares the oracles of the 25 lanes after theta.
fn add_theta_group(
    builder: &mut ConstraintSystemBuilder,
    log_size: usize,
    state_in: OracleId,
    d: OracleId,
) -> (r: Result<(), Error>)
    requires
        old(builder)@.wf(),
        state_in + 25 <= usize::MAX,
        d + 5 <= usize::MAX,
    ensures
        final(builder)@.wf(),
        match theta_group(old(builder)@, log_size, state_in, d, 25) {
            Err(e) => r == Err::<(), Error>(e),
            Ok(state) => r == Ok::<(), Error>(()) && final(builder)@ == state,
        },
{
    let mut xy: usize = 0;
    while xy < 25
        invariant
            xy <= 25,
            state_in + 25 <= usize::MAX,
            d + 5 <= usize::MAX,
            builder@.wf(),
            theta_group(old(builder)@, log_size, state_in, d, xy as nat) == Ok::<
                BuilderView,
                Error,
            >(builder@),
        decreases 25 - xy,
    {
        let name = indexed("a_theta", xy);
        let terms: Vec<(OracleId, u128)> = vec![(state_in + xy, 1u128), (d + xy % 5, 1u128)];
        assert(terms@ =~= theta_terms(state_in, d, xy as int));
        match builder.add_linear_combination(name.as_str(), log_size, terms) {
            Ok(_) => {},
            Err(e) => {
                proof {
                    lemma_theta_group_stays(
                        old(builder)@,
                        log_size,
                        state_in,
                        d,
                        (xy + 1) as nat,
                        25,
                    );
                }
                return Err(Error::Oracle(e));
            },
        }
        xy += 1;
    }
    Ok(())
}

/// The number of oracles that the circuit of the permutation declares.
pub const KECCAK_ORACLES: usize = 143;

/// The builder after the first four declarations of the circuit: the round
/// constants of one permutation, repeated for all permutations, and the
/// selector of one permutation, repeated likewise.
pub open spec fn keccak_fixed(b: BuilderView, log_size: usize) -> BuilderView {
    let base = b.next_oracle_id();
    let repetitions = (log_size - LOG_ROWS_PER_PERMUTATION) as usize;
    let b1 = b.with_oracle(
        b.oracles.transparent(
            b.named("round_consts_single"@),
            TransparentView::MultilinearExtension {
                n_vars: LOG_ROWS_PER_PERMUTATION,
                tower_level: 0,
                data: u64_bytes(KECCAKF_RC@),
            },
        ),
    );
    let b2 = b1.with_oracle(b1.oracles.repeating(b1.named("round_consts"@), base, repetitions));
    let b3 = b2.with_oracle(
        b2.oracles.transparent(
            b2.named("selector_single"@),
            TransparentView::StepDown {
                n_vars: LOG_ROWS_PER_PERMUTATION,
                index: 1536,
            },
        ),
    );
    b3.with_oracle(b3.oracles.repeating(b3.named("selector"@), (base + 2) as usize, repetitions))
}

/// The builder with `n` more committed one-bit oracles of `log_size`
/// variables, named `name_0`, `name_1` and so on.
pub open spec fn with_committed_group(
    b: BuilderView,
    name: Seq<char>,
    n: nat,
    log_size: usize,
) -> BuilderView {
    BuilderView {
        oracles: crate::oracle::OracleSetView {
            batches: b.with_batch(log_size, 0).oracles.batches,
            oracles: b.oracles.oracles + Seq::new(
                n,
                |i: int|
                    b.committed(
                        ConstraintSystemBuilder::numbered_name(name, i as nat),
                        log_size,
                        0,
                    ),
            ),
        },
        ..b
    }
}

/// The builder after the committed declarations of the circuit: the 25
/// lanes before each round, the 25 lanes after it, the 5 column parities
/// and the 5 effects of theta.
pub open spec fn keccak_committed(b: BuilderView, log_size: usize) -> BuilderView {
    with_committed_group(
        with_committed_group(
            with_committed_group(
                with_committed_group(b, "state_in"@, 25, log_size),
                "state_out"@,
                25,
                log_size,
            ),
            "c"@,
            5,
            log_size,
        ),
        "d"@,
        5,
        log_size,
    )
}

/// The ids `start, start + 1, ..`, `n` of them.
pub open spec fn id_range(start: OracleId, n: nat) -> Seq<OracleId> {
    Seq::new(n, |i: int| (start + i) as usize)
}

/// `n` times the offset `offset`.
pub open spec fn same_offsets(offset: usize, n: nat) -> Seq<usize> {
    Seq::new(n, |i: int| offset)
}

/// The oracles that the lanes `1 .. 25` after rho and pi are rotations of.
pub open spec fn rho_pi_inners(a_theta: OracleId) -> Seq<OracleId> {
    Seq::new(24, |i: int| (a_theta + PI[i + 1]) as usize)
}

/// The rotation offsets of the lanes `1 .. 25`.
pub open spec fn rho_pi_offsets() -> Seq<usize> {
    Seq::new(24, |i: int| RHO[i + 1] as usize)
}

/// The builder after the derived declarations of the circuit, or the
/// error of the first that fails: the 5 column parities rotated by one bit;
/// the 25 lanes after theta, each the sum of a lane and the effect of theta
/// on its column; the lanes `1 .. 25` after rho and pi, each a rotation of
/// a lane after theta, lane 0 being lane 0 after theta itself; and the 25
/// lanes that the next row starts with, each a lane after the round moved
/// down by one row of 64 bits within the 2048 rows of a permutation.
/// `base` is the id of the first oracle of the circuit.
pub open spec fn keccak_derived(b: BuilderView, log_size: usize, base: OracleId) -> Result<
    BuilderView,
    Error,
> {
    match shifted_group(
        b,
        "c"@,
        0,
        id_range((base + 54) as usize, 5),
        same_offsets(1, 5),
        LOG_ROWS_PER_ROUND,
        ShiftVariant::CircularLeft,
        5,
    ) {
        Err(e) => Err(e),
        Ok(b1) => match theta_group(b1, log_size, (base + 4) as usize, (base + 59) as usize, 25) {
            Err(e) => Err(e),
            Ok(b2) => match shifted_group(
                b2,
                "b"@,
                1,
                rho_pi_inners((base + 69) as usize),
                rho_pi_offsets(),
                LOG_ROWS_PER_ROUND,
                ShiftVariant::CircularLeft,
                24,
            ) {
                Err(e) => Err(e),
                Ok(b3) => shifted_group(
                    b3,
                    "next_state_in"@,
                    0,
                    id_range((base + 4) as usize, 25),
                    same_offsets(64, 25),
                    LOG_ROWS_PER_PERMUTATION,
                    ShiftVariant::LogicalRight,
                    25,
                ),
            },
        },
    }
}

/// The builder after all the declarations of the circuit, or the error of
/// the first that fails.
pub open spec fn keccak_declared(b: BuilderView, log_size: usize) -> Result<BuilderView, Error> {
    keccak_derived(keccak_committed(keccak_fixed(b, log_size), log_size), log_size, b.next_oracle_id())
}

fn make_id_range(start: OracleId, n: usize) -> (r: Vec<OracleId>)
    requires
        start + n <= usize::MAX,
    ensures
        r@ == id_range(start, n as nat),
{
    let mut out: Vec<OracleId> = Vec::new();
    let mut i: usize = 0;
    while i < n
        invariant
            i <= n,
            start + n <= usize::MAX,
            out@.len() == i,
            forall|k: int| 0 <= k < i ==> out@[k] == start + k,
        decreases n - i,
    {
        out.push(start + i);
        i += 1;
    }
    assert(out@ =~= id_range(start, n as nat));
    out
}

fn make_same_offsets(offset: usize, n: usize) -> (r: Vec<usize>)
    ensures
        r@ == same_offsets(offset, n as nat),
{
    let mut out: Vec<usize> = Vec::new();
    let mut i: usize = 0;
    while i < n
        invariant
            i <= n,
            out@.len() == i,
            forall|k: int| 0 <= k < i ==> out@[k] == offset,
        decreases n - i,
    {
        out.push(offset);
        i += 1;
    }
    assert(out@ =~= same_offsets(offset, n as nat));
    out
}

fn make_rho_pi(a_theta: OracleId) -> (r: (Vec<OracleId>, Vec<usize>))
    requires
        a_theta + 25 <= usize::MAX,
    ensures
        r.0@ == rho_pi_inners(a_theta),
        r.1@ == rho_pi_offsets(),
{
    let mut inners: Vec<OracleId> = Vec::new();
    let mut offsets: Vec<usize> = Vec::new();
    let mut i: usize = 0;
    while i < 24
        invariant
            i <= 24,
            a_theta + 25 <= usize::MAX,
            inners@.len() == i,
            offsets@.len() == i,
            forall|k: int| 0 <= k < i ==> inners@[k] == a_theta + PI[k + 1],
            forall|k: int| 0 <= k < i ==> offsets@[k] == RHO[k + 1],
        decreases 24 - i,
    {
        inners.push(a_theta + PI[i + 1]);
        offsets.push(RHO[i + 1] as usize);
        i += 1;
    }
    assert(inners@ =~= rho_pi_inners(a_theta));
    assert(offsets@ =~= rho_pi_offsets());
    (inners, offsets)
}

/// The bytes of the round constants.
fn round_constant_bytes() -> (r: Vec<u8>)
    ensures
        r@ == u64_bytes(KECCAKF_RC@),
        r@.len() == 256,
{
    let bytes = u64_rows_to_bytes(KECCAKF_RC.as_slice());
    proof {
        crate::builder::witness::views::lemma_u64_rows_of_bytes(KECCAKF_RC@);
    }
    bytes
}

/// Declares the round constants and the selector.
fn declare_fixed(
    builder: &mut ConstraintSystemBuilder,
    log_size: usize,
) -> (r: Result<OracleId, Error>)
    requires
        old(builder)@.wf(),
        log_size >= LOG_ROWS_PER_PERMUTATION,
    ensures
        final(builder)@.wf(),
        r == Ok::<OracleId, Error>(old(builder)@.next_oracle_id()),
        final(builder)@ == keccak_fixed(old(builder)@, log_size),
        final(builder)@.next_oracle_id() == old(builder)@.next_oracle_id() + 4,
        final(builder)@.witness == old(builder)@.witness,
        final(builder)@.constraints == old(builder)@.constraints,
{
    proof {
        vstd::arithmetic::power2::lemma2_to64();
    }
    let repetitions: usize = log_size - LOG_ROWS_PER_PERMUTATION;
    let data = round_constant_bytes();
    let round_consts_single: usize = match builder.add_transparent(
        "round_consts_single",
        Transparent::MultilinearExtension {
            n_vars: LOG_ROWS_PER_PERMUTATION,
            tower_level: 0,
            data,
        },
    ) {
        Ok(id) => id,
        Err(e) => {
            return Err(Error::Oracle(e));
        },
    };
    match builder.add_repeating("round_consts", round_consts_single, repetitions) {
        Ok(_) => {},
        Err(e) => {
            return Err(Error::Oracle(e));
        },
    }
    let selector_single: usize = match builder.add_transparent(
        "selector_single",
        Transparent::StepDown { n_vars: LOG_ROWS_PER_PERMUTATION, index: 1536 },
    ) {
        Ok(id) => id,
        Err(e) => {
            return Err(Error::Oracle(e));
        },
    };
    match builder.add_repeating("selector", selector_single, repetitions) {
        Ok(_) => {},
        Err(e) => {
            return Err(Error::Oracle(e));
        },
    }
    Ok(round_consts_single)
}

/// Declares the committed oracles of the circuit.
fn declare_committed(builder: &mut ConstraintSystemBuilder, log_size: usize) -> (r: [OracleId; 25])
    requires
        old(builder)@.wf(),
    ensures
        final(builder)@.wf(),
        final(builder)@ == keccak_committed(old(builder)@, log_size),
        final(builder)@.next_oracle_id() == old(builder)@.next_oracle_id() + 60,
        forall|xy: int| 0 <= xy < 25 ==> r[xy] == old(builder)@.next_oracle_id() + 25 + xy,
{
    let state_in: [OracleId; 25] = builder.add_committed_multiple("state_in", log_size, 0);
    let state_out: [OracleId; 25] = builder.add_committed_multiple("state_out", log_size, 0);
    let c: [OracleId; 5] = builder.add_committed_multiple("c", log_size, 0);
    let d: [OracleId; 5] = builder.add_committed_multiple("d", log_size, 0);
    state_out
}

/// Declares the derived oracles of the circuit.
fn declare_derived(builder: &mut ConstraintSystemBuilder, log_size: usize, base: OracleId) -> (r:
    Result<(), Error>)
    requires
        old(builder)@.wf(),
        old(builder)@.next_oracle_id() == base + 64,
    ensures
        final(builder)@.wf(),
        match keccak_derived(old(builder)@, log_size, base) {
            Err(e) => r == Err::<(), Error>(e),
            Ok(state) => r == Ok::<(), Error>(()) && final(builder)@ == state,
        },
{
    let c_ids = make_id_range(base + 54, 5);
    let c_offsets = make_same_offsets(1, 5);
    match add_shifted_group(
        builder,
        "c",
        0,
        &c_ids,
        &c_offsets,
        LOG_ROWS_PER_ROUND,
        ShiftVariant::CircularLeft,
    ) {
        Ok(()) => {},
        Err(e) => {
            return Err(e);
        },
    }
    proof {
        lemma_shifted_group_grows(
            old(builder)@,
            "c"@,
            0,
            c_ids@,
            c_offsets@,
            LOG_ROWS_PER_ROUND,
            ShiftVariant::CircularLeft,
            5,
        );
    }
    let ghost shifted = builder@;
    match add_theta_group(builder, log_size, base + 4, base + 59) {
        Ok(()) => {},
        Err(e) => {
            return Err(e);
        },
    }
    proof {
        lemma_theta_group_grows(shifted, log_size, (base + 4) as usize, (base + 59) as usize, 25);
    }
    let (b_inners, b_offsets) = make_rho_pi(base + 69);
    match add_shifted_group(
        builder,
        "b",
        1,
        &b_inners,
        &b_offsets,
        LOG_ROWS_PER_ROUND,
        ShiftVariant::CircularLeft,
    ) {
        Ok(()) => {},
        Err(e) => {
            return Err(e);
        },
    }
    let state_in_ids = make_id_range(base + 4, 25);
    let next_offsets = make_same_offsets(64, 25);
    add_shifted_group(
        builder,
        "next_state_in",
        0,
        &state_in_ids,
        &next_offsets,
        LOG_ROWS_PER_PERMUTATION,
        ShiftVariant::LogicalRight,
    )
}

/// The column of the trace that the oracle of offset `k` in the circuit
/// holds, for the offsets other than those of the two single-permutation
/// oracles.
pub open spec fn column_slot(k: int) -> int {
    if k == 1 {
        140
    } else if k == 3 {
        141
    } else if k < 94 {
        k - 4
    } else {
        k - 3
    }
}

/// The selector of one permutation: all ones in the rows of the 24 rounds.
pub open spec fn selector_rows() -> Seq<u64> {
    Seq::new(
        32,
        |i: int|
            if i < 24 {
                0xffff_ffff_ffff_ffffu64
            } else {
                0u64
            },
    )
}

/// The rows of the given vectors.
pub open spec fn row_views(rows: Seq<Vec<u64>>) -> Seq<Seq<u64>> {
    rows.map_values(|r: Vec<u64>| r@)
}

/// The words of the column of the oracle of offset `k` in the circuit.
pub open spec fn keccak_column(k: int, rows: Seq<Seq<u64>>) -> Seq<u64> {
    if k == 0 {
        KECCAKF_RC@
    } else if k == 2 {
        selector_rows()
    } else {
        Seq::new(rows.len(), |r: int| rows[r][column_slot(k)])
    }
}

/// The column of the oracle of offset `k` in the circuit.
pub open spec fn keccak_entry(k: int, log_size: usize, rows: Seq<Seq<u64>>) -> EntryView {
    EntryView {
        log_rows: if k == 0 || k == 2 {
            LOG_ROWS_PER_PERMUTATION
        } else {
            log_size
        },
        tower_level: 0,
        data: u64_bytes(keccak_column(k, rows)),
    }
}

/// The builder with the columns of the first `k` oracles of the circuit
/// stored, if it holds a witness.
pub open spec fn with_trace(
    b: BuilderView,
    base: OracleId,
    log_size: usize,
    rows: Seq<Seq<u64>>,
    k: nat,
) -> BuilderView
    decreases k,
{
    if k == 0 {
        b
    } else {
        with_column(
            with_trace(b, base, log_size, rows, (k - 1) as nat),
            (base + k - 1) as usize,
            keccak_entry(k - 1, log_size, rows),
        )
    }
}

/// Storing columns keeps all but the witness.
pub proof fn lemma_with_trace_keeps(
    b: BuilderView,
    base: OracleId,
    log_size: usize,
    rows: Seq<Seq<u64>>,
    k: nat,
)
    ensures
        with_trace(b, base, log_size, rows, k) == (BuilderView {
            witness: with_trace(b, base, log_size, rows, k).witness,
            ..b
        }),
        with_trace(b, base, log_size, rows, k).witness is Some == b.witness is Some,
    decreases k,
{
    if k > 0 {
        lemma_with_trace_keeps(b, base, log_size, rows, (k - 1) as nat);
    }
}

/// One column of the trace.
fn column_of(rows: &Vec<Vec<u64>>, slot: usize) -> (r: Vec<u64>)
    requires
        slot < TRACE_COLUMNS,
        forall|i: int| 0 <= i < rows@.len() ==> (#[trigger] rows@[i])@.len() == TRACE_COLUMNS,
    ensures
        r@ == Seq::new(rows@.len(), |i: int| row_views(rows@)[i][slot as int]),
{
    let n: usize = rows.len();
    let mut out: Vec<u64> = Vec::new();
    let mut i: usize = 0;
    while i < n
        invariant
            i <= n,
            n == rows@.len(),
            slot < TRACE_COLUMNS,
            forall|j: int| 0 <= j < rows@.len() ==> (#[trigger] rows@[j])@.len() == TRACE_COLUMNS,
            out@.len() == i,
            forall|j: int| 0 <= j < i ==> out@[j] == rows@[j]@[slot as int],
        decreases n - i,
    {
        out.push(rows[i][slot]);
        i += 1;
    }
    assert(out@ =~= Seq::new(rows@.len(), |i: int| row_views(rows@)[i][slot as int]));
    out
}

fn make_selector_rows() -> (r: Vec<u64>)
    ensures
        r@ == selector_rows(),
{
    let mut out: Vec<u64> = Vec::new();
    let mut i: usize = 0;
    while i < 32
        invariant
            i <= 32,
            out@.len() == i,
            forall|j: int| 0 <= j < i ==> out@[j] == selector_rows()[j],
        decreases 32 - i,
    {
        out.push(
            if i < 24 {
                0xffff_ffff_ffff_ffff
            } else {
                0
            },
        );
        i += 1;
    }
    assert(out@ =~= selector_rows());
    out
}

/// The words of the column of the oracle of offset `k` in the circuit.
fn make_keccak_column(k: usize, rows: &Vec<Vec<u64>>) -> (r: Vec<u64>)
    requires
        k < KECCAK_ORACLES,
        forall|i: int| 0 <= i < rows@.len() ==> (#[trigger] rows@[i])@.len() == TRACE_COLUMNS,
    ensures
        r@ == keccak_column(k as int, row_views(rows@)),
{
    if k == 0 {
        let words = crate::builder::witness::views::read_u64_rows(round_constant_bytes().as_slice());
        proof {
            crate::builder::witness::views::lemma_u64_rows_of_bytes(KECCAKF_RC@);
        }
        words
    } else if k == 2 {
        make_selector_rows()
    } else {
        let slot: usize = if k == 1 {
            140
        } else if k == 3 {
            141
        } else if k < 94 {
            k - 4
        } else {
            k - 3
        };
        let words = column_of(rows, slot);
        assert(words@ =~= keccak_column(k as int, row_views(rows@)));
        words
    }
}

/// Stores the columns of the oracles of the circuit.
fn fill_trace(
    builder: &mut ConstraintSystemBuilder,
    base: OracleId,
    log_size: usize,
    rows: &Vec<Vec<u64>>,
)
    requires
        old(builder)@.wf(),
        base + KECCAK_ORACLES <= usize::MAX,
        old(builder)@.witness is Some ==> rows@.len() * 8 == column_len(log_size, 0) && column_len(
            log_size,
            0,
        ) <= usize::MAX,
        forall|i: int| 0 <= i < rows@.len() ==> (#[trigger] rows@[i])@.len() == TRACE_COLUMNS,
    ensures
        final(builder)@.wf(),
        final(builder)@ == with_trace(
            old(builder)@,
            base,
            log_size,
            row_views(rows@),
            KECCAK_ORACLES as nat,
        ),
{
    proof {
        vstd::arithmetic::power2::lemma2_to64();
    }
    let mut k: usize = 0;
    while k < KECCAK_ORACLES
        invariant
            k <= KECCAK_ORACLES,
            base + KECCAK_ORACLES <= usize::MAX,
            builder@.wf(),
            old(builder)@.witness is Some ==> rows@.len() * 8 == column_len(log_size, 0)
                && column_len(log_size, 0) <= usize::MAX,
            forall|i: int| 0 <= i < rows@.len() ==> (#[trigger] rows@[i])@.len() == TRACE_COLUMNS,
            column_len(LOG_ROWS_PER_PERMUTATION, 0) == 256,
            builder@ == with_trace(old(builder)@, base, log_size, row_views(rows@), k as nat),
        decreases KECCAK_ORACLES - k,
    {
        proof {
            lemma_with_trace_keeps(old(builder)@, base, log_size, row_views(rows@), k as nat);
        }
        match builder.witness() {
            Some(witness) => {
                let words = make_keccak_column(k, rows);
                let log_rows: usize = if k == 0 || k == 2 {
                    LOG_ROWS_PER_PERMUTATION
                } else {
                    log_size
                };
                witness.store_u64(base + k, log_rows, 0, words.as_slice());
            },
            None => {},
        }
        k += 1;
    }
}

/// The composition `x0 + x1 + x2 + x3 + x4 + x5`.
pub open spec fn sum6_composition() -> ArithExpr {
    ArithExpr::Add(
        Box::new(
            ArithExpr::Add(
                Box::new(
                    ArithExpr::Add(
                        Box::new(
                            ArithExpr::Add(
                                Box::new(
                                    ArithExpr::Add(
                                        Box::new(ArithExpr::Var(0)),
                                        Box::new(ArithExpr::Var(1)),
                                    ),
                                ),
                                Box::new(ArithExpr::Var(2)),
                            ),
                        ),
                        Box::new(ArithExpr::Var(3)),
                    ),
                ),
                Box::new(ArithExpr::Var(4)),
            ),
        ),
        Box::new(ArithExpr::Var(5)),
    )
}

/// The composition `x0 + x1 + x2`.
pub open spec fn sum3_composition() -> ArithExpr {
    ArithExpr::Add(
        Box::new(ArithExpr::Add(Box::new(ArithExpr::Var(0)), Box::new(ArithExpr::Var(1)))),
        Box::new(ArithExpr::Var(2)),
    )
}

/// The term `(1 - b1) * b2` of the chi step, over the variables 2 and 3.
pub open spec fn chi_term() -> ArithExpr {
    ArithExpr::Mul(
        Box::new(ArithExpr::Add(Box::new(ArithExpr::Const(1)), Box::new(ArithExpr::Var(2)))),
        Box::new(ArithExpr::Var(3)),
    )
}

/// The composition `s - (b0 + (1 - b1) * b2)`.
pub open spec fn chi_composition() -> ArithExpr {
    ArithExpr::Add(
        Box::new(ArithExpr::Var(0)),
        Box::new(ArithExpr::Add(Box::new(ArithExpr::Var(1)), Box::new(chi_term()))),
    )
}

/// The composition `s - (rc + b0 + (1 - b1) * b2)`.
pub open spec fn chi_iota_composition() -> ArithExpr {
    ArithExpr::Add(
        Box::new(ArithExpr::Var(0)),
        Box::new(
            ArithExpr::Add(
                Box::new(
                    ArithExpr::Add(Box::new(ArithExpr::Var(4)), Box::new(ArithExpr::Var(1))),
                ),
                Box::new(chi_term()),
            ),
        ),
    )
}

/// The composition `(state_out - next_state_in) * select`.
pub open spec fn consistency_composition() -> ArithExpr {
    ArithExpr::Mul(
        Box::new(ArithExpr::Add(Box::new(ArithExpr::Var(0)), Box::new(ArithExpr::Var(1)))),
        Box::new(ArithExpr::Var(2)),
    )
}

/// The id of the oracle of lane `xy` after rho and pi: lane 0 is not
/// rotated, and is the oracle of lane 0 after theta.
pub open spec fn rho_pi_id(base: OracleId, xy: int) -> OracleId {
    if xy == 0 {
        (base + 69) as usize
    } else {
        (base + 93 + xy) as usize
    }
}

/// The constraint of index `k` of the circuit. In order: for each column,
/// that its parity is the sum of its lanes; for each column, that the
/// effect of theta is the sum of the parity before it and the rotated
/// parity after it; for each lane, that the state after the round is the
/// chi step of the lanes after rho and pi, plus the round constant in lane
/// 0; and for each lane, that the next row starts with the state after the
/// round, in the rows that the selector selects.
pub open spec fn keccak_constraint(base: OracleId, k: int) -> ConstraintView {
    if k < 5 {
        ConstraintView {
            oracle_ids: seq![
                (base + 54 + k) as usize,
                (base + 4 + k) as usize,
                (base + 4 + k + 5) as usize,
                (base + 4 + k + 10) as usize,
                (base + 4 + k + 15) as usize,
                (base + 4 + k + 20) as usize,
            ],
            composition: sum6_composition(),
        }
    } else if k < 10 {
        ConstraintView {
            oracle_ids: seq![
                (base + 54 + (k - 5 + 4) % 5) as usize,
                (base + 64 + (k - 5 + 1) % 5) as usize,
                (base + 59 + (k - 5)) as usize,
            ],
            composition: sum3_composition(),
        }
    } else if k < 35 {
        let x = (k - 10) / 5;
        let y = (k - 10) % 5;
        if x == 0 && y == 0 {
            ConstraintView {
                oracle_ids: seq![
                    (base + 29) as usize,
                    rho_pi_id(base, 0),
                    rho_pi_id(base, 1),
                    rho_pi_id(base, 2),
                    (base + 1) as usize,
                ],
                composition: chi_iota_composition(),
            }
        } else {
            ConstraintView {
                oracle_ids: seq![
                    (base + 29 + x + 5 * y) as usize,
                    rho_pi_id(base, x + 5 * y),
                    rho_pi_id(base, (x + 1) % 5 + 5 * y),
                    rho_pi_id(base, (x + 2) % 5 + 5 * y),
                ],
                composition: chi_composition(),
            }
        }
    } else {
        ConstraintView {
            oracle_ids: seq![
                (base + 29 + (k - 35)) as usize,
                (base + 118 + (k - 35)) as usize,
                (base + 3) as usize,
            ],
            composition: consistency_composition(),
        }
    }
}

/// The number of constraints of the circuit.
pub const KECCAK_CONSTRAINTS: usize = 60;

/// The builder with the first `k` constraints of the circuit registered.
pub open spec fn with_constraints(b: BuilderView, base: OracleId, k: nat) -> BuilderView
    decreases k,
{
    if k == 0 {
        b
    } else {
        with_constraints(b, base, (k - 1) as nat).with_constraint(keccak_constraint(base, k - 1))
    }
}

fn make_chi_term() -> (r: ArithExpr)
    ensures
        r == chi_term(),
{
    ArithExpr::constant(1).plus(ArithExpr::var(2)).times(ArithExpr::var(3))
}

fn rho_pi_oracle(base: OracleId, xy: usize) -> (r: OracleId)
    requires
        xy < 25,
        base + KECCAK_ORACLES <= usize::MAX,
    ensures
        r == rho_pi_id(base, xy as int),
{
    if xy == 0 {
        base + 69
    } else {
        base + 93 + xy
    }
}


fn make_keccak_constraint(base: OracleId, k: usize) -> (r: (Vec<OracleId>, ArithExpr))
    requires
        k < KECCAK_CONSTRAINTS,
        base + KECCAK_ORACLES <= usize::MAX,
    ensures
        r.0@ == keccak_constraint(base, k as int).oracle_ids,
        r.1 == keccak_constraint(base, k as int).composition,
{
    if k < 5 {
        let ids: Vec<OracleId> = vec![
            base + 54 + k,
            base + 4 + k,
            base + 4 + k + 5,
            base + 4 + k + 10,
            base + 4 + k + 15,
            base + 4 + k + 20,
        ];
        assert(ids@ =~= keccak_constraint(base, k as int).oracle_ids);
        let composition = ArithExpr::var(0).plus(ArithExpr::var(1)).plus(ArithExpr::var(2)).plus(
            ArithExpr::var(3),
        ).plus(ArithExpr::var(4)).plus(ArithExpr::var(5));
        (ids, composition)
    } else if k < 10 {
        let x: usize = k - 5;
        let ids: Vec<OracleId> = vec![base + 54 + (x + 4) % 5, base + 64 + (x + 1) % 5, base + 59 + x];
        assert(ids@ =~= keccak_constraint(base, k as int).oracle_ids);
        let composition = ArithExpr::var(0).plus(ArithExpr::var(1)).plus(ArithExpr::var(2));
        (ids, composition)
    } else if k < 35 {
        let x: usize = (k - 10) / 5;
        let y: usize = (k - 10) % 5;
        if x == 0 && y == 0 {
            let ids: Vec<OracleId> = vec![
                base + 29,
                rho_pi_oracle(base, 0),
                rho_pi_oracle(base, 1),
                rho_pi_oracle(base, 2),
                base + 1,
            ];
            assert(ids@ =~= keccak_constraint(base, k as int).oracle_ids);
            let composition = ArithExpr::var(0).plus(
                ArithExpr::var(4).plus(ArithExpr::var(1)).plus(make_chi_term()),
            );
            (ids, composition)
        } else {
            let ids: Vec<OracleId> = vec![
                base + 29 + x + 5 * y,
                rho_pi_oracle(base, x + 5 * y),
                rho_pi_oracle(base, (x + 1) % 5 + 5 * y),
                rho_pi_oracle(base, (x + 2) % 5 + 5 * y),
            ];
            assert(ids@ =~= keccak_constraint(base, k as int).oracle_ids);
            let composition = ArithExpr::var(0).plus(ArithExpr::var(1).plus(make_chi_term()));
            (ids, composition)
        }
    } else {
        let xy: usize = k - 35;
        let ids: Vec<OracleId> = vec![base + 29 + xy, base + 118 + xy, base + 3];
        assert(ids@ =~= keccak_constraint(base, k as int).oracle_ids);
        let composition = ArithExpr::var(0).plus(ArithExpr::var(1)).times(ArithExpr::var(2));
        (ids, composition)
    }
}

/// Registers the constraints of the circuit.
fn constrain(builder: &mut ConstraintSystemBuilder, base: OracleId)
    requires
        old(builder)@.wf(),
        base + KECCAK_ORACLES <= usize::MAX,
    ensures
        final(builder)@.wf(),
        final(builder)@ == with_constraints(old(builder)@, base, KECCAK_CONSTRAINTS as nat),
{
    let mut k: usize = 0;
    while k < KECCAK_CONSTRAINTS
        invariant
            k <= KECCAK_CONSTRAINTS,
            base + KECCAK_ORACLES <= usize::MAX,
            builder@.wf(),
            builder@ == with_constraints(old(builder)@, base, k as nat),
        decreases KECCAK_CONSTRAINTS - k,
    {
        let (ids, composition) = make_keccak_constraint(base, k);
        builder.assert_zero(ids, composition);
        k += 1;
    }
}

/// The state that the Keccak-f[1600] permutation maps the given state to.
pub uninterp spec fn keccak_f1600(state: Seq<u64>) -> Seq<u64>;

/// Applies the Keccak-f[1600] permutation of the `tiny_keccak` crate,
/// `tiny_keccak::keccakf`. The contract names its result: the function maps
/// equal states to equal states, and nothing more is claimed here.
#[verifier::external_body]
fn permute(state: &[u64; 25]) -> (r: [u64; 25])
    ensures
        r@ == keccak_f1600(state@),
{
    let mut out = *state;
    tiny_keccak::keccakf(&mut out);
    out
}

/// Draws the bytes of a state from the generator of the operating system
/// through the `rand` crate: `RngCore::try_fill_bytes` on
/// `rand::rngs::OsRng`, which reports it where the system gives no bytes.
/// Nothing is claimed of the bytes drawn, nor that any are.
#[verifier::external_body]
fn random_bytes() -> Option<[u8; 200]> {
    let mut bytes = [0u8; 200];
    match rand::rngs::OsRng.try_fill_bytes(&mut bytes) {
        Ok(()) => Some(bytes),
        Err(_) => None,
    }
}

/// The state that 200 bytes hold: eight bytes to a lane, the least
/// significant first.
fn state_of_bytes(bytes: &[u8; 200]) -> (r: [u64; 25])
    ensures
        r@ == u64_rows(bytes@),
{
    let words = read_u64_rows(bytes.as_slice());
    let mut state = [0u64; 25];
    let mut i: usize = 0;
    while i < 25
        invariant
            i <= 25,
            words@ == u64_rows(bytes@),
            words@.len() == 25,
            forall|k: int| 0 <= k < i ==> state[k] == words@[k],
        decreases 25 - i,
    {
        state[i] = words[i];
        i += 1;
    }
    assert(state@ =~= u64_rows(bytes@));
    state
}

/// The number of permutations in a column of `2^log_size` rows.
pub open spec fn permutations(log_size: usize) -> nat {
    column_len(log_size, 0) / 256
}

/// The rows of the trace of the permutations of the given inputs.
pub open spec fn trace_rows(inputs: Seq<Seq<u64>>) -> Seq<Seq<u64>> {
    Seq::new(
        32 * inputs.len(),
        |r: int| Seq::new(TRACE_COLUMNS as nat, |c: int| trace_word(c, inputs, r)),
    )
}

/// Why the witness of the circuit cannot be computed, if the builder holds
/// a witness and it cannot: the columns are too large, the number of inputs
/// or of expected outputs is not the number of permutations in a column, or
/// the trace of a permutation does not end in its expected output.
pub open spec fn keccak_witness_defect(
    b: BuilderView,
    log_size: usize,
    inputs: Seq<Seq<u64>>,
    outputs: Seq<Seq<u64>>,
) -> Option<Error> {
    if b.witness is None {
        None
    } else {
        match column_defect(b, log_size, 0) {
            Some(e) => Some(e),
            None => if inputs.len() != permutations(log_size) || outputs.len() != inputs.len() {
                Some(
                    Error::PermutationCountMismatch {
                        expected: permutations(log_size) as usize,
                        inputs: inputs.len() as usize,
                        outputs: outputs.len() as usize,
                    },
                )
            } else {
                match trace_defect(inputs, outputs, inputs.len()) {
                    Some(p) => Some(Error::TraceMismatch { permutation: p }),
                    None => None,
                }
            },
        }
    }
}

/// What the circuit of the permutation does to a builder, for the given
/// inputs of the permutations and the outputs expected of them: the new
/// builder, or an error. The circuit declares its oracles, stores the trace
/// of the permutations of the inputs and registers its constraints.
pub open spec fn keccak_outcome(
    b: BuilderView,
    log_size: usize,
    inputs: Seq<Seq<u64>>,
    outputs: Seq<Seq<u64>>,
) -> Result<BuilderView, Error> {
    if log_size < LOG_ROWS_PER_PERMUTATION {
        Err(Error::NotEnoughVariables { n_vars: log_size })
    } else {
        match keccak_witness_defect(b, log_size, inputs, outputs) {
            Some(e) => Err(e),
            None => match keccak_declared(b, log_size) {
                Err(e) => Err(e),
                Ok(declared) => Ok(
                    with_constraints(
                        with_trace(
                            declared,
                            b.next_oracle_id(),
                            log_size,
                            trace_rows(inputs),
                            KECCAK_ORACLES as nat,
                        ),
                        b.next_oracle_id(),
                        KECCAK_CONSTRAINTS as nat,
                    ),
                ),
            },
        }
    }
}

/// A column of at least `2^11` bits holds whole permutations.
proof fn lemma_whole_permutations(log_size: usize)
    requires
        log_size >= LOG_ROWS_PER_PERMUTATION,
    ensures
        column_len(log_size, 0) == 256 * permutations(log_size),
{
    vstd::arithmetic::power2::lemma2_to64();
    vstd::arithmetic::power2::lemma_pow2_adds(4, (log_size - LOG_ROWS_PER_PERMUTATION) as nat);
    let q = vstd::arithmetic::power2::pow2((log_size - LOG_ROWS_PER_PERMUTATION) as nat);
    assert(column_len(log_size, 0) == 16 * (16 * q));
    assert(16 * (16 * q) == 256 * q);
}

/// Computes the trace of the permutations and checks where it ends.
fn compute_trace(
    has_witness: bool,
    log_size: usize,
    inputs: &[[u64; 25]],
    outputs: &[[u64; 25]],
    Ghost(b): Ghost<BuilderView>,
) -> (r: Result<Vec<Vec<u64>>, Error>)
    requires
        log_size >= LOG_ROWS_PER_PERMUTATION,
        has_witness == b.witness is Some,
    ensures
        match keccak_witness_defect(b, log_size, lanes(inputs@), lanes(outputs@)) {
            Some(e) => r == Err::<Vec<Vec<u64>>, Error>(e),
            None => {
                &&& r is Ok
                &&& forall|i: int|
                    0 <= i < r->Ok_0@.len() ==> (#[trigger] r->Ok_0@[i])@.len() == TRACE_COLUMNS
                &&& has_witness ==> row_views(r->Ok_0@) == trace_rows(lanes(inputs@))
                    && r->Ok_0@.len() * 8 == column_len(log_size, 0) && column_len(log_size, 0)
                    <= usize::MAX
            },
        },
{
    if !has_witness {
        return Ok(Vec::new());
    }
    let len: usize = match checked_column_len(log_size, 0) {
        Some(l) => l,
        None => {
            return Err(Error::ColumnTooLarge { log_rows: log_size, tower_level: 0 });
        },
    };
    proof {
        lemma_whole_permutations(log_size);
    }
    let expected: usize = len / 256;
    if inputs.len() != expected || outputs.len() != inputs.len() {
        return Err(
            Error::PermutationCountMismatch {
                expected,
                inputs: inputs.len(),
                outputs: outputs.len(),
            },
        );
    }
    let rows = keccak_trace(inputs);
    match check_trace(&rows, outputs, Ghost(lanes(inputs@))) {
        Some(p) => {
            return Err(Error::TraceMismatch { permutation: p });
        },
        None => {},
    }
    proof {
        let views = row_views(rows@);
        let target = trace_rows(lanes(inputs@));
        assert forall|r: int| 0 <= r < views.len() implies views[r] == target[r] by {
            assert(rows@[r]@.len() == TRACE_COLUMNS);
            assert(views[r] =~= target[r]);
        }
        assert(views =~= target);
    }
    Ok(rows)
}

/// Declares the circuit of the Keccak-f[1600] permutation on columns of
/// `2^log_size` bits and, when the builder holds a witness, stores the trace
/// of the permutations of the given inputs, after checking that the trace
/// of each ends in the output expected of it. Returns the oracles of the 25
/// lanes of the state after each round.
#[verifier::rlimit(30)]
pub fn keccakf_with_inputs(
    builder: &mut ConstraintSystemBuilder,
    log_size: usize,
    inputs: &[[u64; 25]],
    outputs: &[[u64; 25]],
) -> (r: Result<[OracleId; 25], Error>)
    requires
        old(builder)@.wf(),
    ensures
        final(builder)@.wf(),
        match keccak_outcome(old(builder)@, log_size, lanes(inputs@), lanes(outputs@)) {
            Err(e) => r == Err::<[OracleId; 25], Error>(e),
            Ok(state) => {
                &&& r is Ok
                &&& final(builder)@ == state
                &&& forall|xy: int|
                    0 <= xy < 25 ==> r->Ok_0[xy] == old(builder)@.next_oracle_id() + 29 + xy
            },
        },
{
    if log_size < LOG_ROWS_PER_PERMUTATION {
        return Err(Error::NotEnoughVariables { n_vars: log_size });
    }
    let has_witness = builder.has_witness();
    let rows = match compute_trace(has_witness, log_size, inputs, outputs, Ghost(builder@)) {
        Ok(rows) => rows,
        Err(e) => {
            return Err(e);
        },
    };
    let base: usize = match declare_fixed(builder, log_size) {
        Ok(id) => id,
        Err(e) => {
            return Err(e);
        },
    };
    let ghost fixed = builder@;
    let state_out = declare_committed(builder, log_size);
    let ghost committed = builder@;
    match declare_derived(builder, log_size, base) {
        Ok(()) => {},
        Err(e) => {
            return Err(e);
        },
    }
    let ghost declared = builder@;
    proof {
        lemma_derived_grows(committed, log_size, base);
        assert(fixed == keccak_fixed(old(builder)@, log_size));
        assert(committed == keccak_committed(fixed, log_size));
        assert(keccak_declared(old(builder)@, log_size) == Ok::<BuilderView, Error>(declared));
        assert(declared.witness == old(builder)@.witness);
        assert(declared.next_oracle_id() == base + KECCAK_ORACLES);
    }
    fill_trace(builder, base, log_size, &rows);
    proof {
        lemma_with_trace_keeps(
            declared,
            base,
            log_size,
            row_views(rows@),
            KECCAK_ORACLES as nat,
        );
        lemma_with_trace_keeps(
            declared,
            base,
            log_size,
            trace_rows(lanes(inputs@)),
            KECCAK_ORACLES as nat,
        );
        assert(builder@ == with_trace(
            declared,
            base,
            log_size,
            trace_rows(lanes(inputs@)),
            KECCAK_ORACLES as nat,
        ));
    }
    constrain(builder, base);
    Ok(state_out)
}

/// The derived declarations add 79 oracles and change nothing else.
proof fn lemma_derived_grows(b: BuilderView, log_size: usize, base: OracleId)
    requires
        keccak_derived(b, log_size, base) is Ok,
    ensures
        grown_by(b, keccak_derived(b, log_size, base)->Ok_0, 79),
{
    let g1 = shifted_group(
        b,
        "c"@,
        0,
        id_range((base + 54) as usize, 5),
        same_offsets(1, 5),
        LOG_ROWS_PER_ROUND,
        ShiftVariant::CircularLeft,
        5,
    );
    lemma_shifted_group_grows(
        b,
        "c"@,
        0,
        id_range((base + 54) as usize, 5),
        same_offsets(1, 5),
        LOG_ROWS_PER_ROUND,
        ShiftVariant::CircularLeft,
        5,
    );
    let b1 = g1->Ok_0;
    let g2 = theta_group(b1, log_size, (base + 4) as usize, (base + 59) as usize, 25);
    lemma_theta_group_grows(b1, log_size, (base + 4) as usize, (base + 59) as usize, 25);
    let b2 = g2->Ok_0;
    lemma_shifted_group_grows(
        b2,
        "b"@,
        1,
        rho_pi_inners((base + 69) as usize),
        rho_pi_offsets(),
        LOG_ROWS_PER_ROUND,
        ShiftVariant::CircularLeft,
        24,
    );
    let b3 = shifted_group(
        b2,
        "b"@,
        1,
        rho_pi_inners((base + 69) as usize),
        rho_pi_offsets(),
        LOG_ROWS_PER_ROUND,
        ShiftVariant::CircularLeft,
        24,
    )->Ok_0;
    lemma_shifted_group_grows(
        b3,
        "next_state_in"@,
        0,
        id_range((base + 4) as usize, 25),
        same_offsets(64, 25),
        LOG_ROWS_PER_PERMUTATION,
        ShiftVariant::LogicalRight,
        25,
    );
}

/// The outputs that the permutation gives for the given inputs.
pub open spec fn permuted(inputs: Seq<Seq<u64>>) -> Seq<Seq<u64>> {
    inputs.map_values(|s: Seq<u64>| keccak_f1600(s))
}

/// Whether the circuit draws inputs for a builder: the builder holds a
/// witness, and the columns hold at least one permutation and fit the
/// machine.
pub open spec fn draws(b: BuilderView, log_size: usize) -> bool {
    b.witness is Some && log_size >= LOG_ROWS_PER_PERMUTATION && column_len(log_size, 0)
        <= usize::MAX
}

/// Whether the given inputs are as many as `keccakf` draws: one for every
/// permutation that the columns hold, when the builder holds a witness and
/// the columns can be stored, and none otherwise.
pub open spec fn drawn_for(b: BuilderView, log_size: usize, inputs: Seq<Seq<u64>>) -> bool {
    if draws(b, log_size) {
        inputs.len() == permutations(log_size)
    } else {
        inputs.len() == 0
    }
}

/// Declares the circuit of the Keccak-f[1600] permutation on columns of
/// `2^log_size` bits. When the builder holds a witness, the inputs of the
/// permutations are drawn at random, and the trace of each permutation is
/// checked to end in the state that the permutation of the `tiny_keccak`
/// crate maps its input to. Whatever inputs are drawn, the builder ends as
/// `keccakf_with_inputs` leaves it for those inputs and their permuted
/// states. Where the system gives no random bytes, the builder is left as
/// it was.
pub fn keccakf(builder: &mut ConstraintSystemBuilder, log_size: usize) -> (r: Result<
    [OracleId; 25],
    Error,
>)
    requires
        old(builder)@.wf(),
    ensures
        final(builder)@.wf(),
        (r == Err::<[OracleId; 25], Error>(Error::RandomnessUnavailable) && final(builder)@ == old(
            builder,
        )@ && draws(old(builder)@, log_size)) || exists|inputs: Seq<Seq<u64>>|
            {
                &&& drawn_for(old(builder)@, log_size, inputs)
                &&& match #[trigger] keccak_outcome(
                    old(builder)@,
                    log_size,
                    inputs,
                    permuted(inputs),
                ) {
                    Err(e) => r == Err::<[OracleId; 25], Error>(e),
                    Ok(state) => {
                        &&& r is Ok
                        &&& final(builder)@ == state
                        &&& forall|xy: int|
                            0 <= xy < 25 ==> r->Ok_0[xy] == old(builder)@.next_oracle_id() + 29
                                + xy
                    },
                }
            },
{
    let mut inputs: Vec<[u64; 25]> = Vec::new();
    let mut outputs: Vec<[u64; 25]> = Vec::new();
    if builder.has_witness() && log_size >= LOG_ROWS_PER_PERMUTATION {
        match checked_column_len(log_size, 0) {
            Some(len) => {
                let n: usize = len / 256;
                let mut i: usize = 0;
                while i < n
                    invariant
                        i <= n,
                        builder@ == old(builder)@,
                        builder@.wf(),
                        draws(builder@, log_size),
                        inputs@.len() == i,
                        outputs@.len() == i,
                        forall|p: int|
                            0 <= p < i ==> (#[trigger] outputs@[p])@ == keccak_f1600(inputs@[p]@),
                    decreases n - i,
                {
                    let input = match random_bytes() {
                        Some(bytes) => state_of_bytes(&bytes),
                        None => {
                            return Err(Error::RandomnessUnavailable);
                        },
                    };
                    let output = permute(&input);
                    inputs.push(input);
                    outputs.push(output);
                    i += 1;
                }
            },
            None => {},
        }
    }
    proof {
        assert(lanes(outputs@) =~= permuted(lanes(inputs@)));
    }
    let r = keccakf_with_inputs(builder, log_size, inputs.as_slice(), outputs.as_slice());
    proof {
        let witness = lanes(inputs@);
        assert(drawn_for(old(builder)@, log_size, witness));
        assert(match keccak_outcome(old(builder)@, log_size, witness, permuted(witness)) {
            Err(e) => r == Err::<[OracleId; 25], Error>(e),
            Ok(state) => {
                &&& r is Ok
                &&& builder@ == state
                &&& forall|xy: int|
                    0 <= xy < 25 ==> r->Ok_0[xy] == old(builder)@.next_oracle_id() + 29 + xy
            },
        });
    }
    r
}

proof fn lemma_round_bits(
    a0: u64,
    a1: u64,
    a2: u64,
    a3: u64,
    a4: u64,
    b0: u64,
    b1: u64,
    b2: u64,
    rc: u64,
)
    by (bit_vector)
    ensures
        (((((a0 ^ a1 ^ a2 ^ a3 ^ a4) ^ a0) ^ a1) ^ a2) ^ a3) ^ a4 == 0,
        (a0 ^ a1) ^ (a0 ^ a1) == 0,
        (b0 ^ (!b1 & b2)) ^ (b0 ^ ((0xffff_ffff_ffff_ffffu64 ^ b1) & b2)) == 0,
        ((b0 ^ (!b1 & b2)) ^ rc) ^ ((rc ^ b0) ^ ((0xffff_ffff_ffff_ffffu64 ^ b1) & b2)) == 0,
        (a0 ^ a0) & 0xffff_ffff_ffff_ffffu64 == 0,
        (a0 ^ a1) & 0u64 == 0,
{
}

/// The column parities satisfy their constraint on every bit: the parity
/// of a column is the sum of its five lanes.
pub proof fn lemma_parity_relation(s: Seq<u64>, x: int)
    requires
        s.len() == 25,
        0 <= x < 5,
    ensures
        sum6_composition().eval_u64(
            seq![theta_c(s, x), s[x], s[x + 5], s[x + 10], s[x + 15], s[x + 20]],
        ) == 0,
{
    reveal_with_fuel(ArithExpr::eval_u64, 8);
    let v6 = seq![theta_c(s, x), s[x], s[x + 5], s[x + 10], s[x + 15], s[x + 20]];
    assert(v6[0] == theta_c(s, x) && v6[1] == s[x] && v6[2] == s[x + 5] && v6[3] == s[x + 10]
        && v6[4] == s[x + 15] && v6[5] == s[x + 20]);
    lemma_round_bits(s[x], s[x + 5], s[x + 10], s[x + 15], s[x + 20], 0, 0, 0, 0);
}

/// The effects of theta satisfy their constraint on every bit: the effect
/// on a column is the sum of the parity of the column before it and the
/// rotated parity of the column after it.
pub proof fn lemma_theta_relation(s: Seq<u64>, x: int)
    requires
        s.len() == 25,
        0 <= x < 5,
    ensures
        sum3_composition().eval_u64(
            seq![
                theta_c(s, (x + 4) % 5),
                rotate_left(theta_c(s, (x + 1) % 5), 1),
                theta_d(s, x),
            ],
        ) == 0,
{
    reveal_with_fuel(ArithExpr::eval_u64, 4);
    let c4 = theta_c(s, (x + 4) % 5);
    let c1 = rotate_left(theta_c(s, (x + 1) % 5), 1);
    let v3 = seq![c4, c1, theta_d(s, x)];
    assert(v3[0] == c4 && v3[1] == c1 && v3[2] == theta_d(s, x));
    lemma_round_bits(c4, c1, 0, 0, 0, 0, 0, 0, 0);
}

/// The state after a round satisfies the constraint of the chi step on
/// every bit, in every lane but lane 0.
pub proof fn lemma_chi_relation(s: Seq<u64>, round: int, x: int, y: int)
    requires
        s.len() == 25,
        0 <= round < 32,
        0 <= x < 5,
        0 <= y < 5,
        x + 5 * y != 0,
    ensures
        chi_composition().eval_u64(
            seq![
                round_out(s, round, x + 5 * y),
                rho_pi(s, x + 5 * y),
                rho_pi(s, (x + 1) % 5 + 5 * y),
                rho_pi(s, (x + 2) % 5 + 5 * y),
            ],
        ) == 0,
{
    reveal_with_fuel(ArithExpr::eval_u64, 6);
    let xy = x + 5 * y;
    assert(xy % 5 == x && xy / 5 == y);
    let b0 = rho_pi(s, xy);
    let b1 = rho_pi(s, (x + 1) % 5 + 5 * y);
    let b2 = rho_pi(s, (x + 2) % 5 + 5 * y);
    let vc = seq![round_out(s, round, xy), b0, b1, b2];
    assert(vc[0] == round_out(s, round, xy) && vc[1] == b0 && vc[2] == b1 && vc[3] == b2);
    lemma_round_bits(0, 0, 0, 0, 0, b0, b1, b2, 0);
}

/// The state after a round satisfies the constraint of the chi and iota
/// steps on every bit, in lane 0.
pub proof fn lemma_chi_iota_relation(s: Seq<u64>, round: int)
    requires
        s.len() == 25,
        0 <= round < 32,
    ensures
        chi_iota_composition().eval_u64(
            seq![round_out(s, round, 0), rho_pi(s, 0), rho_pi(s, 1), rho_pi(s, 2), KECCAKF_RC[round]],
        ) == 0,
{
    reveal_with_fuel(ArithExpr::eval_u64, 6);
    let i0 = rho_pi(s, 0);
    let i1 = rho_pi(s, 1);
    let i2 = rho_pi(s, 2);
    let rc = KECCAKF_RC[round];
    let vi = seq![round_out(s, round, 0), i0, i1, i2, rc];
    assert(vi[0] == round_out(s, round, 0) && vi[1] == i0 && vi[2] == i1 && vi[3] == i2 && vi[4]
        == rc);
    lemma_round_bits(0, 0, 0, 0, 0, i0, i1, i2, rc);
}

/// Every row of the trace satisfies the consistency constraint on every
/// bit: where the selector is set, the next row starts with the state after
/// the round.
pub proof fn lemma_consistency_relation(s: Seq<u64>, round: int, xy: int)
    requires
        s.len() == 25,
        0 <= round < 32,
        0 <= xy < 25,
    ensures
        consistency_composition().eval_u64(
            seq![
                row_word(25 + xy, s, round),
                row_word(115 + xy, s, round),
                row_word(141, s, round),
            ],
        ) == 0,
{
    reveal(row_word);
    reveal_with_fuel(ArithExpr::eval_u64, 4);
    let so = row_word(25 + xy, s, round);
    let ns = row_word(115 + xy, s, round);
    let sel = row_word(141, s, round);
    let vk = seq![so, ns, sel];
    assert(vk[0] == so && vk[1] == ns && vk[2] == sel);
    lemma_round_bits(so, ns, 0, 0, 0, 0, 0, 0, 0);
}

/// After the columns of the first `k` oracles of the circuit are stored,
/// the table holds, for each of them, the column of that oracle.
pub proof fn lemma_with_trace_entry(
    b: BuilderView,
    base: OracleId,
    log_size: usize,
    rows: Seq<Seq<u64>>,
    k: nat,
    j: nat,
)
    requires
        b.witness is Some,
        j < k <= KECCAK_ORACLES,
        base + KECCAK_ORACLES <= usize::MAX,
    ensures
        with_trace(b, base, log_size, rows, k).witness is Some,
        entry_of(with_trace(b, base, log_size, rows, k).witness->0, (base + j) as usize) == Some(
            keccak_entry(j as int, log_size, rows),
        ),
    decreases k,
{
    let before = with_trace(b, base, log_size, rows, (k - 1) as nat);
    lemma_with_trace_keeps(b, base, log_size, rows, (k - 1) as nat);
    lemma_entry_of_table_with(
        before.witness->0,
        (base + k - 1) as usize,
        keccak_entry(k - 1, log_size, rows),
        (base + j) as usize,
    );
    if j + 1 < k {
        lemma_with_trace_entry(b, base, log_size, rows, (k - 1) as nat, j);
    }
}

/// Registering constraints keeps the witness.
pub proof fn lemma_with_constraints_keeps(b: BuilderView, base: OracleId, k: nat)
    ensures
        with_constraints(b, base, k).witness == b.witness,
    decreases k,
{
    if k > 0 {
        lemma_with_constraints_keeps(b, base, (k - 1) as nat);
    }
}

/// Where no trace is found not to match, every trace ends in the state
/// expected of it.
pub proof fn lemma_trace_matches(inputs: Seq<Seq<u64>>, outputs: Seq<Seq<u64>>, k: nat, p: int)
    requires
        trace_defect(inputs, outputs, k) is None,
        0 <= p < k,
    ensures
        state_at(inputs[p], 24) == outputs[p],
    decreases k,
{
    if p < k - 1 {
        lemma_trace_matches(inputs, outputs, (k - 1) as nat, p);
    }
}

/// The column of an output lane holds, in the row of the last round of a
/// permutation, the lane of the state after that round.
proof fn lemma_output_word(inputs: Seq<Seq<u64>>, p: int, xy: int)
    requires
        0 <= p < inputs.len(),
        0 <= xy < 25,
    ensures
        keccak_column(29 + xy, trace_rows(inputs)).len() == 32 * inputs.len(),
        keccak_column(29 + xy, trace_rows(inputs))[32 * p + 23] == state_at(inputs[p], 24)[xy],
{
    let rows = trace_rows(inputs);
    let r = 32 * p + 23;
    assert(column_slot(29 + xy) == 25 + xy);
    assert(rows[r][25 + xy] == trace_word(25 + xy, inputs, r));
    lemma_trace_end(inputs, p, xy);
}

/// The column stored for an oracle of the circuit reads as the words of
/// that oracle's column of the trace.
proof fn lemma_trace_words(
    b: BuilderView,
    base: OracleId,
    log_size: usize,
    rows: Seq<Seq<u64>>,
    j: nat,
)
    requires
        b.witness is Some,
        j < KECCAK_ORACLES,
        base + KECCAK_ORACLES <= usize::MAX,
    ensures
        ({
            let filled = with_trace(b, base, log_size, rows, KECCAK_ORACLES as nat);
            let column = entry_of(filled.witness->0, (base + j) as usize);
            &&& filled.witness is Some
            &&& column is Some
            &&& u64_rows(column->0.data) == keccak_column(j as int, rows)
        }),
{
    lemma_with_trace_entry(b, base, log_size, rows, KECCAK_ORACLES as nat, j);
    lemma_u64_rows_of_bytes(keccak_column(j as int, rows));
}

/// After the trace of the given inputs is stored, the columns of the state
/// after each round hold, in the row of the last round of every
/// permutation, the state that 24 rounds lead to from its input.
pub proof fn lemma_trace_column(
    b: BuilderView,
    base: OracleId,
    log_size: usize,
    inputs: Seq<Seq<u64>>,
    p: int,
    xy: int,
)
    requires
        b.witness is Some,
        base + KECCAK_ORACLES <= usize::MAX,
        0 <= p < inputs.len(),
        0 <= xy < 25,
    ensures
        ({
            let filled = with_trace(b, base, log_size, trace_rows(inputs), KECCAK_ORACLES as nat);
            let column = entry_of(filled.witness->0, (base + 29 + xy) as usize);
            &&& filled.witness is Some
            &&& column is Some
            &&& u64_rows(column->0.data).len() == 32 * inputs.len()
            &&& u64_rows(column->0.data)[32 * p + 23] == state_at(inputs[p], 24)[xy]
        }),
{
    lemma_trace_words(b, base, log_size, trace_rows(inputs), (29 + xy) as nat);
    lemma_output_word(inputs, p, xy);
}

/// Where the circuit of the permutation is built on a builder that holds a
/// witness, the columns of the state after each round hold, in the row of
/// the last round of every permutation, the state that 24 rounds lead to
/// from the input of the permutation, which is the output expected of it.
pub proof fn lemma_keccak_output(
    b: BuilderView,
    log_size: usize,
    inputs: Seq<Seq<u64>>,
    outputs: Seq<Seq<u64>>,
    p: int,
    xy: int,
)
    requires
        b.witness is Some,
        b.oracles.oracles.len() + KECCAK_ORACLES <= usize::MAX,
        keccak_outcome(b, log_size, inputs, outputs) is Ok,
        0 <= p < inputs.len(),
        0 <= xy < 25,
    ensures
        ({
            let state = keccak_outcome(b, log_size, inputs, outputs)->Ok_0;
            let column = entry_of(state.witness->0, (b.next_oracle_id() + 29 + xy) as usize);
            &&& state.witness is Some
            &&& column is Some
            &&& u64_rows(column->0.data).len() == 32 * inputs.len()
            &&& u64_rows(column->0.data)[32 * p + 23] == state_at(inputs[p], 24)[xy]
            &&& u64_rows(column->0.data)[32 * p + 23] == outputs[p][xy]
        }),
{
    let base = b.next_oracle_id();
    let outcome = keccak_declared(b, log_size);
    assert(outcome is Ok);
    let declared = outcome->Ok_0;
    lemma_declared_keeps_witness(b, log_size);
    assert(declared.witness is Some);
    let filled = with_trace(declared, base, log_size, trace_rows(inputs), KECCAK_ORACLES as nat);
    lemma_trace_column(declared, base, log_size, inputs, p, xy);
    let state = with_constraints(filled, base, KECCAK_CONSTRAINTS as nat);
    lemma_with_constraints_keeps(filled, base, KECCAK_CONSTRAINTS as nat);
    assert(keccak_outcome(b, log_size, inputs, outputs)->Ok_0 == state);
    assert(keccak_witness_defect(b, log_size, inputs, outputs) is None);
    assert(trace_defect(inputs, outputs, inputs.len()) is None);
    lemma_trace_matches(inputs, outputs, inputs.len(), p);
}

/// The declarations of the circuit keep the witness.
proof fn lemma_declared_keeps_witness(b: BuilderView, log_size: usize)
    requires
        keccak_declared(b, log_size) is Ok,
    ensures
        keccak_declared(b, log_size)->Ok_0.witness == b.witness,
{
    let fixed = keccak_fixed(b, log_size);
    let committed = keccak_committed(fixed, log_size);
    assert(committed.witness == b.witness);
    lemma_derived_grows(committed, log_size, b.next_oracle_id());
}

} // verus!
