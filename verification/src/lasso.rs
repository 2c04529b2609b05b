//! Lookups by position: every row of a lookup column is the row of a table
//! that a mapping names.
//!
//! The argument runs over one channel, with timestamps in the 32-bit
//! field. Every table row is pushed with the timestamp one and pulled with
//! its final timestamp, the generator raised to the number of lookups of
//! the row. Every lookup row is pulled with the timestamp that its table
//! row has when it is looked up and pushed with that timestamp times the
//! generator. That the channel balances is proved when the constraint
//! system is proved, not here.

pub mod u32add;

use crate::builder::{
    column_defect, first_defect, log_rows_spec, with_column, BuilderView, ConstraintSystemBuilder,
};
use crate::channel::{ChannelId, FlushDirection, FlushView};
use crate::error::Error;
use crate::field::tower::{multiply, tower_mul};
use crate::oracle::{OracleId, Transparent, TransparentView};
use crate::builder::witness::layout::{checked_column_len, column_len};
use crate::builder::witness::views::u32_bytes;
use crate::builder::witness::{entry_of, lemma_entry_of_table_with, EntryView};
use vstd::prelude::*;

verus! {

/// The level of the 32-bit field.
pub const LOG_BITS_32: usize = 5;

/// A generator of the multiplicative group of the 32-bit field.
pub const MULTIPLICATIVE_GENERATOR_32: u32 = 0x03E21CEA;

/// The `n`-th power of the generator of the multiplicative group of the
/// 32-bit field.
pub open spec fn timestamp(n: nat) -> u32
    decreases n,
{
    if n == 0 {
        1
    } else {
        tower_mul(
            timestamp((n - 1) as nat) as u128,
            MULTIPLICATIVE_GENERATOR_32 as u128,
            LOG_BITS_32,
        ) as u32
    }
}

/// How often the table row `t` is named among the first `k` entries of the
/// mapping.
pub open spec fn lookups_of(mapping: Seq<usize>, t: usize, k: nat) -> nat
    decreases k,
{
    if k == 0 {
        0
    } else {
        lookups_of(mapping, t, (k - 1) as nat) + if mapping[k - 1] == t {
            1nat
        } else {
            0nat
        }
    }
}

/// The column of the timestamps that the lookup rows are pulled with, in
/// `n` rows: for each entry of the mapping, the generator raised to the
/// number of earlier lookups of the same table row.
pub open spec fn read_timestamps(mapping: Seq<usize>, n: nat) -> Seq<u32> {
    Seq::new(
        n,
        |i: int|
            if i < mapping.len() {
                timestamp(lookups_of(mapping, mapping[i], i as nat))
            } else {
                0
            },
    )
}

/// The column of the timestamps that the lookup rows are pushed with, in
/// `n` rows: the timestamps that they are pulled with, times the generator.
pub open spec fn write_timestamps(mapping: Seq<usize>, n: nat) -> Seq<u32> {
    Seq::new(
        n,
        |i: int|
            if i < mapping.len() {
                timestamp(lookups_of(mapping, mapping[i], i as nat) + 1)
            } else {
                0
            },
    )
}

/// The column of the final timestamps of the table rows, in `n` rows: the
/// generator raised to the number of lookups of each row.
pub open spec fn final_timestamps(mapping: Seq<usize>, n: nat) -> Seq<u32> {
    Seq::new(n, |t: int| timestamp(lookups_of(mapping, t as usize, mapping.len())))
}

/// A column of `n` rows that all hold one.
pub open spec fn initial_timestamps(n: nat) -> Seq<u32> {
    Seq::new(n, |i: int| 1u32)
}

/// The 32-bit column of `2^log_rows` rows that holds the given values.
pub open spec fn u32_column(log_rows: usize, rows: Seq<u32>) -> EntryView {
    EntryView { log_rows, tower_level: LOG_BITS_32, data: u32_bytes(rows) }
}

/// The number of 32-bit rows of a column of `2^log_rows` rows.
pub open spec fn rows_32(log_rows: usize) -> nat {
    column_len(log_rows, LOG_BITS_32) / 4
}

/// The first entry among the first `k` of the mapping that names no row of
/// a table of `rows` rows, if there is one.
pub open spec fn mapping_defect(mapping: Seq<usize>, rows: nat, k: nat) -> Option<Error>
    decreases k,
{
    if k == 0 {
        None
    } else {
        match mapping_defect(mapping, rows, (k - 1) as nat) {
            Some(e) => Some(e),
            None => if mapping[k - 1] >= rows {
                Some(Error::MappingOutOfRange { index: mapping[k - 1], rows: rows as usize })
            } else {
                None
            },
        }
    }
}

/// Once an entry names no row, the answer no longer changes.
pub proof fn lemma_mapping_defect_stays(mapping: Seq<usize>, rows: nat, k: nat, m: nat)
    requires
        k <= m,
        mapping_defect(mapping, rows, k) is Some,
    ensures
        mapping_defect(mapping, rows, m) == mapping_defect(mapping, rows, k),
    decreases m - k,
{
    if k < m {
        lemma_mapping_defect_stays(mapping, rows, k, (m - 1) as nat);
    }
}

/// The three columns of timestamps of a lookup: those that the lookup rows
/// are pulled with, those that they are pushed with, and the final ones of
/// the table rows.
fn compute_timestamps(mapping: &[usize], n_rows: usize, t_rows: usize) -> (r: Result<
    (Vec<u32>, Vec<u32>, Vec<u32>),
    Error,
>)
    ensures
        match mapping_defect(mapping@, t_rows as nat, mapping@.len()) {
            Some(e) => r == Err::<(Vec<u32>, Vec<u32>, Vec<u32>), Error>(e),
            None => {
                &&& r is Ok
                &&& r->Ok_0.0@ == read_timestamps(mapping@, n_rows as nat)
                &&& r->Ok_0.1@ == write_timestamps(mapping@, n_rows as nat)
                &&& r->Ok_0.2@ == final_timestamps(mapping@, t_rows as nat)
            },
        },
{
    let len: usize = mapping.len();
    let mut finals: Vec<u32> = Vec::new();
    let mut t: usize = 0;
    while t < t_rows
        invariant
            t <= t_rows,
            finals@.len() == t,
            forall|k: int| 0 <= k < t ==> finals@[k] == 1,
        decreases t_rows - t,
    {
        finals.push(1);
        t += 1;
    }
    let mut reads: Vec<u32> = Vec::new();
    let mut writes: Vec<u32> = Vec::new();
    let mut j: usize = 0;
    while j < len
        invariant
            j <= len,
            len == mapping@.len(),
            finals@.len() == t_rows,
            reads@.len() == j,
            writes@.len() == j,
            mapping_defect(mapping@, t_rows as nat, j as nat) is None,
            forall|k: int|
                0 <= k < t_rows ==> finals@[k] == timestamp(
                    lookups_of(mapping@, k as usize, j as nat),
                ),
            forall|k: int|
                0 <= k < j ==> reads@[k] == timestamp(lookups_of(mapping@, mapping@[k], k as nat)),
            forall|k: int|
                0 <= k < j ==> writes@[k] == timestamp(
                    lookups_of(mapping@, mapping@[k], k as nat) + 1,
                ),
        decreases len - j,
    {
        let index: usize = mapping[j];
        if index >= t_rows {
            proof {
                lemma_mapping_defect_stays(mapping@, t_rows as nat, (j + 1) as nat, len as nat);
            }
            return Err(Error::MappingOutOfRange { index, rows: t_rows });
        }
        let ts: u32 = finals[index];
        proof {
            crate::field::tower::lemma_tower_mul_fits(
                ts as u128,
                MULTIPLICATIVE_GENERATOR_32 as u128,
                LOG_BITS_32,
            );
        }
        let next: u32 = multiply(ts as u128, MULTIPLICATIVE_GENERATOR_32 as u128, LOG_BITS_32) as u32;
        reads.push(ts);
        writes.push(next);
        finals[index] = next;
        proof {
            assert forall|k: int| 0 <= k < t_rows implies finals@[k] == timestamp(
                lookups_of(mapping@, k as usize, (j + 1) as nat),
            ) by {
                if k == index {
                    let before = lookups_of(mapping@, index, j as nat);
                    assert(lookups_of(mapping@, index, (j + 1) as nat) == before + 1);
                    assert(timestamp(before + 1) == tower_mul(
                        timestamp(before) as u128,
                        MULTIPLICATIVE_GENERATOR_32 as u128,
                        LOG_BITS_32,
                    ) as u32);
                } else {
                    assert(lookups_of(mapping@, k as usize, (j + 1) as nat) == lookups_of(
                        mapping@,
                        k as usize,
                        j as nat,
                    ));
                }
            }
        }
        j += 1;
    }
    let reads = padded_u32(reads.as_slice(), n_rows);
    let writes = padded_u32(writes.as_slice(), n_rows);
    assert(reads@ =~= read_timestamps(mapping@, n_rows as nat));
    assert(writes@ =~= write_timestamps(mapping@, n_rows as nat));
    assert(finals@ =~= final_timestamps(mapping@, t_rows as nat));
    Ok((reads, writes, finals))
}

/// The first `n` of the given rows, followed by zeros where there are
/// fewer.
pub(crate) fn padded_u32(rows: &[u32], n: usize) -> (r: Vec<u32>)
    ensures
        r@.len() == n,
        forall|i: int|
            0 <= i < n ==> r@[i] == if i < rows@.len() {
                rows@[i]
            } else {
                0
            },
{
    let len: usize = rows.len();
    let mut out: Vec<u32> = Vec::new();
    let mut i: usize = 0;
    while i < n
        invariant
            i <= n,
            len == rows@.len(),
            out@.len() == i,
            forall|j: int|
                0 <= j < i ==> out@[j] == if j < rows@.len() {
                    rows@[j]
                } else {
                    0
                },
        decreases n - i,
    {
        let v: u32 = if i < len {
            rows[i]
        } else {
            0
        };
        out.push(v);
        i += 1;
    }
    out
}

/// The number of variables of the oracle `id`, when it is `expected`.
pub open spec fn shape_defect(b: BuilderView, id: OracleId, expected: usize) -> Option<Error> {
    match log_rows_spec(b.oracles.oracles, seq![id]) {
        Err(e) => Some(e),
        Ok(n) => if n != expected {
            Some(Error::Oracle(crate::oracle::Error::IncorrectNumberOfVariables { expected }))
        } else {
            None
        },
    }
}

/// The term of the oracle of the write timestamps: the read timestamps
/// times the generator.
pub open spec fn write_terms(lookup_r: OracleId) -> Seq<(OracleId, u128)> {
    seq![(lookup_r, MULTIPLICATIVE_GENERATOR_32 as u128)]
}

/// The builder after the declarations of `lasso`: inside the namespace
/// `name`, the committed read timestamps, the write timestamps as their
/// product with the generator, the committed final timestamps and the
/// transparent initial timestamps.
pub open spec fn lasso_declared(
    b: BuilderView,
    name: Seq<char>,
    n_vars: usize,
    t_log_size: usize,
) -> BuilderView {
    let b0 = b.with_namespace(name);
    let b1 = b0.with_committed("lookup_r"@, n_vars, LOG_BITS_32);
    let b2 = b1.with_oracle(
        b1.oracles.linear_combination(
            b1.named("lookup_w"@),
            n_vars,
            0,
            write_terms(b.next_oracle_id()),
        ),
    );
    let b3 = b2.with_committed("lookup_f"@, t_log_size, LOG_BITS_32);
    b3.with_oracle(
        b3.oracles.transparent(
            b3.named("lookup_o"@),
            TransparentView::Constant { n_vars: t_log_size, value: 1 },
        ),
    )
}

/// Why the witness of `lasso` cannot be computed, if the builder holds a
/// witness and it cannot.
pub open spec fn lasso_witness_defect(
    b: BuilderView,
    n_vars: usize,
    t_log_size: usize,
    mapping: Option<Seq<usize>>,
) -> Option<Error> {
    if b.witness is None {
        None
    } else {
        match mapping {
            None => Some(Error::MissingMapping),
            Some(m) => first_defect(
                column_defect(b, n_vars, LOG_BITS_32),
                first_defect(
                    column_defect(b, t_log_size, LOG_BITS_32),
                    mapping_defect(m, rows_32(t_log_size), m.len()),
                ),
            ),
        }
    }
}

/// The builder with the four columns of timestamps stored, if it holds a
/// witness. `lookup_r` is the id of the oracle of the read timestamps.
pub open spec fn lasso_filled(
    b: BuilderView,
    lookup_r: OracleId,
    n_vars: usize,
    t_log_size: usize,
    mapping: Seq<usize>,
) -> BuilderView {
    with_column(
        with_column(
            with_column(
                with_column(
                    b,
                    lookup_r,
                    u32_column(n_vars, read_timestamps(mapping, rows_32(n_vars))),
                ),
                (lookup_r + 1) as usize,
                u32_column(n_vars, write_timestamps(mapping, rows_32(n_vars))),
            ),
            (lookup_r + 2) as usize,
            u32_column(t_log_size, final_timestamps(mapping, rows_32(t_log_size))),
        ),
        (lookup_r + 3) as usize,
        u32_column(t_log_size, initial_timestamps(rows_32(t_log_size))),
    )
}

/// The flush of every row of the given two oracles.
pub open spec fn pair_flush(
    channel: ChannelId,
    direction: FlushDirection,
    first: OracleId,
    second: OracleId,
    count: usize,
) -> FlushView {
    FlushView { channel_id: channel, direction, oracles: seq![first, second], count }
}

/// The builder with the flushes of `lasso` recorded and the read
/// timestamps asserted to be non-zero: the table is pushed with its initial
/// timestamps, every lookup is pulled with its read timestamp and pushed
/// with its write timestamp, and the table is pulled with its final
/// timestamps.
pub open spec fn lasso_flushed(
    b: BuilderView,
    channel: ChannelId,
    lookup_u: OracleId,
    lookup_t: OracleId,
    lookup_r: OracleId,
    u_count: usize,
    t_count: usize,
) -> BuilderView {
    let b1 = BuilderView { non_zero_oracle_ids: b.non_zero_oracle_ids.push(lookup_r), ..b };
    b1.with_flush(
        pair_flush(channel, FlushDirection::Push, lookup_t, (lookup_r + 3) as usize, t_count),
    ).with_flush(pair_flush(channel, FlushDirection::Pull, lookup_u, lookup_r, u_count)).with_flush(
        pair_flush(channel, FlushDirection::Push, lookup_u, (lookup_r + 1) as usize, u_count),
    ).with_flush(
        pair_flush(channel, FlushDirection::Pull, lookup_t, (lookup_r + 2) as usize, t_count),
    )
}

/// Why the flushes of `lasso` cannot be recorded, if they cannot: the rows
/// of the table or of the lookups are too many to count.
pub open spec fn lasso_flush_defect(n_vars: usize, t_log_size: usize) -> Option<Error> {
    if vstd::arithmetic::power2::pow2(t_log_size as nat) > usize::MAX
        || vstd::arithmetic::power2::pow2(n_vars as nat) > usize::MAX {
        Some(Error::Oracle(crate::oracle::Error::TooManyVariables))
    } else {
        None
    }
}

/// What `lasso` does to a builder: the new builder, or an error.
pub open spec fn lasso_outcome(
    b: BuilderView,
    name: Seq<char>,
    n_vars: usize,
    t_log_size: usize,
    mapping: Option<Seq<usize>>,
    lookup_u: OracleId,
    lookup_t: OracleId,
    channel: ChannelId,
) -> Result<BuilderView, Error> {
    match first_defect(
        shape_defect(b, lookup_u, n_vars),
        first_defect(
            shape_defect(b, lookup_t, t_log_size),
            first_defect(
                lasso_witness_defect(b, n_vars, t_log_size, mapping),
                lasso_flush_defect(n_vars, t_log_size),
            ),
        ),
    ) {
        Some(e) => Err(e),
        None => {
            let declared = lasso_declared(b, name, n_vars, t_log_size);
            let filled = match mapping {
                Some(m) => lasso_filled(declared, b.next_oracle_id(), n_vars, t_log_size, m),
                None => declared,
            };
            Ok(
                lasso_flushed(
                    filled,
                    channel,
                    lookup_u,
                    lookup_t,
                    b.next_oracle_id(),
                    vstd::arithmetic::power2::pow2(n_vars as nat) as usize,
                    vstd::arithmetic::power2::pow2(t_log_size as nat) as usize,
                ).without_namespace(),
            )
        },
    }
}

/// Checks that the oracle `id` has `expected` variables.
fn check_shape(builder: &ConstraintSystemBuilder, id: OracleId, expected: usize) -> (r: Result<
    (),
    Error,
>)
    ensures
        match shape_defect(builder@, id, expected) {
            Some(e) => r == Err::<(), Error>(e),
            None => r == Ok::<(), Error>(()) && id < builder@.oracles.oracles.len()
                && builder@.oracles.oracles[id as int].n_vars == expected,
        },
{
    let ids: Vec<OracleId> = vec![id];
    assert(ids@ =~= seq![id]);
    match builder.log_rows(ids.as_slice()) {
        Err(e) => Err(e),
        Ok(n) => {
            if n != expected {
                Err(Error::Oracle(crate::oracle::Error::IncorrectNumberOfVariables { expected }))
            } else {
                Ok(())
            }
        },
    }
}

/// Declares the oracles of `lasso`.
fn lasso_declare(
    builder: &mut ConstraintSystemBuilder,
    name: &str,
    n_vars: usize,
    t_log_size: usize,
) -> (r: OracleId)
    requires
        old(builder)@.wf(),
    ensures
        final(builder)@.wf(),
        r == old(builder)@.next_oracle_id(),
        final(builder)@ == lasso_declared(old(builder)@, name@, n_vars, t_log_size),
        final(builder)@.next_oracle_id() == r + 4,
        final(builder)@.witness == old(builder)@.witness,
        final(builder)@.flushes == old(builder)@.flushes,
        forall|i: int|
            0 <= i < old(builder)@.oracles.oracles.len() ==> final(builder)@.oracles.oracles[i]
                == old(builder)@.oracles.oracles[i],
        final(builder)@.oracles.oracles[r as int].n_vars == n_vars,
        final(builder)@.oracles.oracles[r + 1].n_vars == n_vars,
        final(builder)@.oracles.oracles[r + 2].n_vars == t_log_size,
        final(builder)@.oracles.oracles[r + 3].n_vars == t_log_size,
{
    builder.push_namespace(name);
    let lookup_r: usize = builder.add_committed("lookup_r", n_vars, LOG_BITS_32);
    let terms: Vec<(OracleId, u128)> = vec![(lookup_r, MULTIPLICATIVE_GENERATOR_32 as u128)];
    assert(terms@ =~= write_terms(lookup_r));
    proof {
        reveal_with_fuel(crate::oracle::combination_defect, 2);
        assert(terms@[0] == (lookup_r, MULTIPLICATIVE_GENERATOR_32 as u128));
    }
    let lookup_w = builder.add_linear_combination("lookup_w", n_vars, terms);
    assert(lookup_w is Ok);
    builder.add_committed("lookup_f", t_log_size, LOG_BITS_32);
    let lookup_o = builder.add_transparent(
        "lookup_o",
        Transparent::Constant { n_vars: t_log_size, value: 1 },
    );
    assert(lookup_o is Ok);
    lookup_r
}

/// Computes and stores the four columns of timestamps.
fn lasso_fill(
    builder: &mut ConstraintSystemBuilder,
    lookup_r: OracleId,
    n_vars: usize,
    t_log_size: usize,
    mapping: &[usize],
) -> (r: Result<(), Error>)
    requires
        old(builder)@.wf(),
        lookup_r + 3 <= usize::MAX,
    ensures
        final(builder)@.wf(),
        match lasso_witness_defect(old(builder)@, n_vars, t_log_size, Some(mapping@)) {
            Some(e) => r == Err::<(), Error>(e),
            None => r == Ok::<(), Error>(()) && final(builder)@ == lasso_filled(
                old(builder)@,
                lookup_r,
                n_vars,
                t_log_size,
                mapping@,
            ),
        },
{
    match builder.witness() {
        Some(witness) => {
            let len_u: usize = match checked_column_len(n_vars, LOG_BITS_32) {
                Some(l) => l,
                None => {
                    return Err(Error::ColumnTooLarge { log_rows: n_vars, tower_level: LOG_BITS_32 });
                },
            };
            let len_t: usize = match checked_column_len(t_log_size, LOG_BITS_32) {
                Some(l) => l,
                None => {
                    return Err(
                        Error::ColumnTooLarge { log_rows: t_log_size, tower_level: LOG_BITS_32 },
                    );
                },
            };
            let (reads, writes, finals) = match compute_timestamps(mapping, len_u / 4, len_t / 4) {
                Ok(v) => v,
                Err(e) => {
                    return Err(e);
                },
            };
            let initial = padded_ones(len_t / 4);
            witness.store_u32(lookup_r, n_vars, LOG_BITS_32, reads.as_slice());
            witness.store_u32(lookup_r + 1, n_vars, LOG_BITS_32, writes.as_slice());
            witness.store_u32(lookup_r + 2, t_log_size, LOG_BITS_32, finals.as_slice());
            witness.store_u32(lookup_r + 3, t_log_size, LOG_BITS_32, initial.as_slice());
        },
        None => {},
    }
    Ok(())
}

fn padded_ones(n: usize) -> (r: Vec<u32>)
    ensures
        r@ == initial_timestamps(n as nat),
{
    let mut out: Vec<u32> = Vec::new();
    let mut i: usize = 0;
    while i < n
        invariant
            i <= n,
            out@.len() == i,
            forall|j: int| 0 <= j < i ==> out@[j] == 1,
        decreases n - i,
    {
        out.push(1);
        i += 1;
    }
    assert(out@ =~= initial_timestamps(n as nat));
    out
}

/// Records the flushes of `lasso`.
fn lasso_flush(
    builder: &mut ConstraintSystemBuilder,
    channel: ChannelId,
    lookup_u: OracleId,
    lookup_t: OracleId,
    lookup_r: OracleId,
    n_vars: usize,
    t_log_size: usize,
) -> (r: Result<(), Error>)
    requires
        old(builder)@.wf(),
        lookup_r + 4 == old(builder)@.next_oracle_id(),
        lookup_u < lookup_r,
        lookup_t < lookup_r,
        old(builder)@.oracles.oracles[lookup_u as int].n_vars == n_vars,
        old(builder)@.oracles.oracles[lookup_t as int].n_vars == t_log_size,
        old(builder)@.oracles.oracles[lookup_r as int].n_vars == n_vars,
        old(builder)@.oracles.oracles[lookup_r + 1].n_vars == n_vars,
        old(builder)@.oracles.oracles[lookup_r + 2].n_vars == t_log_size,
        old(builder)@.oracles.oracles[lookup_r + 3].n_vars == t_log_size,
    ensures
        final(builder)@.wf(),
        match lasso_flush_defect(n_vars, t_log_size) {
            Some(e) => r == Err::<(), Error>(e),
            None => r == Ok::<(), Error>(()) && final(builder)@ == lasso_flushed(
                old(builder)@,
                channel,
                lookup_u,
                lookup_t,
                lookup_r,
                vstd::arithmetic::power2::pow2(n_vars as nat) as usize,
                vstd::arithmetic::power2::pow2(t_log_size as nat) as usize,
            ),
        },
{
    builder.assert_not_zero(lookup_r);
    let ghost oracles = builder@.oracles.oracles;
    proof {
        reveal_with_fuel(crate::builder::tuple_defect, 3);
    }
    let ids: Vec<OracleId> = vec![lookup_t, lookup_r + 3];
    assert(ids@ =~= seq![lookup_t, (lookup_r + 3) as usize]);
    assert(ids@[0] == lookup_t && ids@[1] == lookup_r + 3);
    match builder.send(channel, ids) {
        Ok(()) => {},
        Err(e) => {
            return Err(e);
        },
    }
    let ids: Vec<OracleId> = vec![lookup_u, lookup_r];
    assert(ids@ =~= seq![lookup_u, lookup_r]);
    assert(ids@[0] == lookup_u && ids@[1] == lookup_r);
    match builder.receive(channel, ids) {
        Ok(()) => {},
        Err(e) => {
            return Err(e);
        },
    }
    let ids: Vec<OracleId> = vec![lookup_u, lookup_r + 1];
    assert(ids@ =~= seq![lookup_u, (lookup_r + 1) as usize]);
    assert(ids@[0] == lookup_u && ids@[1] == lookup_r + 1);
    match builder.send(channel, ids) {
        Ok(()) => {},
        Err(e) => {
            return Err(e);
        },
    }
    let ids: Vec<OracleId> = vec![lookup_t, lookup_r + 2];
    assert(ids@ =~= seq![lookup_t, (lookup_r + 2) as usize]);
    assert(ids@[0] == lookup_t && ids@[1] == lookup_r + 2);
    match builder.receive(channel, ids) {
        Ok(()) => {},
        Err(e) => {
            return Err(e);
        },
    }
    Ok(())
}

/// Declares the lookup argument that every row of `lookup_u`, of `n_vars`
/// variables, is the row of `lookup_t`, of `t_log_size` variables, that
/// `u_to_t_mapping` names for it, over the given channel. The mapping is
/// needed when the builder holds a witness, and only then.
pub fn lasso(
    builder: &mut ConstraintSystemBuilder,
    name: &str,
    n_vars: usize,
    t_log_size: usize,
    u_to_t_mapping: Option<Vec<usize>>,
    lookup_u: OracleId,
    lookup_t: OracleId,
    channel: ChannelId,
) -> (r: Result<(), Error>)
    requires
        old(builder)@.wf(),
    ensures
        final(builder)@.wf(),
        match lasso_outcome(
            old(builder)@,
            name@,
            n_vars,
            t_log_size,
            match u_to_t_mapping {
                Some(m) => Some(m@),
                None => None,
            },
            lookup_u,
            lookup_t,
            channel,
        ) {
            Err(e) => r == Err::<(), Error>(e),
            Ok(state) => r == Ok::<(), Error>(()) && final(builder)@ == state,
        },
{
    match check_shape(builder, lookup_u, n_vars) {
        Ok(()) => {},
        Err(e) => {
            return Err(e);
        },
    }
    match check_shape(builder, lookup_t, t_log_size) {
        Ok(()) => {},
        Err(e) => {
            return Err(e);
        },
    }
    if builder.has_witness() && u_to_t_mapping.is_none() {
        return Err(Error::MissingMapping);
    }
    let lookup_r: usize = lasso_declare(builder, name, n_vars, t_log_size);
    let ghost declared = builder@;
    match &u_to_t_mapping {
        Some(mapping) => {
            match lasso_fill(builder, lookup_r, n_vars, t_log_size, mapping.as_slice()) {
                Ok(()) => {},
                Err(e) => {
                    return Err(e);
                },
            }
        },
        None => {},
    }
    match lasso_flush(builder, channel, lookup_u, lookup_t, lookup_r, n_vars, t_log_size) {
        Ok(()) => {},
        Err(e) => {
            return Err(e);
        },
    }
    builder.pop_namespace();
    Ok(())
}

/// Where `lasso` succeeds, the columns of the oracles declared before it
/// are as they were.
pub proof fn lemma_lasso_keeps(
    b: BuilderView,
    name: Seq<char>,
    n_vars: usize,
    t_log_size: usize,
    mapping: Option<Seq<usize>>,
    lookup_u: OracleId,
    lookup_t: OracleId,
    channel: ChannelId,
    other: OracleId,
)
    requires
        b.witness is Some,
        b.oracles.oracles.len() + 4 <= usize::MAX,
        other < b.next_oracle_id(),
        lasso_outcome(b, name, n_vars, t_log_size, mapping, lookup_u, lookup_t, channel) is Ok,
    ensures
        ({
            let state = lasso_outcome(
                b,
                name,
                n_vars,
                t_log_size,
                mapping,
                lookup_u,
                lookup_t,
                channel,
            )->Ok_0;
            &&& state.witness is Some
            &&& entry_of(state.witness->0, other) == entry_of(b.witness->0, other)
        }),
{
    let r = b.next_oracle_id();
    let declared = lasso_declared(b, name, n_vars, t_log_size);
    assert(declared.witness == b.witness);
    let m = mapping->0;
    let t0 = b.witness->0;
    let e0 = u32_column(n_vars, read_timestamps(m, rows_32(n_vars)));
    let e1 = u32_column(n_vars, write_timestamps(m, rows_32(n_vars)));
    let e2 = u32_column(t_log_size, final_timestamps(m, rows_32(t_log_size)));
    let e3 = u32_column(t_log_size, initial_timestamps(rows_32(t_log_size)));
    let t1 = crate::builder::witness::table_with(t0, r, e0);
    let t2 = crate::builder::witness::table_with(t1, (r + 1) as usize, e1);
    let t3 = crate::builder::witness::table_with(t2, (r + 2) as usize, e2);
    let t4 = crate::builder::witness::table_with(t3, (r + 3) as usize, e3);
    lemma_entry_of_table_with(t0, r, e0, other);
    lemma_entry_of_table_with(t1, (r + 1) as usize, e1, other);
    lemma_entry_of_table_with(t2, (r + 2) as usize, e2, other);
    lemma_entry_of_table_with(t3, (r + 3) as usize, e3, other);
    let filled = lasso_filled(declared, r, n_vars, t_log_size, m);
    assert(filled.witness == Some(t4));
}

} // verus!
