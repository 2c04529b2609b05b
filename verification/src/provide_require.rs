//! The lookup argument: every row of a lookup column appears in a table
//! column.
//!
//! The argument runs over one channel. Each table row is pushed once with
//! the tag one and pulled once with its multiplicity, the generator of the
//! 64-bit field raised to the number of lookups of its value. Each lookup
//! row is pulled with the generator raised to the number of earlier lookups
//! of the same value, and pushed with that tag times the generator. The
//! channel balances exactly when every lookup value is in the table; that
//! it balances is proved when the constraint system is proved, not here.

use crate::builder::{
    column_defect, first_defect, with_column, BuilderView, ConstraintSystemBuilder,
};
use crate::channel::{ChannelId, FlushDirection, FlushView};
use crate::error::Error;
use crate::field::tower::{
    generator_power, tower_mul, GeneratorTable, LOG_BITS_64, MULTIPLICATIVE_GENERATOR_64,
    TOP_TOWER_LEVEL,
};
use crate::names::{decimal, numbered};
use crate::oracle::{OracleId, Transparent, TransparentView};
use crate::builder::witness::layout::{checked_column_len, column_len};
use crate::builder::witness::views::{
    lemma_u64_rows_of_bytes, u128_bytes, u64_bytes, u64_rows, value_rows,
};
use crate::builder::witness::{
    entry_of, get_spec, lemma_entry_of_table_with, table_with, EntryView,
};
use std::collections::HashMap;
use vstd::multiset::Multiset;
use vstd::prelude::*;

verus! {

/// The largest `k` with `2^k <= n`, and zero for zero.
pub open spec fn log2_floor(n: usize) -> usize
    decreases n,
{
    if n <= 1 {
        0
    } else {
        (1 + log2_floor(n / 2)) as usize
    }
}

/// The logarithm of a number is not above the number.
pub proof fn lemma_log2_floor_bound(n: usize)
    ensures
        log2_floor(n) <= n,
    decreases n,
{
    if n > 1 {
        lemma_log2_floor_bound(n / 2);
    }
}

/// The largest `k` with `2^k <= n`.
pub fn ilog2(n: usize) -> (r: usize)
    requires
        n > 0,
    ensures
        r == log2_floor(n),
{
    let mut m: usize = n;
    let mut r: usize = 0;
    proof {
        lemma_log2_floor_bound(n);
    }
    while m > 1
        invariant
            m >= 1,
            r + log2_floor(m) == log2_floor(n),
            log2_floor(n) <= n,
        decreases m,
    {
        proof {
            lemma_log2_floor_bound(m / 2);
        }
        m = m / 2;
        r = r + 1;
    }
    r
}

/// How often `v` occurs among the first `k` of the values.
pub open spec fn occurrences(values: Seq<u128>, v: u128, k: nat) -> nat
    decreases k,
{
    if k == 0 {
        0
    } else {
        occurrences(values, v, (k - 1) as nat) + if values[k - 1] == v {
            1nat
        } else {
            0nat
        }
    }
}

/// The tag that row `i` of the lookup column is pulled with: the generator
/// raised to the number of earlier lookups of the same value.
pub open spec fn prev_index_at(lookups: Seq<u128>, i: int) -> u64 {
    generator_power(occurrences(lookups, lookups[i], i as nat))
}

/// The multiplicity of row `t` of the table: the generator raised to the
/// number of lookups of its value among the first `lookup_count`.
pub open spec fn multiplicity_at(
    table: Seq<u128>,
    lookups: Seq<u128>,
    lookup_count: nat,
    t: int,
) -> u64 {
    generator_power(occurrences(lookups, table[t], lookup_count))
}

/// The column of the tags of the first `count` lookup rows, in `n` rows.
pub open spec fn prev_index_rows(lookups: Seq<u128>, count: nat, n: nat) -> Seq<u64> {
    Seq::new(
        n,
        |i: int|
            if i < count {
                prev_index_at(lookups, i)
            } else {
                0
            },
    )
}

/// The column of the multiplicities of the first `table_count` table rows,
/// in `n` rows.
pub open spec fn multiplicity_rows(
    table: Seq<u128>,
    table_count: nat,
    lookups: Seq<u128>,
    lookup_count: nat,
    n: nat,
) -> Seq<u64> {
    Seq::new(
        n,
        |t: int|
            if t < table_count {
                multiplicity_at(table, lookups, lookup_count, t)
            } else {
                0
            },
    )
}

/// The column of the tags that the lookup rows are pushed with: each tag
/// of `prevs` times the generator, in `n` rows.
pub open spec fn index_rows(prevs: Seq<u64>, n: nat) -> Seq<u128> {
    Seq::new(
        n,
        |i: int|
            if i < prevs.len() {
                tower_mul(prevs[i] as u128, MULTIPLICATIVE_GENERATOR_64 as u128, LOG_BITS_64)
            } else {
                0
            },
    )
}

/// A column of `n` rows that all hold one.
pub open spec fn ones_rows(n: nat) -> Seq<u64> {
    Seq::new(n, |i: int| 1u64)
}

/// The 64-bit column of `2^log_rows` rows that holds the given values.
pub open spec fn u64_entry(log_rows: usize, rows: Seq<u64>) -> EntryView {
    EntryView { log_rows, tower_level: LOG_BITS_64, data: u64_bytes(rows) }
}

/// The 128-bit column of `2^log_rows` rows that holds the given values.
pub open spec fn u128_entry(log_rows: usize, rows: Seq<u128>) -> EntryView {
    EntryView { log_rows, tower_level: TOP_TOWER_LEVEL, data: u128_bytes(rows) }
}

/// The error of a check, if it failed.
pub open spec fn result_defect(r: Result<(), Error>) -> Option<Error> {
    match r {
        Ok(_) => None,
        Err(e) => Some(e),
    }
}

/// The tags and multiplicities of a lookup: the first for each of the
/// first `lookup_count` lookup values, the second for each of the first
/// `table_count` table values.
fn compute_hints(lookups: &[u128], lookup_count: usize, table: &[u128], table_count: usize) -> (r: (
    Vec<u64>,
    Vec<u64>,
))
    requires
        lookup_count <= lookups@.len(),
        table_count <= table@.len(),
    ensures
        r.0@.len() == lookup_count,
        forall|i: int| 0 <= i < lookup_count ==> r.0@[i] == prev_index_at(lookups@, i),
        r.1@.len() == table_count,
        forall|t: int|
            0 <= t < table_count ==> r.1@[t] == multiplicity_at(
                table@,
                lookups@,
                lookup_count as nat,
                t,
            ),
{
    broadcast use vstd::std_specs::hash::group_hash_axioms;

    let generator = GeneratorTable::new();
    let mut mult_map: HashMap<u128, u64> = HashMap::new();
    let mut prev_index_vec: Vec<u64> = Vec::new();
    let mut i: usize = 0;
    while i < lookup_count
        invariant
            i <= lookup_count,
            generator.wf(),
            lookup_count <= lookups@.len(),
            prev_index_vec@.len() == i,
            forall|j: int| 0 <= j < i ==> prev_index_vec@[j] == prev_index_at(lookups@, j),
            forall|v: u128|
                mult_map@.contains_key(v) <==> occurrences(lookups@, v, i as nat) > 0,
            forall|v: u128|
                mult_map@.contains_key(v) ==> mult_map@[v] == generator_power(
                    occurrences(lookups@, v, i as nat),
                ),
        decreases lookup_count - i,
    {
        let f: u128 = lookups[i];
        let prev: u64 = match mult_map.get(&f) {
            Some(p) => *p,
            None => 1,
        };
        prev_index_vec.push(prev);
        let next: u64 = generator.multiply(prev);
        mult_map.insert(f, next);
        proof {
            assert forall|v: u128|
                mult_map@.contains_key(v) <==> occurrences(lookups@, v, (i + 1) as nat)
                    > 0 by {}
            assert forall|v: u128| mult_map@.contains_key(v) implies mult_map@[v]
                == generator_power(occurrences(lookups@, v, (i + 1) as nat)) by {
                if v == f {
                    let before = occurrences(lookups@, f, i as nat);
                    assert(occurrences(lookups@, f, (i + 1) as nat) == before + 1);
                    assert(prev == generator_power(before));
                    assert(generator_power(before + 1) == tower_mul(
                        generator_power(before) as u128,
                        MULTIPLICATIVE_GENERATOR_64 as u128,
                        LOG_BITS_64,
                    ) as u64);
                } else {
                    assert(occurrences(lookups@, v, (i + 1) as nat) == occurrences(
                        lookups@,
                        v,
                        i as nat,
                    ));
                }
            }
        }
        i += 1;
    }
    let mut mult_vec: Vec<u64> = Vec::new();
    let mut t: usize = 0;
    while t < table_count
        invariant
            t <= table_count,
            table_count <= table@.len(),
            mult_vec@.len() == t,
            forall|j: int|
                0 <= j < t ==> mult_vec@[j] == multiplicity_at(
                    table@,
                    lookups@,
                    lookup_count as nat,
                    j,
                ),
            forall|v: u128|
                mult_map@.contains_key(v) <==> occurrences(lookups@, v, lookup_count as nat) > 0,
            forall|v: u128|
                mult_map@.contains_key(v) ==> mult_map@[v] == generator_power(
                    occurrences(lookups@, v, lookup_count as nat),
                ),
        decreases table_count - t,
    {
        let f: u128 = table[t];
        let mult: u64 = match mult_map.get(&f) {
            Some(p) => *p,
            None => 1,
        };
        mult_vec.push(mult);
        t += 1;
    }
    (prev_index_vec, mult_vec)
}

/// The given rows followed by zeros, `n` rows in all.
fn padded(rows: &[u64], n: usize) -> (r: Vec<u64>)
    requires
        rows@.len() <= n,
    ensures
        r@.len() == n,
        forall|i: int|
            0 <= i < n ==> r@[i] == if i < rows@.len() {
                rows@[i]
            } else {
                0
            },
{
    let len: usize = rows.len();
    let mut out: Vec<u64> = Vec::new();
    let mut i: usize = 0;
    while i < n
        invariant
            i <= n,
            len == rows@.len(),
            out@.len() == i,
            forall|j: int|
                0 <= j < i ==> out@[j] == if j < rows@.len() {
                    rows@[j]
                } else {
                    0
                },
        decreases n - i,
    {
        let v: u64 = if i < len {
            rows[i]
        } else {
            0
        };
        out.push(v);
        i += 1;
    }
    out
}

/// Why the values of the column of oracle `id` cannot be read at the given
/// tower level, or why there are fewer than `count` of them, if the builder
/// holds a witness and that is so.
pub open spec fn values_defect(
    b: BuilderView,
    id: OracleId,
    tower_level: usize,
    count: usize,
) -> Option<Error> {
    match b.witness {
        None => None,
        Some(table) => match get_spec(table, id, tower_level) {
            Err(e) => Some(Error::Witness(e)),
            Ok(data) => if count > value_rows(data, tower_level).len() {
                Some(
                    Error::CountExceedsColumn {
                        count,
                        rows: value_rows(data, tower_level).len() as usize,
                    },
                )
            } else {
                None
            },
        },
    }
}

/// The number of 64-bit rows of a column of `2^log_rows` rows.
pub open spec fn rows_64(log_rows: usize) -> nat {
    column_len(log_rows, LOG_BITS_64) / 8
}

/// Why a 64-bit column of `2^log_rows` rows cannot be allocated or cannot
/// take `count` values, if the builder holds a witness and that is so.
pub open spec fn hint_column_defect(
    b: BuilderView,
    log_rows: usize,
    count: usize,
) -> Option<Error> {
    match column_defect(b, log_rows, LOG_BITS_64) {
        Some(e) => Some(e),
        None => if b.witness is Some && count > rows_64(log_rows) {
            Some(Error::CountExceedsColumn { count, rows: rows_64(log_rows) as usize })
        } else {
            None
        },
    }
}

/// Why `populate_require_hints` fails, if it does.
pub open spec fn hints_defect(
    b: BuilderView,
    table: OracleId,
    table_count: usize,
    lookup_values: OracleId,
    lookup_values_count: usize,
    tower_level: usize,
) -> Option<Error> {
    if table_count == 0 || lookup_values_count == 0 {
        Some(Error::EmptyTable)
    } else if tower_level < 3 || tower_level > TOP_TOWER_LEVEL {
        Some(Error::UnsupportedTowerLevel { tower_level })
    } else {
        first_defect(
            values_defect(b, lookup_values, tower_level, lookup_values_count),
            first_defect(
                values_defect(b, table, tower_level, table_count),
                first_defect(
                    hint_column_defect(b, log2_floor(table_count), table_count),
                    hint_column_defect(b, log2_floor(lookup_values_count), lookup_values_count),
                ),
            ),
        )
    }
}

/// The builder with the two hint oracles declared.
pub open spec fn hints_declared(
    b: BuilderView,
    table_count: usize,
    lookup_values_count: usize,
) -> BuilderView {
    b.with_committed("multiplicity"@, log2_floor(table_count), LOG_BITS_64).with_committed(
        "prev_index"@,
        log2_floor(lookup_values_count),
        LOG_BITS_64,
    )
}

/// The builder with the two hint columns stored, if it holds a witness.
/// `multiplicity` is the id of the first hint oracle.
pub open spec fn hints_filled(
    b: BuilderView,
    multiplicity: OracleId,
    table: OracleId,
    table_count: usize,
    lookup_values: OracleId,
    lookup_values_count: usize,
    tower_level: usize,
) -> BuilderView {
    match b.witness {
        Some(columns) => {
            let lookups = value_rows(get_spec(columns, lookup_values, tower_level)->Ok_0, tower_level);
            let values = value_rows(get_spec(columns, table, tower_level)->Ok_0, tower_level);
            let log_t = log2_floor(table_count);
            let log_l = log2_floor(lookup_values_count);
            b.with_witness(
                table_with(
                    table_with(
                        columns,
                        multiplicity,
                        u64_entry(
                            log_t,
                            multiplicity_rows(
                                values,
                                table_count as nat,
                                lookups,
                                lookup_values_count as nat,
                                rows_64(log_t),
                            ),
                        ),
                    ),
                    (multiplicity + 1) as usize,
                    u64_entry(
                        log_l,
                        prev_index_rows(lookups, lookup_values_count as nat, rows_64(log_l)),
                    ),
                ),
            )
        },
        None => b,
    }
}

/// The builder after `populate_require_hints`: the committed multiplicity
/// and previous-index oracles, and their columns.
pub open spec fn hints_state(
    b: BuilderView,
    table: OracleId,
    table_count: usize,
    lookup_values: OracleId,
    lookup_values_count: usize,
    tower_level: usize,
) -> BuilderView {
    hints_filled(
        hints_declared(b, table_count, lookup_values_count),
        b.next_oracle_id(),
        table,
        table_count,
        lookup_values,
        lookup_values_count,
        tower_level,
    )
}

/// The values of the column of oracle `id`, of which there must be at
/// least `count`.
fn load_counted(
    witness: &crate::builder::witness::Builder,
    id: OracleId,
    tower_level: usize,
    count: usize,
) -> (r: Result<Vec<u128>, Error>)
    requires
        3 <= tower_level <= TOP_TOWER_LEVEL,
    ensures
        match get_spec(witness@, id, tower_level) {
            Err(e) => r == Err::<Vec<u128>, Error>(Error::Witness(e)),
            Ok(data) => if count > value_rows(data, tower_level).len() {
                r == Err::<Vec<u128>, Error>(
                    Error::CountExceedsColumn {
                        count,
                        rows: value_rows(data, tower_level).len() as usize,
                    },
                )
            } else {
                r is Ok && r->Ok_0@ == value_rows(data, tower_level)
            },
        },
{
    let values = match witness.load_values(id, tower_level) {
        Ok(v) => v,
        Err(e) => {
            return Err(Error::Witness(e));
        },
    };
    if count > values.len() {
        return Err(Error::CountExceedsColumn { count, rows: values.len() });
    }
    Ok(values)
}

/// The number of rows of a 64-bit column of `2^log_rows` rows, which must
/// be at least `count`.
fn hint_rows(log_rows: usize, count: usize) -> (r: Result<usize, Error>)
    ensures
        if column_len(log_rows, LOG_BITS_64) > usize::MAX {
            r == Err::<usize, Error>(
                Error::ColumnTooLarge { log_rows, tower_level: LOG_BITS_64 },
            )
        } else if count > rows_64(log_rows) {
            r == Err::<usize, Error>(
                Error::CountExceedsColumn { count, rows: rows_64(log_rows) as usize },
            )
        } else {
            r == Ok::<usize, Error>(rows_64(log_rows) as usize) && rows_64(log_rows) * 8
                == column_len(log_rows, LOG_BITS_64)
        },
{
    let len: usize = match checked_column_len(log_rows, LOG_BITS_64) {
        Some(l) => l,
        None => {
            return Err(Error::ColumnTooLarge { log_rows, tower_level: LOG_BITS_64 });
        },
    };
    proof {
        crate::builder::witness::layout::lemma_column_len_whole(log_rows, LOG_BITS_64);
    }
    let rows: usize = len / 8;
    if count > rows {
        return Err(Error::CountExceedsColumn { count, rows });
    }
    Ok(rows)
}

/// Computes and stores the two hint columns.
#[verifier::rlimit(30)]
fn fill_hints(
    builder: &mut ConstraintSystemBuilder,
    multiplicity: OracleId,
    table: OracleId,
    table_count: usize,
    lookup_values: OracleId,
    lookup_values_count: usize,
    tower_level: usize,
) -> (r: Result<(), Error>)
    requires
        old(builder)@.wf(),
        multiplicity < usize::MAX,
        3 <= tower_level <= TOP_TOWER_LEVEL,
    ensures
        final(builder)@.wf(),
        match first_defect(
            values_defect(old(builder)@, lookup_values, tower_level, lookup_values_count),
            first_defect(
                values_defect(old(builder)@, table, tower_level, table_count),
                first_defect(
                    hint_column_defect(old(builder)@, log2_floor(table_count), table_count),
                    hint_column_defect(
                        old(builder)@,
                        log2_floor(lookup_values_count),
                        lookup_values_count,
                    ),
                ),
            ),
        ) {
            Some(e) => r == Err::<(), Error>(e),
            None => r == Ok::<(), Error>(()) && final(builder)@ == hints_filled(
                old(builder)@,
                multiplicity,
                table,
                table_count,
                lookup_values,
                lookup_values_count,
                tower_level,
            ),
        },
{
    let log_t: usize = if table_count == 0 {
        0
    } else {
        ilog2(table_count)
    };
    let log_l: usize = if lookup_values_count == 0 {
        0
    } else {
        ilog2(lookup_values_count)
    };
    match builder.witness() {
        Some(witness) => {
            let lookups = match load_counted(witness, lookup_values, tower_level, lookup_values_count) {
                Ok(v) => v,
                Err(e) => {
                    return Err(e);
                },
            };
            let values = match load_counted(witness, table, tower_level, table_count) {
                Ok(v) => v,
                Err(e) => {
                    return Err(e);
                },
            };
            let rows_t: usize = match hint_rows(log_t, table_count) {
                Ok(n) => n,
                Err(e) => {
                    return Err(e);
                },
            };
            let rows_l: usize = match hint_rows(log_l, lookup_values_count) {
                Ok(n) => n,
                Err(e) => {
                    return Err(e);
                },
            };
            let hints = compute_hints(
                lookups.as_slice(),
                lookup_values_count,
                values.as_slice(),
                table_count,
            );
            let mult_rows = padded(hints.1.as_slice(), rows_t);
            let prev_rows = padded(hints.0.as_slice(), rows_l);
            assert(mult_rows@ =~= multiplicity_rows(
                values@,
                table_count as nat,
                lookups@,
                lookup_values_count as nat,
                rows_64(log_t),
            ));
            assert(prev_rows@ =~= prev_index_rows(
                lookups@,
                lookup_values_count as nat,
                rows_64(log_l),
            ));
            witness.store_u64(multiplicity, log_t, LOG_BITS_64, mult_rows.as_slice());
            witness.store_u64(multiplicity + 1, log_l, LOG_BITS_64, prev_rows.as_slice());
        },
        None => {},
    }
    Ok(())
}

/// Declares the multiplicity of every table row and the previous index of
/// every lookup row, and computes their columns from the columns of the
/// table and of the lookup values, which hold elements of the given tower
/// level.
pub fn populate_require_hints(
    builder: &mut ConstraintSystemBuilder,
    table: OracleId,
    table_count: usize,
    lookup_values: OracleId,
    lookup_values_count: usize,
    tower_level: usize,
) -> (r: Result<(OracleId, OracleId), Error>)
    requires
        old(builder)@.wf(),
    ensures
        final(builder)@.wf(),
        match hints_defect(
            old(builder)@,
            table,
            table_count,
            lookup_values,
            lookup_values_count,
            tower_level,
        ) {
            Some(e) => r == Err::<(OracleId, OracleId), Error>(e),
            None => r == Ok::<(OracleId, OracleId), Error>(
                (old(builder)@.next_oracle_id(), (old(builder)@.next_oracle_id() + 1) as usize),
            ) && final(builder)@ == hints_state(
                old(builder)@,
                table,
                table_count,
                lookup_values,
                lookup_values_count,
                tower_level,
            ),
        },
{
    if table_count == 0 || lookup_values_count == 0 {
        return Err(Error::EmptyTable);
    }
    if tower_level < 3 || tower_level > TOP_TOWER_LEVEL {
        return Err(Error::UnsupportedTowerLevel { tower_level });
    }
    let multiplicity: usize = builder.add_committed(
        "multiplicity",
        ilog2(table_count),
        LOG_BITS_64,
    );
    let prev_index: usize = builder.add_committed(
        "prev_index",
        ilog2(lookup_values_count),
        LOG_BITS_64,
    );
    match fill_hints(
        builder,
        multiplicity,
        table,
        table_count,
        lookup_values,
        lookup_values_count,
        tower_level,
    ) {
        Ok(()) => {},
        Err(e) => {
            return Err(e);
        },
    }
    Ok((multiplicity, prev_index))
}

/// A column of `n` rows that all hold one.
fn ones(n: usize) -> (r: Vec<u64>)
    ensures
        r@ == ones_rows(n as nat),
{
    let mut out: Vec<u64> = Vec::new();
    let mut i: usize = 0;
    while i < n
        invariant
            i <= n,
            out@.len() == i,
            forall|j: int| 0 <= j < i ==> out@[j] == 1,
        decreases n - i,
    {
        out.push(1);
        i += 1;
    }
    assert(out@ =~= ones_rows(n as nat));
    out
}

/// The name of the oracle of ones of a channel.
pub open spec fn ones_name(channel: ChannelId) -> Seq<char> {
    "ones-"@ + decimal(channel as nat)
}

/// The name of the oracle of the pushed tags of a channel.
pub open spec fn index_name(channel: ChannelId) -> Seq<char> {
    "index-"@ + decimal(channel as nat)
}

/// The builder with the oracle of ones of `provide` declared and its
/// column stored.
pub open spec fn provide_declared(
    b: BuilderView,
    channel: ChannelId,
    table_count: usize,
) -> BuilderView {
    let log_n = log2_floor(table_count);
    with_column(
        b.with_oracle(
            b.oracles.transparent(
                b.named(ones_name(channel)),
                TransparentView::Constant { n_vars: log_n, value: 1 },
            ),
        ),
        b.next_oracle_id(),
        u64_entry(log_n, ones_rows(rows_64(log_n))),
    )
}

/// Why `provide` fails, if it does.
pub open spec fn provide_defect(
    b: BuilderView,
    channel: ChannelId,
    multiplicity: OracleId,
    table: OracleId,
    table_count: usize,
) -> Option<Error> {
    if table_count == 0 {
        Some(Error::EmptyTable)
    } else {
        let b1 = provide_declared(b, channel, table_count);
        first_defect(
            column_defect(b, log2_floor(table_count), LOG_BITS_64),
            first_defect(
                result_defect(b1.flush_check(table_count, seq![table, b.next_oracle_id()])),
                result_defect(b1.flush_check(table_count, seq![table, multiplicity])),
            ),
        )
    }
}

/// The builder after `provide`: the oracle of ones, its column, the push
/// of every table row with the tag one and the pull of every table row
/// with its multiplicity.
pub open spec fn provide_state(
    b: BuilderView,
    channel: ChannelId,
    multiplicity: OracleId,
    table: OracleId,
    table_count: usize,
) -> BuilderView {
    provide_declared(b, channel, table_count).with_flush(
        FlushView {
            channel_id: channel,
            direction: FlushDirection::Push,
            oracles: seq![table, b.next_oracle_id()],
            count: table_count,
        },
    ).with_flush(
        FlushView {
            channel_id: channel,
            direction: FlushDirection::Pull,
            oracles: seq![table, multiplicity],
            count: table_count,
        },
    )
}

/// Declares the oracle of ones of `provide` and stores its column.
fn provide_declare(
    builder: &mut ConstraintSystemBuilder,
    channel: ChannelId,
    table_count: usize,
) -> (r: Result<OracleId, Error>)
    requires
        old(builder)@.wf(),
        table_count > 0,
    ensures
        final(builder)@.wf(),
        match column_defect(old(builder)@, log2_floor(table_count), LOG_BITS_64) {
            Some(e) => r == Err::<OracleId, Error>(e),
            None => r == Ok::<OracleId, Error>(old(builder)@.next_oracle_id()) && final(builder)@
                == provide_declared(old(builder)@, channel, table_count),
        },
{
    let log_n: usize = ilog2(table_count);
    let name = numbered("ones-", channel);
    let ones_id: usize = match builder.add_transparent(
        name.as_str(),
        Transparent::Constant { n_vars: log_n, value: 1 },
    ) {
        Ok(id) => id,
        Err(e) => {
            return Err(Error::Oracle(e));
        },
    };
    match builder.witness() {
        Some(witness) => {
            let len: usize = match checked_column_len(log_n, LOG_BITS_64) {
                Some(l) => l,
                None => {
                    return Err(Error::ColumnTooLarge { log_rows: log_n, tower_level: LOG_BITS_64 });
                },
            };
            let rows = ones(len / 8);
            witness.store_u64(ones_id, log_n, LOG_BITS_64, rows.as_slice());
        },
        None => {},
    }
    Ok(ones_id)
}

/// Provides the table to the channel: every one of the first `table_count`
/// rows of `table` is pushed with the tag one and pulled with its
/// multiplicity.
pub fn provide(
    builder: &mut ConstraintSystemBuilder,
    channel: ChannelId,
    multiplicity: OracleId,
    table: OracleId,
    table_count: usize,
) -> (r: Result<(), Error>)
    requires
        old(builder)@.wf(),
    ensures
        final(builder)@.wf(),
        match provide_defect(old(builder)@, channel, multiplicity, table, table_count) {
            Some(e) => r == Err::<(), Error>(e),
            None => r == Ok::<(), Error>(()) && final(builder)@ == provide_state(
                old(builder)@,
                channel,
                multiplicity,
                table,
                table_count,
            ),
        },
{
    if table_count == 0 {
        return Err(Error::EmptyTable);
    }
    let ones_id: usize = match provide_declare(builder, channel, table_count) {
        Ok(id) => id,
        Err(e) => {
            return Err(e);
        },
    };
    let send_args: Vec<OracleId> = vec![table, ones_id];
    assert(send_args@ =~= seq![table, ones_id]);
    let receive_args: Vec<OracleId> = vec![table, multiplicity];
    assert(receive_args@ =~= seq![table, multiplicity]);
    match builder.flush(FlushDirection::Push, channel, table_count, send_args) {
        Ok(()) => {},
        Err(e) => {
            return Err(e);
        },
    }
    match builder.flush(FlushDirection::Pull, channel, table_count, receive_args) {
        Ok(()) => {},
        Err(e) => {
            return Err(e);
        },
    }
    Ok(())
}

/// The tags that the lookup rows are pushed with.
fn pushed_tags(prevs: &[u64], n: usize) -> (r: Vec<u128>)
    ensures
        r@ == index_rows(prevs@, n as nat),
{
    let generator = GeneratorTable::new();
    let len: usize = prevs.len();
    let mut out: Vec<u128> = Vec::new();
    let mut i: usize = 0;
    while i < n
        invariant
            i <= n,
            generator.wf(),
            len == prevs@.len(),
            out@.len() == i,
            forall|j: int| 0 <= j < i ==> out@[j] == index_rows(prevs@, n as nat)[j],
        decreases n - i,
    {
        let v: u128 = if i < len {
            generator.multiply(prevs[i]) as u128
        } else {
            0
        };
        out.push(v);
        i += 1;
    }
    assert(out@ =~= index_rows(prevs@, n as nat));
    out
}

/// The number of 128-bit rows of a column of `2^log_rows` rows.
pub open spec fn rows_128(log_rows: usize) -> nat {
    column_len(log_rows, TOP_TOWER_LEVEL) / 16
}

/// Why the oracle of the pushed tags cannot be declared or its column
/// cannot be stored, if that is so.
pub open spec fn require_declare_defect(
    b: BuilderView,
    prev_index: OracleId,
    count: usize,
) -> Option<Error> {
    let log_n = log2_floor(count);
    match crate::oracle::combination_defect(
        b.oracles.oracles,
        log_n,
        seq![(prev_index, MULTIPLICATIVE_GENERATOR_64 as u128)],
        1,
    ) {
        Some(e) => Some(Error::Oracle(e)),
        None => match b.witness {
            None => None,
            Some(columns) => match get_spec(columns, prev_index, LOG_BITS_64) {
                Err(e) => Some(Error::Witness(e)),
                Ok(_) => column_defect(b, log_n, TOP_TOWER_LEVEL),
            },
        },
    }
}

/// The builder with the oracle of the pushed tags of `require` declared
/// and its column stored.
pub open spec fn require_declared(
    b: BuilderView,
    channel: ChannelId,
    prev_index: OracleId,
    count: usize,
) -> BuilderView {
    let log_n = log2_floor(count);
    let b1 = b.with_oracle(
        b.oracles.linear_combination(
            b.named(index_name(channel)),
            log_n,
            0,
            seq![(prev_index, MULTIPLICATIVE_GENERATOR_64 as u128)],
        ),
    );
    match b.witness {
        Some(columns) => b1.with_witness(
            table_with(
                columns,
                b.next_oracle_id(),
                u128_entry(
                    log_n,
                    index_rows(
                        u64_rows(get_spec(columns, prev_index, LOG_BITS_64)->Ok_0),
                        rows_128(log_n),
                    ),
                ),
            ),
        ),
        None => b1,
    }
}

/// Why `require` fails, if it does.
pub open spec fn require_defect(
    b: BuilderView,
    channel: ChannelId,
    prev_index: OracleId,
    lookup_values: OracleId,
    lookup_values_count: usize,
) -> Option<Error> {
    if lookup_values_count == 0 {
        Some(Error::EmptyTable)
    } else {
        let b1 = require_declared(b, channel, prev_index, lookup_values_count);
        first_defect(
            require_declare_defect(b, prev_index, lookup_values_count),
            first_defect(
                result_defect(
                    b1.flush_check(lookup_values_count, seq![lookup_values, prev_index]),
                ),
                result_defect(
                    b1.flush_check(lookup_values_count, seq![lookup_values, b.next_oracle_id()]),
                ),
            ),
        )
    }
}

/// The builder after `require`: the oracle of the pushed tags, its column,
/// the pull of every lookup row with its previous index and the push of
/// every lookup row with its previous index times the generator.
pub open spec fn require_state(
    b: BuilderView,
    channel: ChannelId,
    prev_index: OracleId,
    lookup_values: OracleId,
    lookup_values_count: usize,
) -> BuilderView {
    require_declared(b, channel, prev_index, lookup_values_count).with_flush(
        FlushView {
            channel_id: channel,
            direction: FlushDirection::Pull,
            oracles: seq![lookup_values, prev_index],
            count: lookup_values_count,
        },
    ).with_flush(
        FlushView {
            channel_id: channel,
            direction: FlushDirection::Push,
            oracles: seq![lookup_values, b.next_oracle_id()],
            count: lookup_values_count,
        },
    )
}

/// Declares the oracle of the pushed tags of `require` and stores its
/// column.
fn require_declare(
    builder: &mut ConstraintSystemBuilder,
    channel: ChannelId,
    prev_index: OracleId,
    count: usize,
) -> (r: Result<OracleId, Error>)
    requires
        old(builder)@.wf(),
        count > 0,
    ensures
        final(builder)@.wf(),
        match require_declare_defect(old(builder)@, prev_index, count) {
            Some(e) => r == Err::<OracleId, Error>(e),
            None => r == Ok::<OracleId, Error>(old(builder)@.next_oracle_id()) && final(builder)@
                == require_declared(old(builder)@, channel, prev_index, count),
        },
{
    let log_n: usize = ilog2(count);
    let name = numbered("index-", channel);
    let inner: Vec<(OracleId, u128)> = vec![(prev_index, MULTIPLICATIVE_GENERATOR_64 as u128)];
    assert(inner@ =~= seq![(prev_index, MULTIPLICATIVE_GENERATOR_64 as u128)]);
    let index: usize = match builder.add_linear_combination(name.as_str(), log_n, inner) {
        Ok(id) => id,
        Err(e) => {
            return Err(Error::Oracle(e));
        },
    };
    match builder.witness() {
        Some(witness) => {
            let prevs = match witness.load_u64(prev_index, LOG_BITS_64) {
                Ok(v) => v,
                Err(e) => {
                    return Err(Error::Witness(e));
                },
            };
            let len: usize = match checked_column_len(log_n, TOP_TOWER_LEVEL) {
                Some(l) => l,
                None => {
                    return Err(
                        Error::ColumnTooLarge { log_rows: log_n, tower_level: TOP_TOWER_LEVEL },
                    );
                },
            };
            let rows = pushed_tags(prevs.as_slice(), len / 16);
            witness.store_u128(index, log_n, TOP_TOWER_LEVEL, rows.as_slice());
        },
        None => {},
    }
    Ok(index)
}

/// Requires the lookup values from the channel: every one of the first
/// `lookup_values_count` rows of `lookup_values` is pulled with its
/// previous index and pushed with its previous index times the generator,
/// so that repeated lookups of one value give distinct rows.
pub fn require(
    builder: &mut ConstraintSystemBuilder,
    channel: ChannelId,
    prev_index: OracleId,
    lookup_values: OracleId,
    lookup_values_count: usize,
) -> (r: Result<(), Error>)
    requires
        old(builder)@.wf(),
    ensures
        final(builder)@.wf(),
        match require_defect(old(builder)@, channel, prev_index, lookup_values, lookup_values_count) {
            Some(e) => r == Err::<(), Error>(e),
            None => r == Ok::<(), Error>(()) && final(builder)@ == require_state(
                old(builder)@,
                channel,
                prev_index,
                lookup_values,
                lookup_values_count,
            ),
        },
{
    if lookup_values_count == 0 {
        return Err(Error::EmptyTable);
    }
    let index: usize = match require_declare(builder, channel, prev_index, lookup_values_count) {
        Ok(id) => id,
        Err(e) => {
            return Err(e);
        },
    };
    let receive_args: Vec<OracleId> = vec![lookup_values, prev_index];
    assert(receive_args@ =~= seq![lookup_values, prev_index]);
    let send_args: Vec<OracleId> = vec![lookup_values, index];
    assert(send_args@ =~= seq![lookup_values, index]);
    match builder.flush(FlushDirection::Pull, channel, lookup_values_count, receive_args) {
        Ok(()) => {},
        Err(e) => {
            return Err(e);
        },
    }
    match builder.flush(FlushDirection::Push, channel, lookup_values_count, send_args) {
        Ok(()) => {},
        Err(e) => {
            return Err(e);
        },
    }
    Ok(())
}

/// The builder with one more channel allocated.
pub open spec fn with_channel(b: BuilderView) -> BuilderView {
    BuilderView { next_channel_id: (b.next_channel_id + 1) as usize, ..b }
}

/// Why `provide_require_lookup` fails, if it does.
pub open spec fn lookup_defect(
    b: BuilderView,
    table: OracleId,
    table_count: usize,
    lookup_values: OracleId,
    lookup_values_count: usize,
    tower_level: usize,
) -> Option<Error> {
    let multiplicity = b.next_oracle_id();
    let prev_index = (multiplicity + 1) as usize;
    let channel = b.next_channel_id;
    let b1 = with_channel(
        hints_state(b, table, table_count, lookup_values, lookup_values_count, tower_level),
    );
    let b2 = provide_state(b1, channel, multiplicity, table, table_count);
    first_defect(
        hints_defect(b, table, table_count, lookup_values, lookup_values_count, tower_level),
        first_defect(
            provide_defect(b1, channel, multiplicity, table, table_count),
            require_defect(b2, channel, prev_index, lookup_values, lookup_values_count),
        ),
    )
}

/// The builder after `provide_require_lookup`: the hints, a new channel,
/// the table provided to it and the lookup values required from it.
pub open spec fn lookup_state(
    b: BuilderView,
    table: OracleId,
    table_count: usize,
    lookup_values: OracleId,
    lookup_values_count: usize,
    tower_level: usize,
) -> BuilderView {
    let multiplicity = b.next_oracle_id();
    let prev_index = (multiplicity + 1) as usize;
    let channel = b.next_channel_id;
    let b1 = with_channel(
        hints_state(b, table, table_count, lookup_values, lookup_values_count, tower_level),
    );
    let b2 = provide_state(b1, channel, multiplicity, table, table_count);
    require_state(b2, channel, prev_index, lookup_values, lookup_values_count)
}

/// Declares the lookup argument that every one of the first
/// `lookup_values_count` rows of `lookup_values` is among the first
/// `table_count` rows of `table`, both columns of elements of the given
/// tower level, and computes its witness. Construction succeeds whether or
/// not the lookup values are in the table.
pub fn provide_require_lookup(
    builder: &mut ConstraintSystemBuilder,
    table: OracleId,
    table_count: usize,
    lookup_values: OracleId,
    lookup_values_count: usize,
    tower_level: usize,
) -> (r: Result<(), Error>)
    requires
        old(builder)@.wf(),
        old(builder)@.next_channel_id < usize::MAX,
    ensures
        final(builder)@.wf(),
        match lookup_defect(
            old(builder)@,
            table,
            table_count,
            lookup_values,
            lookup_values_count,
            tower_level,
        ) {
            Some(e) => r == Err::<(), Error>(e),
            None => r == Ok::<(), Error>(()) && final(builder)@ == lookup_state(
                old(builder)@,
                table,
                table_count,
                lookup_values,
                lookup_values_count,
                tower_level,
            ),
        },
{
    let (multiplicity, prev_index) = match populate_require_hints(
        builder,
        table,
        table_count,
        lookup_values,
        lookup_values_count,
        tower_level,
    ) {
        Ok(ids) => ids,
        Err(e) => {
            return Err(e);
        },
    };
    assert(builder@.next_channel_id == old(builder)@.next_channel_id);
    let channel = builder.add_channel();
    match provide(builder, channel, multiplicity, table, table_count) {
        Ok(()) => {},
        Err(e) => {
            return Err(e);
        },
    }
    match require(builder, channel, prev_index, lookup_values, lookup_values_count) {
        Ok(()) => {},
        Err(e) => {
            return Err(e);
        },
    }
    Ok(())
}

/// The tag that row `i` of the lookup column is pushed with: the tag that
/// it is pulled with, times the generator.
pub open spec fn pushed_tag_at(lookups: Seq<u128>, i: int) -> u64 {
    tower_mul(
        prev_index_at(lookups, i) as u128,
        MULTIPLICATIVE_GENERATOR_64 as u128,
        LOG_BITS_64,
    ) as u64
}

/// The rows that `provide` pushes for the first `n` table rows: each with
/// the tag one.
pub open spec fn table_pushes(table: Seq<u128>, n: nat) -> Multiset<(u128, u64)>
    decreases n,
{
    if n == 0 {
        Multiset::empty()
    } else {
        table_pushes(table, (n - 1) as nat).insert((table[n - 1], 1u64))
    }
}

/// The rows that `provide` pulls for the first `n` table rows: each with
/// its multiplicity for the first `k` lookups.
pub open spec fn table_pulls(table: Seq<u128>, lookups: Seq<u128>, k: nat, n: nat) -> Multiset<
    (u128, u64),
>
    decreases n,
{
    if n == 0 {
        Multiset::empty()
    } else {
        table_pulls(table, lookups, k, (n - 1) as nat).insert(
            (table[n - 1], multiplicity_at(table, lookups, k, n - 1)),
        )
    }
}

/// The rows that `require` pulls for the first `k` lookups: each with its
/// previous index.
pub open spec fn lookup_pulls(lookups: Seq<u128>, k: nat) -> Multiset<(u128, u64)>
    decreases k,
{
    if k == 0 {
        Multiset::empty()
    } else {
        lookup_pulls(lookups, (k - 1) as nat).insert(
            (lookups[k - 1], prev_index_at(lookups, k - 1)),
        )
    }
}

/// The rows that `require` pushes for the first `k` lookups: each with its
/// previous index times the generator.
pub open spec fn lookup_pushes(lookups: Seq<u128>, k: nat) -> Multiset<(u128, u64)>
    decreases k,
{
    if k == 0 {
        Multiset::empty()
    } else {
        lookup_pushes(lookups, (k - 1) as nat).insert((lookups[k - 1], pushed_tag_at(lookups, k - 1)))
    }
}

/// Whether `v` is among the first `n` table rows.
pub open spec fn in_table(table: Seq<u128>, n: nat, v: u128) -> bool {
    exists|t: int| 0 <= t < n && table[t] == v
}

/// Whether the first `n` table rows are pairwise distinct.
pub open spec fn distinct_rows(table: Seq<u128>, n: nat) -> bool {
    forall|s: int, t: int| 0 <= s < t < n ==> table[s] != table[t]
}

/// A lookup of a value that is not in the table leaves the pulls of the
/// table as they are.
proof fn lemma_table_pulls_other(table: Seq<u128>, lookups: Seq<u128>, k: nat, n: nat)
    requires
        !in_table(table, n, lookups[k as int]),
    ensures
        table_pulls(table, lookups, k + 1, n) == table_pulls(table, lookups, k, n),
    decreases n,
{
    if n > 0 {
        assert(!in_table(table, (n - 1) as nat, lookups[k as int])) by {
            if in_table(table, (n - 1) as nat, lookups[k as int]) {
                let t = choose|t: int| 0 <= t < n - 1 && table[t] == lookups[k as int];
                assert(0 <= t < n && table[t] == lookups[k as int]);
            }
        }
        lemma_table_pulls_other(table, lookups, k, (n - 1) as nat);
        assert(table[n - 1] != lookups[k as int]) by {
            if table[n - 1] == lookups[k as int] {
                assert(0 <= n - 1 < n && table[n - 1] == lookups[k as int]);
            }
        }
        assert(occurrences(lookups, table[n - 1], k + 1) == occurrences(lookups, table[n - 1], k));
    }
}

/// A lookup of a value that is in the table once replaces, among the pulls
/// of the table, the row of that value by the row with its tag times the
/// generator.
proof fn lemma_table_pulls_step(table: Seq<u128>, lookups: Seq<u128>, k: nat, n: nat)
    requires
        distinct_rows(table, n),
        in_table(table, n, lookups[k as int]),
    ensures
        table_pulls(table, lookups, k, n).count((lookups[k as int], prev_index_at(lookups, k as int)))
            > 0,
        table_pulls(table, lookups, k + 1, n) == table_pulls(table, lookups, k, n).remove(
            (lookups[k as int], prev_index_at(lookups, k as int)),
        ).insert((lookups[k as int], pushed_tag_at(lookups, k as int))),
    decreases n,
{
    let v = lookups[k as int];
    let a = (v, prev_index_at(lookups, k as int));
    let b = (v, pushed_tag_at(lookups, k as int));
    let before = occurrences(lookups, v, k);
    assert(occurrences(lookups, v, k + 1) == before + 1);
    assert(generator_power(before + 1) == pushed_tag_at(lookups, k as int));
    if n > 0 {
        let rest = (n - 1) as nat;
        assert(distinct_rows(table, rest));
        if table[n - 1] == v {
            assert(!in_table(table, rest, v)) by {
                if in_table(table, rest, v) {
                    let t = choose|t: int| 0 <= t < rest && table[t] == v;
                    assert(table[t] != table[n - 1]);
                }
            }
            lemma_table_pulls_other(table, lookups, k, rest);
            let base = table_pulls(table, lookups, k, rest);
            assert(table_pulls(table, lookups, k, n) == base.insert(a));
            assert(table_pulls(table, lookups, k + 1, n) == base.insert(b));
            assert(base.insert(a).remove(a).insert(b) =~= base.insert(b));
        } else {
            let w = table[n - 1];
            assert(in_table(table, rest, v)) by {
                let t = choose|t: int| 0 <= t < n && table[t] == v;
                assert(0 <= t < rest && table[t] == v);
            }
            lemma_table_pulls_step(table, lookups, k, rest);
            assert(occurrences(lookups, w, k + 1) == occurrences(lookups, w, k));
            let base = table_pulls(table, lookups, k, rest);
            let c = (w, multiplicity_at(table, lookups, k, n - 1));
            assert(table_pulls(table, lookups, k, n) == base.insert(c));
            assert(table_pulls(table, lookups, k + 1, n) == base.remove(a).insert(b).insert(c));
            assert(base.insert(c).remove(a).insert(b) =~= base.remove(a).insert(b).insert(c));
        }
    } else {
        let t = choose|t: int| 0 <= t < n && table[t] == v;
        assert(false);
    }
}

/// Before any lookup, the table is pulled as it is pushed.
proof fn lemma_table_pulls_start(table: Seq<u128>, lookups: Seq<u128>, n: nat)
    ensures
        table_pulls(table, lookups, 0, n) == table_pushes(table, n),
    decreases n,
{
    if n > 0 {
        lemma_table_pulls_start(table, lookups, (n - 1) as nat);
    }
}

/// The channel of a lookup balances when every lookup value is in the
/// table: if the first `n` table rows are pairwise distinct and each of the
/// first `k` lookup values is among them, then the rows that `provide` and
/// `require` push are, with their multiplicities, the rows that they pull.
pub proof fn lemma_lookup_balances(table: Seq<u128>, n: nat, lookups: Seq<u128>, k: nat)
    requires
        distinct_rows(table, n),
        forall|i: int| 0 <= i < k ==> in_table(table, n, #[trigger] lookups[i]),
    ensures
        table_pushes(table, n).add(lookup_pushes(lookups, k)) == table_pulls(
            table,
            lookups,
            k,
            n,
        ).add(lookup_pulls(lookups, k)),
    decreases k,
{
    if k == 0 {
        lemma_table_pulls_start(table, lookups, n);
        assert(table_pushes(table, n).add(lookup_pushes(lookups, 0)) =~= table_pulls(
            table,
            lookups,
            0,
            n,
        ).add(lookup_pulls(lookups, 0)));
    } else {
        let j = (k - 1) as nat;
        lemma_lookup_balances(table, n, lookups, j);
        assert(in_table(table, n, lookups[j as int]));
        lemma_table_pulls_step(table, lookups, j, n);
        let a = (lookups[j as int], prev_index_at(lookups, j as int));
        let b = (lookups[j as int], pushed_tag_at(lookups, j as int));
        let pushes = table_pushes(table, n);
        let pulls = table_pulls(table, lookups, j, n);
        let lp = lookup_pushes(lookups, j);
        let lq = lookup_pulls(lookups, j);
        assert(pushes.add(lp) == pulls.add(lq));
        assert(pushes.add(lp.insert(b)) =~= pushes.add(lp).insert(b));
        assert(pulls.remove(a).insert(b).add(lq.insert(a)) =~= pulls.add(lq).insert(b));
    }
}

/// Whether none of the powers `1 ..= k` of the generator is one: the order
/// of the generator exceeds `k`.
pub open spec fn generator_order_exceeds(k: nat) -> bool {
    forall|j: nat| 1 <= j <= k ==> #[trigger] generator_power(j) != 1
}

/// The table rows are never pushed with a value that is not in the table.
proof fn lemma_table_pushes_count(table: Seq<u128>, n: nat, v: u128, tag: u64)
    requires
        !in_table(table, n, v),
    ensures
        table_pushes(table, n).count((v, tag)) == 0,
    decreases n,
{
    if n > 0 {
        assert(!in_table(table, (n - 1) as nat, v)) by {
            if in_table(table, (n - 1) as nat, v) {
                let t = choose|t: int| 0 <= t < n - 1 && table[t] == v;
                assert(0 <= t < n && table[t] == v);
            }
        }
        lemma_table_pushes_count(table, (n - 1) as nat, v, tag);
        assert(table[n - 1] != v) by {
            if table[n - 1] == v {
                assert(0 <= n - 1 < n && table[n - 1] == v);
            }
        }
    }
}

/// The number of lookups of a value among the first `k` is at most `k`.
proof fn lemma_occurrences_bound(values: Seq<u128>, v: u128, k: nat)
    ensures
        occurrences(values, v, k) <= k,
    decreases k,
{
    if k > 0 {
        lemma_occurrences_bound(values, v, (k - 1) as nat);
    }
}

/// No lookup row is pushed with the tag one, when the order of the
/// generator exceeds the number of lookups.
proof fn lemma_lookup_pushes_count(lookups: Seq<u128>, k: nat, m: nat, v: u128)
    requires
        k <= m,
        generator_order_exceeds(m),
    ensures
        lookup_pushes(lookups, k).count((v, 1u64)) == 0,
    decreases k,
{
    if k > 0 {
        lemma_lookup_pushes_count(lookups, (k - 1) as nat, m, v);
        let before = occurrences(lookups, lookups[k - 1], (k - 1) as nat);
        lemma_occurrences_bound(lookups, lookups[k - 1], (k - 1) as nat);
        assert(pushed_tag_at(lookups, k - 1) == generator_power(before + 1));
        assert(generator_power(before + 1) != 1);
    }
}

/// The first lookup of a value is pulled with the tag one.
proof fn lemma_lookup_pulls_count(lookups: Seq<u128>, k: nat, i: int)
    requires
        0 <= i < k,
    ensures
        lookup_pulls(lookups, k).count(
            (lookups[i], generator_power(occurrences(lookups, lookups[i], i as nat))),
        ) >= 1,
    decreases k,
{
    if i < k - 1 {
        lemma_lookup_pulls_count(lookups, (k - 1) as nat, i);
    }
}

/// Every value has a first lookup, before which it was not looked up.
proof fn lemma_first_lookup(lookups: Seq<u128>, i: nat) -> (first: nat)
    ensures
        first <= i,
        lookups[first as int] == lookups[i as int],
        occurrences(lookups, lookups[i as int], first) == 0,
    decreases i,
{
    if occurrences(lookups, lookups[i as int], i) == 0 {
        i
    } else {
        let j = lemma_earlier_lookup(lookups, lookups[i as int], i);
        lemma_first_lookup(lookups, j)
    }
}

/// A value that was looked up among the first `k` lookups was looked up by
/// one of them.
proof fn lemma_earlier_lookup(lookups: Seq<u128>, v: u128, k: nat) -> (j: nat)
    requires
        occurrences(lookups, v, k) > 0,
    ensures
        j < k,
        lookups[j as int] == v,
    decreases k,
{
    if lookups[k - 1] == v {
        (k - 1) as nat
    } else {
        lemma_earlier_lookup(lookups, v, (k - 1) as nat)
    }
}

/// The channel of a lookup cannot balance when a lookup value is not in
/// the table: if the order of the generator exceeds the number `k` of
/// lookups and one of them is of a value that is not among the first `n`
/// table rows, then a row is pulled more often than it is pushed.
pub proof fn lemma_lookup_outside_table_unbalanced(
    table: Seq<u128>,
    n: nat,
    lookups: Seq<u128>,
    k: nat,
    i: nat,
)
    requires
        i < k,
        !in_table(table, n, lookups[i as int]),
        generator_order_exceeds(k),
    ensures
        table_pushes(table, n).add(lookup_pushes(lookups, k)) != table_pulls(
            table,
            lookups,
            k,
            n,
        ).add(lookup_pulls(lookups, k)),
{
    let v = lookups[i as int];
    let first = lemma_first_lookup(lookups, i);
    lemma_lookup_pulls_count(lookups, k, first as int);
    lemma_table_pushes_count(table, n, v, 1);
    lemma_lookup_pushes_count(lookups, k, k, v);
    let row = (v, 1u64);
    let pushed = table_pushes(table, n).add(lookup_pushes(lookups, k));
    let pulled = table_pulls(table, lookups, k, n).add(lookup_pulls(lookups, k));
    assert(generator_power(0) == 1);
    assert(pushed.count(row) == 0);
    assert(pulled.count(row) >= 1);
}

/// Where `provide_require_lookup` succeeds on a builder that holds a
/// witness, the four columns that it stores hold the tags that the laws of
/// the channel speak of: the multiplicity of every table row, the previous
/// index of every lookup row, the tag one for every table row, and the
/// previous index times the generator for every lookup row.
pub proof fn lemma_lookup_columns(
    b: BuilderView,
    table: OracleId,
    table_count: usize,
    lookup_values: OracleId,
    lookup_values_count: usize,
    tower_level: usize,
)
    requires
        b.witness is Some,
        b.oracles.oracles.len() + 4 <= usize::MAX,
        b.oracles.batches.len() + 2 < usize::MAX,
        lookup_defect(b, table, table_count, lookup_values, lookup_values_count, tower_level)
            is None,
    ensures
        ({
            let state = lookup_state(
                b,
                table,
                table_count,
                lookup_values,
                lookup_values_count,
                tower_level,
            );
            let columns = b.witness->0;
            let lookups = value_rows(get_spec(columns, lookup_values, tower_level)->Ok_0, tower_level);
            let values = value_rows(get_spec(columns, table, tower_level)->Ok_0, tower_level);
            let log_t = log2_floor(table_count);
            let log_l = log2_floor(lookup_values_count);
            let prevs = prev_index_rows(lookups, lookup_values_count as nat, rows_64(log_l));
            let base = b.next_oracle_id();
            &&& state.witness is Some
            &&& entry_of(state.witness->0, base) == Some(
                u64_entry(
                    log_t,
                    multiplicity_rows(
                        values,
                        table_count as nat,
                        lookups,
                        lookup_values_count as nat,
                        rows_64(log_t),
                    ),
                ),
            )
            &&& entry_of(state.witness->0, (base + 1) as usize) == Some(u64_entry(log_l, prevs))
            &&& entry_of(state.witness->0, (base + 2) as usize) == Some(
                u64_entry(log_t, ones_rows(rows_64(log_t))),
            )
            &&& entry_of(state.witness->0, (base + 3) as usize) == Some(
                u128_entry(log_l, index_rows(prevs, rows_128(log_l))),
            )
        }),
{
    let base = b.next_oracle_id();
    let columns = b.witness->0;
    let lookups = value_rows(get_spec(columns, lookup_values, tower_level)->Ok_0, tower_level);
    let values = value_rows(get_spec(columns, table, tower_level)->Ok_0, tower_level);
    let log_t = log2_floor(table_count);
    let log_l = log2_floor(lookup_values_count);
    let mults = multiplicity_rows(
        values,
        table_count as nat,
        lookups,
        lookup_values_count as nat,
        rows_64(log_t),
    );
    let prevs = prev_index_rows(lookups, lookup_values_count as nat, rows_64(log_l));
    let b0 = b.with_committed("multiplicity"@, log_t, LOG_BITS_64);
    crate::builder::lemma_committed_shape(b, "multiplicity"@, log_t, LOG_BITS_64);
    crate::builder::lemma_committed_shape(b0, "prev_index"@, log_l, LOG_BITS_64);
    let declared = hints_declared(b, table_count, lookup_values_count);
    assert(declared.witness == b.witness);
    assert(declared.oracles.oracles.len() == b.oracles.oracles.len() + 2);
    let e0 = u64_entry(log_t, mults);
    let e1 = u64_entry(log_l, prevs);
    let t1 = table_with(columns, base, e0);
    let t2 = table_with(t1, (base + 1) as usize, e1);
    let hinted = hints_state(b, table, table_count, lookup_values, lookup_values_count, tower_level);
    assert(hinted.witness == Some(t2));
    assert(hinted.oracles == declared.oracles);
    let b1 = with_channel(hinted);
    let e2 = u64_entry(log_t, ones_rows(rows_64(log_t)));
    let t3 = table_with(t2, (base + 2) as usize, e2);
    let provided = provide_state(b1, b.next_channel_id, base, table, table_count);
    assert(provided.witness == Some(t3));
    assert(provided.oracles.oracles.len() == b.oracles.oracles.len() + 3);
    lemma_entry_of_table_with(columns, base, e0, base);
    lemma_entry_of_table_with(columns, base, e0, (base + 1) as usize);
    lemma_entry_of_table_with(t1, (base + 1) as usize, e1, base);
    lemma_entry_of_table_with(t1, (base + 1) as usize, e1, (base + 1) as usize);
    lemma_entry_of_table_with(t2, (base + 2) as usize, e2, base);
    lemma_entry_of_table_with(t2, (base + 2) as usize, e2, (base + 1) as usize);
    lemma_entry_of_table_with(t2, (base + 2) as usize, e2, (base + 2) as usize);
    lemma_u64_rows_of_bytes(prevs);
    assert(u64_rows(get_spec(t3, (base + 1) as usize, LOG_BITS_64)->Ok_0) == prevs);
    let e3 = u128_entry(log_l, index_rows(prevs, rows_128(log_l)));
    let t4 = table_with(t3, (base + 3) as usize, e3);
    let required = require_state(
        provided,
        b.next_channel_id,
        (base + 1) as usize,
        lookup_values,
        lookup_values_count,
    );
    assert(required.witness == Some(t4));
    lemma_entry_of_table_with(t3, (base + 3) as usize, e3, base);
    lemma_entry_of_table_with(t3, (base + 3) as usize, e3, (base + 1) as usize);
    lemma_entry_of_table_with(t3, (base + 3) as usize, e3, (base + 2) as usize);
    lemma_entry_of_table_with(t3, (base + 3) as usize, e3, (base + 3) as usize);
}

} // verus!
