//! Addition of 32-bit integers by lookups of the sums of their bytes.
//!
//! The integers are held as columns of bytes, four bytes to an integer,
//! the lowest first. Every row adds one byte of each operand and the carry
//! of the row before it within the same integer. That the sum byte and the
//! carry out of a row are those of its operand bytes and carry in is not
//! constrained bit by bit: the five values of a row are combined into one
//! 32-bit value, and that value is looked up in the table of all the sums
//! of two bytes and a carry.

use crate::builder::{
    column_defect, first_defect, with_column, BuilderView, ConstraintSystemBuilder,
};
use crate::error::Error;
use crate::field::tower::{basis, basis_spec};
use crate::lasso::{
    lasso, lasso_outcome, lemma_lasso_keeps, padded_u32, rows_32, u32_column, LOG_BITS_32,
};
use crate::oracle::{OracleId, ShiftVariant};
use crate::util::checked_pow2;
use crate::builder::witness::layout::{checked_column_len, column_len};
use crate::builder::witness::views::{bit_bytes, pack_bits, padded_bits};
use crate::builder::witness::{entry_of, get_spec, lemma_entry_of_table_with, table_with, EntryView};
use vstd::arithmetic::power2::pow2;
use vstd::prelude::*;

verus! {

/// The number of variables of the table of sums: one for the carry in and
/// eight for each of the two bytes.
pub const ADD_T_LOG_SIZE: usize = 17;

/// The carry into row `i`: none into the lowest byte of an integer, and
/// the carry out of the row before into the others.
pub open spec fn carry_in(xs: Seq<u8>, ys: Seq<u8>, i: nat) -> nat
    decreases i,
{
    if i % 4 == 0 {
        0
    } else {
        ((xs[i - 1] + ys[i - 1] + carry_in(xs, ys, (i - 1) as nat)) / 256) as nat
    }
}

/// The sum of the bytes and the carry of row `i`.
pub open spec fn row_sum(xs: Seq<u8>, ys: Seq<u8>, i: nat) -> nat {
    xs[i as int] as nat + ys[i as int] as nat + carry_in(xs, ys, i)
}

/// The 32-bit value that combines the carries, the operand bytes and the
/// sum byte of a row, the sum byte lowest.
pub open spec fn lookup_value(x: nat, y: nat, cin: nat, sum: nat) -> u32 {
    (((((cin * 2 + sum / 256) * 256 + x) * 256 + y) * 256) + sum % 256) as u32
}

/// The row of the table that holds the sum of the bytes `x` and `y` and
/// the carry `cin`.
pub open spec fn table_index(x: nat, y: nat, cin: nat) -> usize {
    ((x * 256 + y) * 2 + cin) as usize
}

/// The value of row `t` of the table of sums.
pub open spec fn table_value(t: nat) -> u32 {
    lookup_value(t / 512 % 256, t / 2 % 256, t % 2, t / 512 % 256 + t / 2 % 256 + t % 2)
}

/// The number of rows that the witness of the gadget fills: those that
/// both operands have, up to the `2^n_vars` rows of the oracles.
pub open spec fn filled_rows(xs: Seq<u8>, ys: Seq<u8>, n_vars: usize) -> nat {
    let a = if xs.len() < ys.len() {
        xs.len()
    } else {
        ys.len()
    };
    if a < pow2(n_vars as nat) {
        a
    } else {
        pow2(n_vars as nat)
    }
}

/// The column of the sum bytes, in `n` rows.
pub open spec fn sum_rows(xs: Seq<u8>, ys: Seq<u8>, m: nat, n: nat) -> Seq<u8> {
    Seq::new(
        n,
        |i: int|
            if i < m {
                (row_sum(xs, ys, i as nat) % 256) as u8
            } else {
                0
            },
    )
}

/// The carries into the first `m` rows.
pub open spec fn carry_in_bits(xs: Seq<u8>, ys: Seq<u8>, m: nat) -> Seq<bool> {
    Seq::new(m, |i: int| carry_in(xs, ys, i as nat) == 1)
}

/// The carries out of the first `m` rows.
pub open spec fn carry_out_bits(xs: Seq<u8>, ys: Seq<u8>, m: nat) -> Seq<bool> {
    Seq::new(m, |i: int| row_sum(xs, ys, i as nat) / 256 == 1)
}

/// The column of the combined values, in `n` rows.
pub open spec fn lookup_rows(xs: Seq<u8>, ys: Seq<u8>, m: nat, n: nat) -> Seq<u32> {
    Seq::new(
        n,
        |i: int|
            if i < m {
                lookup_value(
                    xs[i] as nat,
                    ys[i] as nat,
                    carry_in(xs, ys, i as nat),
                    row_sum(xs, ys, i as nat),
                )
            } else {
                0
            },
    )
}

/// The table rows that the rows of the gadget look up, in `n` entries.
pub open spec fn lookup_mapping(xs: Seq<u8>, ys: Seq<u8>, m: nat, n: nat) -> Seq<usize> {
    Seq::new(
        n,
        |i: int|
            if i < m {
                table_index(xs[i] as nat, ys[i] as nat, carry_in(xs, ys, i as nat))
            } else {
                0
            },
    )
}

/// The table of sums, in `n` rows.
pub open spec fn table_rows(n: nat) -> Seq<u32> {
    Seq::new(n, |t: int| table_value(t as nat))
}

/// A carry is zero or one.
pub proof fn lemma_carry_in_bound(xs: Seq<u8>, ys: Seq<u8>, i: nat)
    ensures
        carry_in(xs, ys, i) <= 1,
    decreases i,
{
    if i % 4 != 0 {
        lemma_carry_in_bound(xs, ys, (i - 1) as nat);
    }
}

/// The integer whose four bytes, the lowest first, start at row `i`.
pub open spec fn word_at(bytes: Seq<u8>, i: int) -> nat {
    (bytes[i] + 256 * bytes[i + 1] + 65536 * bytes[i + 2] + 16777216 * bytes[i + 3]) as nat
}

/// The four sum bytes of an integer are the bytes of the sum of the two
/// operands modulo `2^32`, and the carry out of its highest byte tells
/// whether the sum overflows.
pub proof fn lemma_word_sum(xs: Seq<u8>, ys: Seq<u8>, k: nat)
    requires
        4 * k + 4 <= xs.len(),
        4 * k + 4 <= ys.len(),
    ensures
        word_at(sum_rows(xs, ys, 4 * k + 4, 4 * k + 4), (4 * k) as int) == (word_at(
            xs,
            (4 * k) as int,
        ) + word_at(ys, (4 * k) as int)) % 0x1_0000_0000,
        carry_out_bits(xs, ys, 4 * k + 4)[(4 * k + 3) as int] <==> word_at(xs, (4 * k) as int)
            + word_at(ys, (4 * k) as int) >= 0x1_0000_0000,
{
    let n: nat = 4 * k;
    let i: int = n as int;
    let sums = sum_rows(xs, ys, n + 4, n + 4);
    assert(n % 4 == 0 && (n + 1) % 4 == 1 && (n + 2) % 4 == 2 && (n + 3) % 4 == 3);
    let c0 = carry_in(xs, ys, n);
    let c1 = carry_in(xs, ys, n + 1);
    let c2 = carry_in(xs, ys, n + 2);
    let c3 = carry_in(xs, ys, n + 3);
    assert(c0 == 0);
    let s0: int = xs[i] + ys[i];
    assert(c1 == s0 / 256);
    let s1: int = xs[i + 1] + ys[i + 1] + c1;
    assert(c2 == s1 / 256);
    let s2: int = xs[i + 2] + ys[i + 2] + c2;
    assert(c3 == s2 / 256);
    let s3: int = xs[i + 3] + ys[i + 3] + c3;
    assert(row_sum(xs, ys, n) == s0 && row_sum(xs, ys, n + 1) == s1 && row_sum(xs, ys, n + 2) == s2
        && row_sum(xs, ys, n + 3) == s3);
    assert(sums[i] == s0 % 256);
    assert(sums[i + 1] == s1 % 256);
    assert(sums[i + 2] == s2 % 256);
    assert(sums[i + 3] == s3 % 256);
    let total = word_at(xs, i) + word_at(ys, i);
    assert(total == s0 % 256 + 256 * (s1 % 256) + 65536 * (s2 % 256) + 16777216 * (s3 % 256)
        + 0x1_0000_0000 * (s3 / 256));
}

/// The combined value of a row is the value of the table row that the
/// mapping names for it, and that row is in the table.
pub proof fn lemma_lookup_in_table(x: u8, y: u8, cin: nat)
    requires
        cin <= 1,
    ensures
        table_index(x as nat, y as nat, cin) < 0x2_0000,
        table_value(table_index(x as nat, y as nat, cin) as nat) == lookup_value(
            x as nat,
            y as nat,
            cin,
            x as nat + y as nat + cin,
        ),
{
    let t = (x as nat * 256 + y as nat) * 2 + cin;
    assert(t / 512 % 256 == x as nat && t / 2 % 256 == y as nat && t % 2 == cin);
}

/// The terms of the combined value: the carry in, the carry out, the two
/// operand bytes and the sum byte, each at its place among the 32 bits.
pub open spec fn lookup_terms(
    cin: OracleId,
    cout: OracleId,
    xin: OracleId,
    yin: OracleId,
    sum: OracleId,
) -> Seq<(OracleId, u128)> {
    seq![
        (cin, basis_spec(0, 25)->Ok_0),
        (cout, basis_spec(0, 24)->Ok_0),
        (xin, basis_spec(3, 2)->Ok_0),
        (yin, basis_spec(3, 1)->Ok_0),
        (sum, basis_spec(3, 0)->Ok_0),
    ]
}

/// The builder after the first four declarations of `u32add`: inside the
/// namespace `name`, the committed sum bytes, the committed carries out,
/// the carries in as the carries out moved up by one row within each
/// integer, and the committed table of sums.
pub open spec fn u32add_committed(b: BuilderView, name: Seq<char>, n_vars: usize) -> BuilderView {
    let b0 = b.with_namespace(name);
    let b1 = b0.with_committed("sum"@, n_vars, 3);
    let b2 = b1.with_committed("cout"@, n_vars, 0);
    let b3 = b2.with_oracle(
        b2.oracles.shifted(
            b2.named("cin"@),
            (b.next_oracle_id() + 1) as usize,
            1,
            2,
            ShiftVariant::LogicalLeft,
        ),
    );
    b3.with_committed("lookup_t"@, ADD_T_LOG_SIZE, LOG_BITS_32)
}

/// The builder after the declarations of `u32add`: the first four, the
/// combined value as a linear combination of the five values of a row, and
/// a new channel.
pub open spec fn u32add_declared(
    b: BuilderView,
    name: Seq<char>,
    n_vars: usize,
    xin: OracleId,
    yin: OracleId,
) -> BuilderView {
    let base = b.next_oracle_id();
    let b4 = u32add_committed(b, name, n_vars);
    let b5 = b4.with_oracle(
        b4.oracles.linear_combination(
            b4.named("lookup_u"@),
            n_vars,
            0,
            lookup_terms((base + 2) as usize, (base + 1) as usize, xin, yin, base),
        ),
    );
    BuilderView { next_channel_id: (b.next_channel_id + 1) as usize, ..b5 }
}

/// Why the combined value cannot be declared, if it cannot: an operand
/// does not exist or does not have `n_vars` variables.
pub open spec fn u32add_declare_defect(
    b: BuilderView,
    name: Seq<char>,
    n_vars: usize,
    xin: OracleId,
    yin: OracleId,
) -> Option<Error> {
    let base = b.next_oracle_id();
    match crate::oracle::combination_defect(
        u32add_committed(b, name, n_vars).oracles.oracles,
        n_vars,
        lookup_terms((base + 2) as usize, (base + 1) as usize, xin, yin, base),
        5,
    ) {
        Some(e) => Some(Error::Oracle(e)),
        None => None,
    }
}

/// The bytes of the column of oracle `id`, stored as a column of bytes.
pub open spec fn input_bytes(b: BuilderView, id: OracleId) -> Seq<u8> {
    get_spec(b.witness->0, id, 3)->Ok_0
}

/// Why the column of bytes of oracle `id` cannot be read, if the builder
/// holds a witness and it cannot.
pub open spec fn bytes_defect(b: BuilderView, id: OracleId) -> Option<Error> {
    match b.witness {
        None => None,
        Some(table) => match get_spec(table, id, 3) {
            Err(e) => Some(Error::Witness(e)),
            Ok(_) => None,
        },
    }
}

/// Why the witness of `u32add` cannot be computed, if the builder holds a
/// witness and it cannot.
pub open spec fn u32add_fill_defect(
    b: BuilderView,
    n_vars: usize,
    xin: OracleId,
    yin: OracleId,
) -> Option<Error> {
    first_defect(
        bytes_defect(b, xin),
        first_defect(
            bytes_defect(b, yin),
            first_defect(
                column_defect(b, n_vars, 3),
                first_defect(
                    column_defect(b, n_vars, 0),
                    first_defect(
                        column_defect(b, n_vars, LOG_BITS_32),
                        first_defect(
                            column_defect(b, ADD_T_LOG_SIZE, LOG_BITS_32),
                            if b.witness is Some && pow2(n_vars as nat) > usize::MAX {
                                Some(Error::Oracle(crate::oracle::Error::TooManyVariables))
                            } else {
                                None
                            },
                        ),
                    ),
                ),
            ),
        ),
    )
}

/// The builder with the five columns of `u32add` stored, if it holds a
/// witness. `base` is the id of the oracle of the sum bytes.
pub open spec fn u32add_filled(
    b: BuilderView,
    base: OracleId,
    n_vars: usize,
    xin: OracleId,
    yin: OracleId,
) -> BuilderView {
    let xs = input_bytes(b, xin);
    let ys = input_bytes(b, yin);
    let m = filled_rows(xs, ys, n_vars);
    with_column(
        with_column(
            with_column(
                with_column(
                    with_column(
                        b,
                        base,
                        EntryView {
                            log_rows: n_vars,
                            tower_level: 3,
                            data: sum_rows(xs, ys, m, column_len(n_vars, 3)),
                        },
                    ),
                    (base + 2) as usize,
                    EntryView {
                        log_rows: n_vars,
                        tower_level: 0,
                        data: bit_bytes(
                            padded_bits(carry_in_bits(xs, ys, m), column_len(n_vars, 0)),
                        ),
                    },
                ),
                (base + 1) as usize,
                EntryView {
                    log_rows: n_vars,
                    tower_level: 0,
                    data: bit_bytes(padded_bits(carry_out_bits(xs, ys, m), column_len(n_vars, 0))),
                },
            ),
            (base + 4) as usize,
            u32_column(n_vars, lookup_rows(xs, ys, m, rows_32(n_vars))),
        ),
        (base + 3) as usize,
        u32_column(ADD_T_LOG_SIZE, table_rows(rows_32(ADD_T_LOG_SIZE))),
    )
}

/// The mapping that `u32add` hands to the lookup argument, if the builder
/// holds a witness.
pub open spec fn u32add_mapping(
    b: BuilderView,
    n_vars: usize,
    xin: OracleId,
    yin: OracleId,
) -> Option<Seq<usize>> {
    if b.witness is Some {
        let xs = input_bytes(b, xin);
        let ys = input_bytes(b, yin);
        Some(lookup_mapping(xs, ys, filled_rows(xs, ys, n_vars), pow2(n_vars as nat)))
    } else {
        None
    }
}

/// The name of the lookup argument of the gadget named `name`.
pub open spec fn lasso_name(name: Seq<char>) -> Seq<char> {
    name + " lasso"@
}

/// What `u32add` does to a builder: the new builder and the oracle of the
/// sum bytes, or an error.
pub open spec fn u32add_outcome(
    b: BuilderView,
    name: Seq<char>,
    xin: OracleId,
    yin: OracleId,
    log_size: usize,
) -> Result<(BuilderView, OracleId), Error> {
    if log_size + 2 > usize::MAX {
        Err(Error::Oracle(crate::oracle::Error::TooManyVariables))
    } else {
        let n_vars = (log_size + 2) as usize;
        let base = b.next_oracle_id();
        match first_defect(
            u32add_declare_defect(b, name, n_vars, xin, yin),
            u32add_fill_defect(b, n_vars, xin, yin),
        ) {
            Some(e) => Err(e),
            None => {
                let declared = u32add_declared(b, name, n_vars, xin, yin);
                let filled = u32add_filled(declared, base, n_vars, xin, yin);
                match lasso_outcome(
                    filled,
                    lasso_name(name),
                    n_vars,
                    ADD_T_LOG_SIZE,
                    u32add_mapping(b, n_vars, xin, yin),
                    (base + 4) as usize,
                    (base + 3) as usize,
                    b.next_channel_id,
                ) {
                    Err(e) => Err(e),
                    Ok(state) => Ok((state.without_namespace(), base)),
                }
            },
        }
    }
}

/// The table of sums.
fn make_table(n: usize) -> (r: Vec<u32>)
    ensures
        r@ == table_rows(n as nat),
{
    let mut out: Vec<u32> = Vec::new();
    let mut t: usize = 0;
    while t < n
        invariant
            t <= n,
            out@.len() == t,
            forall|k: int| 0 <= k < t ==> out@[k] == table_value(k as nat),
        decreases n - t,
    {
        let x: usize = t / 512 % 256;
        let y: usize = t / 2 % 256;
        let cin: usize = t % 2;
        let sum: usize = x + y + cin;
        let value: usize = ((((cin * 2 + sum / 256) * 256 + x) * 256 + y) * 256) + sum % 256;
        out.push(value as u32);
        t += 1;
    }
    assert(out@ =~= table_rows(n as nat));
    out
}

/// The values of the first `m` rows of the gadget: the sum bytes, the
/// carries in, the carries out, the combined values and the table rows
/// that they look up.
fn byte_rows(xs: &[u8], ys: &[u8], m: usize) -> (r: (
    Vec<u8>,
    Vec<bool>,
    Vec<bool>,
    Vec<u32>,
    Vec<usize>,
))
    requires
        m <= xs@.len(),
        m <= ys@.len(),
    ensures
        r.0@ == Seq::new(m as nat, |i: int| (row_sum(xs@, ys@, i as nat) % 256) as u8),
        r.1@ == carry_in_bits(xs@, ys@, m as nat),
        r.2@ == carry_out_bits(xs@, ys@, m as nat),
        r.3@ == Seq::new(
            m as nat,
            |i: int|
                lookup_value(
                    xs@[i] as nat,
                    ys@[i] as nat,
                    carry_in(xs@, ys@, i as nat),
                    row_sum(xs@, ys@, i as nat),
                ),
        ),
        r.4@ == Seq::new(
            m as nat,
            |i: int| table_index(xs@[i] as nat, ys@[i] as nat, carry_in(xs@, ys@, i as nat)),
        ),
{
    let mut sums: Vec<u8> = Vec::new();
    let mut cins: Vec<bool> = Vec::new();
    let mut couts: Vec<bool> = Vec::new();
    let mut lookups: Vec<u32> = Vec::new();
    let mut mapping: Vec<usize> = Vec::new();
    let mut temp_cout: usize = 0;
    let mut i: usize = 0;
    while i < m
        invariant
            i <= m,
            m <= xs@.len(),
            m <= ys@.len(),
            temp_cout <= 1,
            i > 0 ==> temp_cout == row_sum(xs@, ys@, (i - 1) as nat) / 256,
            sums@.len() == i,
            cins@.len() == i,
            couts@.len() == i,
            lookups@.len() == i,
            mapping@.len() == i,
            forall|k: int| 0 <= k < i ==> sums@[k] == (row_sum(xs@, ys@, k as nat) % 256) as u8,
            forall|k: int| 0 <= k < i ==> cins@[k] == (carry_in(xs@, ys@, k as nat) == 1),
            forall|k: int| 0 <= k < i ==> couts@[k] == (row_sum(xs@, ys@, k as nat) / 256 == 1),
            forall|k: int|
                0 <= k < i ==> lookups@[k] == lookup_value(
                    xs@[k] as nat,
                    ys@[k] as nat,
                    carry_in(xs@, ys@, k as nat),
                    row_sum(xs@, ys@, k as nat),
                ),
            forall|k: int|
                0 <= k < i ==> mapping@[k] == table_index(
                    xs@[k] as nat,
                    ys@[k] as nat,
                    carry_in(xs@, ys@, k as nat),
                ),
        decreases m - i,
    {
        let x: usize = xs[i] as usize;
        let y: usize = ys[i] as usize;
        let cin: usize = if i % 4 == 0 {
            0
        } else {
            temp_cout
        };
        assert(cin == carry_in(xs@, ys@, i as nat));
        let xy_sum: usize = x + y + cin;
        temp_cout = xy_sum / 256;
        cins.push(cin == 1);
        couts.push(temp_cout == 1);
        mapping.push((x * 256 + y) * 2 + cin);
        sums.push((xy_sum % 256) as u8);
        let value: usize = ((((cin * 2 + temp_cout) * 256 + x) * 256 + y) * 256) + xy_sum % 256;
        lookups.push(value as u32);
        i += 1;
    }
    assert(sums@ =~= Seq::new(m as nat, |i: int| (row_sum(xs@, ys@, i as nat) % 256) as u8));
    assert(cins@ =~= carry_in_bits(xs@, ys@, m as nat));
    assert(couts@ =~= carry_out_bits(xs@, ys@, m as nat));
    assert(lookups@ =~= Seq::new(
        m as nat,
        |i: int|
            lookup_value(
                xs@[i] as nat,
                ys@[i] as nat,
                carry_in(xs@, ys@, i as nat),
                row_sum(xs@, ys@, i as nat),
            ),
    ));
    assert(mapping@ =~= Seq::new(
        m as nat,
        |i: int| table_index(xs@[i] as nat, ys@[i] as nat, carry_in(xs@, ys@, i as nat)),
    ));
    (sums, cins, couts, lookups, mapping)
}

/// The first rows of a column of bytes, followed by zeros.
fn padded_bytes(rows: &[u8], n: usize) -> (r: Vec<u8>)
    ensures
        r@.len() == n,
        forall|i: int|
            0 <= i < n ==> r@[i] == if i < rows@.len() {
                rows@[i]
            } else {
                0
            },
{
    let len: usize = rows.len();
    let mut out: Vec<u8> = Vec::new();
    let mut i: usize = 0;
    while i < n
        invariant
            i <= n,
            len == rows@.len(),
            out@.len() == i,
            forall|j: int|
                0 <= j < i ==> out@[j] == if j < rows@.len() {
                    rows@[j]
                } else {
                    0
                },
        decreases n - i,
    {
        let v: u8 = if i < len {
            rows[i]
        } else {
            0
        };
        out.push(v);
        i += 1;
    }
    out
}

/// The first entries of a mapping, followed by zeros.
fn padded_mapping(rows: &[usize], n: usize) -> (r: Vec<usize>)
    ensures
        r@.len() == n,
        forall|i: int|
            0 <= i < n ==> r@[i] == if i < rows@.len() {
                rows@[i]
            } else {
                0
            },
{
    let len: usize = rows.len();
    let mut out: Vec<usize> = Vec::new();
    let mut i: usize = 0;
    while i < n
        invariant
            i <= n,
            len == rows@.len(),
            out@.len() == i,
            forall|j: int|
                0 <= j < i ==> out@[j] == if j < rows@.len() {
                    rows@[j]
                } else {
                    0
                },
        decreases n - i,
    {
        let v: usize = if i < len {
            rows[i]
        } else {
            0
        };
        out.push(v);
        i += 1;
    }
    out
}

/// Computes and stores the five columns of `u32add`, and returns the
/// mapping of its lookups.
fn u32add_fill(
    builder: &mut ConstraintSystemBuilder,
    base: OracleId,
    n_vars: usize,
    xin: OracleId,
    yin: OracleId,
) -> (r: Result<Option<Vec<usize>>, Error>)
    requires
        old(builder)@.wf(),
        base + 4 <= usize::MAX,
    ensures
        final(builder)@.wf(),
        match u32add_fill_defect(old(builder)@, n_vars, xin, yin) {
            Some(e) => r == Err::<Option<Vec<usize>>, Error>(e),
            None => {
                &&& r is Ok
                &&& final(builder)@ == u32add_filled(old(builder)@, base, n_vars, xin, yin)
                &&& match r->Ok_0 {
                    Some(m) => Some(m@),
                    None => None,
                } == u32add_mapping(old(builder)@, n_vars, xin, yin)
            },
        },
{
    match builder.witness() {
        Some(witness) => {
            let xs = match witness.load_bytes(xin, 3) {
                Ok(v) => v,
                Err(e) => {
                    return Err(Error::Witness(e));
                },
            };
            let ys = match witness.load_bytes(yin, 3) {
                Ok(v) => v,
                Err(e) => {
                    return Err(Error::Witness(e));
                },
            };
            let len_sum: usize = match checked_column_len(n_vars, 3) {
                Some(l) => l,
                None => {
                    return Err(Error::ColumnTooLarge { log_rows: n_vars, tower_level: 3 });
                },
            };
            let len_bits: usize = match checked_column_len(n_vars, 0) {
                Some(l) => l,
                None => {
                    return Err(Error::ColumnTooLarge { log_rows: n_vars, tower_level: 0 });
                },
            };
            let len_u: usize = match checked_column_len(n_vars, LOG_BITS_32) {
                Some(l) => l,
                None => {
                    return Err(Error::ColumnTooLarge { log_rows: n_vars, tower_level: LOG_BITS_32 });
                },
            };
            let len_t: usize = match checked_column_len(ADD_T_LOG_SIZE, LOG_BITS_32) {
                Some(l) => l,
                None => {
                    return Err(
                        Error::ColumnTooLarge { log_rows: ADD_T_LOG_SIZE, tower_level: LOG_BITS_32 },
                    );
                },
            };
            let n_rows: usize = match checked_pow2(n_vars) {
                Some(n) => n,
                None => {
                    return Err(Error::Oracle(crate::oracle::Error::TooManyVariables));
                },
            };
            let shorter: usize = if xs.len() < ys.len() {
                xs.len()
            } else {
                ys.len()
            };
            let m: usize = if shorter < n_rows {
                shorter
            } else {
                n_rows
            };
            let rows = byte_rows(xs.as_slice(), ys.as_slice(), m);
            let sums = padded_bytes(rows.0.as_slice(), len_sum);
            let cins = pack_bits(rows.1.as_slice(), len_bits);
            let couts = pack_bits(rows.2.as_slice(), len_bits);
            let lookups = padded_u32(rows.3.as_slice(), len_u / 4);
            let mapping = padded_mapping(rows.4.as_slice(), n_rows);
            let table = make_table(len_t / 4);
            assert(sums@ =~= sum_rows(xs@, ys@, m as nat, len_sum as nat));
            assert(lookups@ =~= lookup_rows(xs@, ys@, m as nat, (len_u / 4) as nat));
            assert(mapping@ =~= lookup_mapping(xs@, ys@, m as nat, n_rows as nat));
            witness.store_bytes(base, n_vars, 3, sums.as_slice());
            witness.store_bytes(base + 2, n_vars, 0, cins.as_slice());
            witness.store_bytes(base + 1, n_vars, 0, couts.as_slice());
            witness.store_u32(base + 4, n_vars, LOG_BITS_32, lookups.as_slice());
            witness.store_u32(base + 3, ADD_T_LOG_SIZE, LOG_BITS_32, table.as_slice());
            Ok(Some(mapping))
        },
        None => Ok(None),
    }
}

/// Declares the first four oracles of `u32add`.
fn u32add_commit(builder: &mut ConstraintSystemBuilder, name: &str, n_vars: usize) -> (r: OracleId)
    requires
        old(builder)@.wf(),
        n_vars >= 2,
    ensures
        final(builder)@.wf(),
        r == old(builder)@.next_oracle_id(),
        final(builder)@ == u32add_committed(old(builder)@, name@, n_vars),
        final(builder)@.next_oracle_id() == r + 4,
        final(builder)@.witness == old(builder)@.witness,
        final(builder)@.next_channel_id == old(builder)@.next_channel_id,
{
    builder.push_namespace(name);
    let sum: usize = builder.add_committed("sum", n_vars, 3);
    let cout: usize = builder.add_committed("cout", n_vars, 0);
    proof {
        vstd::arithmetic::power2::lemma2_to64();
    }
    let cin = builder.add_shifted("cin", cout, 1, 2, ShiftVariant::LogicalLeft);
    assert(cin is Ok);
    builder.add_committed("lookup_t", ADD_T_LOG_SIZE, LOG_BITS_32);
    sum
}

/// Declares the combined value of `u32add` and allocates its channel.
fn u32add_combine(
    builder: &mut ConstraintSystemBuilder,
    base: OracleId,
    n_vars: usize,
    xin: OracleId,
    yin: OracleId,
) -> (r: Result<usize, Error>)
    requires
        old(builder)@.wf(),
        base + 4 == old(builder)@.next_oracle_id(),
        old(builder)@.next_channel_id < usize::MAX,
    ensures
        final(builder)@.wf(),
        match crate::oracle::combination_defect(
            old(builder)@.oracles.oracles,
            n_vars,
            lookup_terms((base + 2) as usize, (base + 1) as usize, xin, yin, base),
            5,
        ) {
            Some(e) => r == Err::<usize, Error>(Error::Oracle(e)),
            None => r == Ok::<usize, Error>(old(builder)@.next_channel_id) && final(builder)@ == (
            BuilderView {
                next_channel_id: (old(builder)@.next_channel_id + 1) as usize,
                ..old(builder)@.with_oracle(
                    old(builder)@.oracles.linear_combination(
                        old(builder)@.named("lookup_u"@),
                        n_vars,
                        0,
                        lookup_terms((base + 2) as usize, (base + 1) as usize, xin, yin, base),
                    ),
                )
            }),
        },
{
    let c_cin = basis(0, 25);
    let c_cout = basis(0, 24);
    let c_x = basis(3, 2);
    let c_y = basis(3, 1);
    let c_sum = basis(3, 0);
    assert(c_cin is Ok && c_cout is Ok && c_x is Ok && c_y is Ok && c_sum is Ok);
    let terms: Vec<(OracleId, u128)> = vec![
        (base + 2, c_cin.unwrap()),
        (base + 1, c_cout.unwrap()),
        (xin, c_x.unwrap()),
        (yin, c_y.unwrap()),
        (base, c_sum.unwrap()),
    ];
    assert(terms@ =~= lookup_terms((base + 2) as usize, (base + 1) as usize, xin, yin, base));
    match builder.add_linear_combination("lookup_u", n_vars, terms) {
        Ok(_) => {},
        Err(e) => {
            return Err(Error::Oracle(e));
        },
    }
    let channel = builder.add_channel();
    Ok(channel)
}

/// The name of the lookup argument of the gadget named `name`.
fn make_lasso_name(name: &str) -> (r: String)
    ensures
        r@ == lasso_name(name@),
{
    let mut out = String::from_str(name);
    out.append(" lasso");
    out
}

/// Declares the sum of two columns of 32-bit integers, held as columns of
/// bytes of `log_size + 2` variables, with the sums of their bytes proved
/// by lookups in the table of all such sums. Returns the oracle of the
/// bytes of the sum.
pub fn u32add(
    builder: &mut ConstraintSystemBuilder,
    name: &str,
    xin_u8: OracleId,
    yin_u8: OracleId,
    log_size: usize,
) -> (r: Result<OracleId, Error>)
    requires
        old(builder)@.wf(),
        old(builder)@.next_channel_id < usize::MAX,
    ensures
        final(builder)@.wf(),
        match u32add_outcome(old(builder)@, name@, xin_u8, yin_u8, log_size) {
            Err(e) => r == Err::<OracleId, Error>(e),
            Ok((state, sum)) => r == Ok::<OracleId, Error>(sum) && final(builder)@ == state,
        },
{
    let n_vars: usize = match log_size.checked_add(2) {
        Some(n) => n,
        None => {
            return Err(Error::Oracle(crate::oracle::Error::TooManyVariables));
        },
    };
    let sum: usize = u32add_commit(builder, name, n_vars);
    let ghost committed = builder@;
    let channel: usize = match u32add_combine(builder, sum, n_vars, xin_u8, yin_u8) {
        Ok(c) => c,
        Err(e) => {
            return Err(e);
        },
    };
    let ghost declared = builder@;
    assert(declared == u32add_declared(old(builder)@, name@, n_vars, xin_u8, yin_u8));
    proof {
        lemma_inputs_kept(old(builder)@, declared, n_vars, xin_u8, yin_u8);
    }
    let mapping = match u32add_fill(builder, sum, n_vars, xin_u8, yin_u8) {
        Ok(m) => m,
        Err(e) => {
            return Err(e);
        },
    };
    let lasso_name = make_lasso_name(name);
    match lasso(
        builder,
        lasso_name.as_str(),
        n_vars,
        ADD_T_LOG_SIZE,
        mapping,
        sum + 4,
        sum + 3,
        channel,
    ) {
        Ok(()) => {},
        Err(e) => {
            return Err(e);
        },
    }
    builder.pop_namespace();
    Ok(sum)
}

/// What the gadget reads from the witness does not depend on its
/// declarations.
proof fn lemma_inputs_kept(
    before: BuilderView,
    declared: BuilderView,
    n_vars: usize,
    xin: OracleId,
    yin: OracleId,
)
    requires
        declared.witness == before.witness,
    ensures
        u32add_fill_defect(declared, n_vars, xin, yin) == u32add_fill_defect(
            before,
            n_vars,
            xin,
            yin,
        ),
        u32add_mapping(declared, n_vars, xin, yin) == u32add_mapping(before, n_vars, xin, yin),
        u32add_filled(declared, before.next_oracle_id(), n_vars, xin, yin).witness == u32add_filled(
            before,
            before.next_oracle_id(),
            n_vars,
            xin,
            yin,
        ).witness,
{
}

/// Where `u32add` succeeds on a builder that holds a witness, the column
/// of its result holds the sum bytes of the rows that both operands have.
/// By `lemma_word_sum`, every four of them are the bytes of the sum of the
/// two integers modulo `2^32`.
pub proof fn lemma_u32add_result(
    b: BuilderView,
    name: Seq<char>,
    xin: OracleId,
    yin: OracleId,
    log_size: usize,
)
    requires
        b.witness is Some,
        b.oracles.oracles.len() + 9 <= usize::MAX,
        b.oracles.batches.len() + 4 < usize::MAX,
        u32add_outcome(b, name, xin, yin, log_size) is Ok,
    ensures
        ({
            let (state, sum) = u32add_outcome(b, name, xin, yin, log_size)->Ok_0;
            let n_vars = (log_size + 2) as usize;
            let xs = input_bytes(b, xin);
            let ys = input_bytes(b, yin);
            &&& sum == b.next_oracle_id()
            &&& state.witness is Some
            &&& entry_of(state.witness->0, sum) == Some(
                EntryView {
                    log_rows: n_vars,
                    tower_level: 3,
                    data: sum_rows(xs, ys, filled_rows(xs, ys, n_vars), column_len(n_vars, 3)),
                },
            )
        }),
{
    let n_vars = (log_size + 2) as usize;
    let base = b.next_oracle_id();
    let xs = input_bytes(b, xin);
    let ys = input_bytes(b, yin);
    let m = filled_rows(xs, ys, n_vars);
    let declared = u32add_declared(b, name, n_vars, xin, yin);
    lemma_u32add_declared_shape(b, name, n_vars, xin, yin);
    let t0 = b.witness->0;
    let e0 = EntryView {
        log_rows: n_vars,
        tower_level: 3,
        data: sum_rows(xs, ys, m, column_len(n_vars, 3)),
    };
    let e1 = EntryView {
        log_rows: n_vars,
        tower_level: 0,
        data: bit_bytes(padded_bits(carry_in_bits(xs, ys, m), column_len(n_vars, 0))),
    };
    let e2 = EntryView {
        log_rows: n_vars,
        tower_level: 0,
        data: bit_bytes(padded_bits(carry_out_bits(xs, ys, m), column_len(n_vars, 0))),
    };
    let e3 = u32_column(n_vars, lookup_rows(xs, ys, m, rows_32(n_vars)));
    let e4 = u32_column(ADD_T_LOG_SIZE, table_rows(rows_32(ADD_T_LOG_SIZE)));
    let t1 = table_with(t0, base, e0);
    let t2 = table_with(t1, (base + 2) as usize, e1);
    let t3 = table_with(t2, (base + 1) as usize, e2);
    let t4 = table_with(t3, (base + 4) as usize, e3);
    let t5 = table_with(t4, (base + 3) as usize, e4);
    lemma_entry_of_table_with(t0, base, e0, base);
    lemma_entry_of_table_with(t1, (base + 2) as usize, e1, base);
    lemma_entry_of_table_with(t2, (base + 1) as usize, e2, base);
    lemma_entry_of_table_with(t3, (base + 4) as usize, e3, base);
    lemma_entry_of_table_with(t4, (base + 3) as usize, e4, base);
    let filled = u32add_filled(declared, base, n_vars, xin, yin);
    assert(input_bytes(declared, xin) == xs);
    assert(input_bytes(declared, yin) == ys);
    assert(filled.witness == Some(t5));
    assert(filled.oracles == declared.oracles);
    lemma_lasso_keeps(
        filled,
        lasso_name(name),
        n_vars,
        ADD_T_LOG_SIZE,
        u32add_mapping(b, n_vars, xin, yin),
        (base + 4) as usize,
        (base + 3) as usize,
        b.next_channel_id,
        base,
    );
}

/// The declarations of `u32add` add five oracles and keep the witness.
proof fn lemma_u32add_declared_shape(
    b: BuilderView,
    name: Seq<char>,
    n_vars: usize,
    xin: OracleId,
    yin: OracleId,
)
    requires
        b.oracles.batches.len() + 4 < usize::MAX,
    ensures
        u32add_declared(b, name, n_vars, xin, yin).witness == b.witness,
        u32add_declared(b, name, n_vars, xin, yin).oracles.oracles.len() == b.oracles.oracles.len()
            + 5,
{
    let b0 = b.with_namespace(name);
    crate::builder::lemma_committed_shape(b0, "sum"@, n_vars, 3);
    let b1 = b0.with_committed("sum"@, n_vars, 3);
    crate::builder::lemma_committed_shape(b1, "cout"@, n_vars, 0);
    let b2 = b1.with_committed("cout"@, n_vars, 0);
    let b3 = b2.with_oracle(
        b2.oracles.shifted(
            b2.named("cin"@),
            (b.next_oracle_id() + 1) as usize,
            1,
            2,
            ShiftVariant::LogicalLeft,
        ),
    );
    crate::builder::lemma_committed_shape(b3, "lookup_t"@, ADD_T_LOG_SIZE, LOG_BITS_32);
}

} // verus!
