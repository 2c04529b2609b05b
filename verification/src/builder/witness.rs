//! The witness arena: column data for the oracles, held by the prover.
//!
//! The arena owns one table of columns, indexed by oracle id. A column is
//! filled through an [`EntryBuilder`], which owns its buffer until it is
//! finalized into the table.

pub mod layout;
pub mod views;

use crate::oracle::OracleId;
use crate::builder::witness::layout::{checked_column_len, column_len};
use crate::builder::witness::views::{
    bit_rows, read_u128_rows, read_u32_rows, read_u64_rows, read_value_rows, set_bit, u128_bytes,
    u128_rows, u128_rows_to_bytes, u32_bytes, u32_rows, u32_rows_to_bytes, u64_bytes, u64_rows,
    u64_rows_to_bytes, value_rows,
};
use vstd::prelude::*;
use vstd::slice::slice_to_vec;

verus! {

/// Errors raised when a witness is asked for or stored.
#[derive(Clone, Copy, Debug, PartialEq, Eq, Structural)]
pub enum Error {
    /// No column is stored for the oracle.
    MissingWitness { id: OracleId },
    /// The column is stored over another field than the one asked for.
    OracleExtensionDegreeMismatch {
        oracle_id: OracleId,
        field_tower_level: usize,
        entry_tower_level: usize,
    },
    /// The data does not have the length of a column of that shape.
    IncorrectDataLength { log_rows: usize, tower_level: usize },
}

/// A finalized column.
#[derive(Debug)]
pub struct WitnessEntry {
    pub log_rows: usize,
    pub tower_level: usize,
    pub data: Vec<u8>,
}

/// The mathematical content of a [`WitnessEntry`].
pub struct EntryView {
    pub log_rows: usize,
    pub tower_level: usize,
    pub data: Seq<u8>,
}

impl EntryView {
    /// A column holds as many bytes as its shape calls for.
    pub open spec fn wf(self) -> bool {
        self.data.len() == column_len(self.log_rows, self.tower_level)
    }
}

impl View for WitnessEntry {
    type V = EntryView;

    open spec fn view(&self) -> EntryView {
        EntryView { log_rows: self.log_rows, tower_level: self.tower_level, data: self.data@ }
    }
}

/// The views of a table of columns.
pub open spec fn entry_views(s: Seq<Option<WitnessEntry>>) -> Seq<Option<EntryView>> {
    s.map_values(
        |e: Option<WitnessEntry>|
            match e {
                Some(w) => Some(w@),
                None => None,
            },
    )
}

/// The column stored for oracle `id`, if any.
pub open spec fn entry_of(table: Seq<Option<EntryView>>, id: OracleId) -> Option<EntryView> {
    if id < table.len() {
        table[id as int]
    } else {
        None
    }
}

/// Every stored column holds as many bytes as its shape calls for.
pub open spec fn table_wf(table: Seq<Option<EntryView>>) -> bool {
    forall|i: int| 0 <= i < table.len() ==> (#[trigger] table[i]) is Some ==> table[i]->0.wf()
}

/// The table after oracle `id` got the column `entry`: the table is
/// lengthened with empty slots as far as needed.
pub open spec fn table_with(table: Seq<Option<EntryView>>, id: OracleId, entry: EntryView) -> Seq<
    Option<EntryView>,
> {
    Seq::new(
        if id < table.len() {
            table.len()
        } else {
            (id + 1) as nat
        },
        |i: int|
            if i == id {
                Some(entry)
            } else if i < table.len() {
                table[i]
            } else {
                None
            },
    )
}

/// After oracle `id` got a column, the table holds that column for `id`
/// and what it held before for every other oracle.
pub proof fn lemma_entry_of_table_with(
    table: Seq<Option<EntryView>>,
    id: OracleId,
    entry: EntryView,
    other: OracleId,
)
    ensures
        entry_of(table_with(table, id, entry), other) == if other == id {
            Some(entry)
        } else {
            entry_of(table, other)
        },
{
}

/// What `get` answers for a table.
pub open spec fn get_spec(
    table: Seq<Option<EntryView>>,
    id: OracleId,
    tower_level: usize,
) -> Result<Seq<u8>, Error> {
    match entry_of(table, id) {
        None => Err(Error::MissingWitness { id }),
        Some(entry) => if entry.tower_level != tower_level {
            Err(
                Error::OracleExtensionDegreeMismatch {
                    oracle_id: id,
                    field_tower_level: tower_level,
                    entry_tower_level: entry.tower_level,
                },
            )
        } else {
            Ok(entry.data)
        },
    }
}

/// The immutable index from oracle id to column that the prover consumes.
pub struct MultilinearExtensionIndex {
    entries: Vec<Option<WitnessEntry>>,
}

impl View for MultilinearExtensionIndex {
    type V = Seq<Option<EntryView>>;

    closed spec fn view(&self) -> Seq<Option<EntryView>> {
        entry_views(self.entries@)
    }
}

impl MultilinearExtensionIndex {
    /// The column of oracle `id`, if the index holds one.
    pub fn get(&self, id: OracleId) -> (r: Option<&WitnessEntry>)
        ensures
            match r {
                Some(e) => entry_of(self@, id) == Some(e@),
                None => entry_of(self@, id) is None,
            },
    {
        if id < self.entries.len() {
            self.entries[id].as_ref()
        } else {
            None
        }
    }
}

/// The prover's table of columns under construction.
pub struct Builder {
    entries: Vec<Option<WitnessEntry>>,
}

impl View for Builder {
    type V = Seq<Option<EntryView>>;

    closed spec fn view(&self) -> Seq<Option<EntryView>> {
        entry_views(self.entries@)
    }
}

impl Builder {
    /// An empty table.
    pub fn new() -> (r: Self)
        ensures
            r@.len() == 0,
            table_wf(r@),
    {
        Builder { entries: Vec::new() }
    }

    /// Allocates a zeroed buffer for a column of `2^log_rows` elements of the
    /// given tower level, to be filled and then finalized for oracle `id`.
    pub fn new_column(&self, id: OracleId, log_rows: usize, tower_level: usize) -> (r: EntryBuilder)
        requires
            column_len(log_rows, tower_level) <= usize::MAX,
        ensures
            r.id() == id,
            r.log_rows() == log_rows,
            r.tower_level() == tower_level,
            r.bytes().len() == column_len(log_rows, tower_level),
            forall|k: int| 0 <= k < r.bytes().len() ==> r.bytes()[k] == 0,
    {
        let len: usize = checked_column_len(log_rows, tower_level).unwrap();
        EntryBuilder { id, log_rows, tower_level, data: vec![0u8; len] }
    }

    /// The bytes of the column of oracle `id`, stored at the given tower level.
    pub fn get(&self, id: OracleId, tower_level: usize) -> (r: Result<&[u8], Error>)
        ensures
            match r {
                Ok(data) => get_spec(self@, id, tower_level) == Ok::<Seq<u8>, Error>(data@),
                Err(e) => get_spec(self@, id, tower_level) == Err::<Seq<u8>, Error>(e),
            },
    {
        if id >= self.entries.len() {
            return Err(Error::MissingWitness { id });
        }
        match &self.entries[id] {
            None => Err(Error::MissingWitness { id }),
            Some(entry) => {
                if entry.tower_level != tower_level {
                    Err(
                        Error::OracleExtensionDegreeMismatch {
                            oracle_id: id,
                            field_tower_level: tower_level,
                            entry_tower_level: entry.tower_level,
                        },
                    )
                } else {
                    Ok(entry.data.as_slice())
                }
            },
        }
    }

    /// Stores `entry` as the column of oracle `id`.
    fn register(&mut self, id: OracleId, entry: WitnessEntry)
        requires
            table_wf(old(self)@),
            entry@.wf(),
        ensures
            final(self)@ == table_with(old(self)@, id, entry@),
            table_wf(final(self)@),
    {
        while self.entries.len() <= id
            invariant
                self.entries@.len() >= old(self).entries@.len(),
                self.entries@.len() <= old(self).entries@.len() || self.entries@.len() <= id + 1,
                forall|i: int|
                    0 <= i < old(self).entries@.len() ==> self.entries@[i] == old(self).entries@[i],
                forall|i: int|
                    old(self).entries@.len() <= i < self.entries@.len() ==> self.entries@[i] is None,
            decreases id + 1 - self.entries@.len(),
        {
            self.entries.push(None);
        }
        self.entries[id] = Some(entry);
        assert(self@ =~= table_with(old(self)@, id, entry@));
    }

    /// Stores `data` as the column of oracle `id`, of `2^log_rows` elements
    /// of the given tower level.
    pub fn set_data(
        &mut self,
        id: OracleId,
        log_rows: usize,
        tower_level: usize,
        data: Vec<u8>,
    ) -> (r: Result<(), Error>)
        requires
            table_wf(old(self)@),
        ensures
            table_wf(final(self)@),
            if data@.len() == column_len(log_rows, tower_level) {
                r == Ok::<(), Error>(()) && final(self)@ == table_with(
                    old(self)@,
                    id,
                    EntryView { log_rows, tower_level, data: data@ },
                )
            } else {
                r == Err::<(), Error>(Error::IncorrectDataLength { log_rows, tower_level })
                    && final(self)@ == old(self)@
            },
    {
        let expected = checked_column_len(log_rows, tower_level);
        let data_len: usize = data.len();
        if expected.is_none() || data_len != expected.unwrap() {
            return Err(Error::IncorrectDataLength { log_rows, tower_level });
        }
        self.register(id, WitnessEntry { log_rows, tower_level, data });
        Ok(())
    }

    /// The column of oracle `id`, stored at the given tower level, read as
    /// `u32` values.
    pub fn load_u32(&self, id: OracleId, tower_level: usize) -> (r: Result<Vec<u32>, Error>)
        ensures
            match get_spec(self@, id, tower_level) {
                Ok(data) => r is Ok && r->Ok_0@ == u32_rows(data),
                Err(e) => r == Err::<Vec<u32>, Error>(e),
            },
    {
        match self.get(id, tower_level) {
            Ok(data) => Ok(read_u32_rows(data)),
            Err(e) => Err(e),
        }
    }

    /// Stores the given `u32` rows as the column of oracle `id`.
    pub fn store_u32(&mut self, id: OracleId, log_rows: usize, tower_level: usize, rows: &[u32])
        requires
            table_wf(old(self)@),
            column_len(log_rows, tower_level) <= usize::MAX,
            rows@.len() * 4 == column_len(log_rows, tower_level),
        ensures
            final(self)@ == table_with(
                old(self)@,
                id,
                EntryView { log_rows, tower_level, data: u32_bytes(rows@) },
            ),
            table_wf(final(self)@),
    {
        let mut column = self.new_column(id, log_rows, tower_level);
        column.fill_u32(rows);
        column.finalize(self);
    }

    /// The column of oracle `id`, stored at the given tower level, read as
    /// `u64` values.
    pub fn load_u64(&self, id: OracleId, tower_level: usize) -> (r: Result<Vec<u64>, Error>)
        ensures
            match get_spec(self@, id, tower_level) {
                Ok(data) => r is Ok && r->Ok_0@ == u64_rows(data),
                Err(e) => r == Err::<Vec<u64>, Error>(e),
            },
    {
        match self.get(id, tower_level) {
            Ok(data) => Ok(read_u64_rows(data)),
            Err(e) => Err(e),
        }
    }

    /// Stores the given `u64` rows as the column of oracle `id`.
    pub fn store_u64(&mut self, id: OracleId, log_rows: usize, tower_level: usize, rows: &[u64])
        requires
            table_wf(old(self)@),
            column_len(log_rows, tower_level) <= usize::MAX,
            rows@.len() * 8 == column_len(log_rows, tower_level),
        ensures
            final(self)@ == table_with(
                old(self)@,
                id,
                EntryView { log_rows, tower_level, data: u64_bytes(rows@) },
            ),
            table_wf(final(self)@),
    {
        let mut column = self.new_column(id, log_rows, tower_level);
        column.fill_u64(rows);
        column.finalize(self);
    }

    /// The column of oracle `id`, stored at the given tower level, read as
    /// `u128` values.
    pub fn load_u128(&self, id: OracleId, tower_level: usize) -> (r: Result<Vec<u128>, Error>)
        ensures
            match get_spec(self@, id, tower_level) {
                Ok(data) => r is Ok && r->Ok_0@ == u128_rows(data),
                Err(e) => r == Err::<Vec<u128>, Error>(e),
            },
    {
        match self.get(id, tower_level) {
            Ok(data) => Ok(read_u128_rows(data)),
            Err(e) => Err(e),
        }
    }

    /// Stores the given `u128` rows as the column of oracle `id`.
    pub fn store_u128(&mut self, id: OracleId, log_rows: usize, tower_level: usize, rows: &[u128])
        requires
            table_wf(old(self)@),
            column_len(log_rows, tower_level) <= usize::MAX,
            rows@.len() * 16 == column_len(log_rows, tower_level),
        ensures
            final(self)@ == table_with(
                old(self)@,
                id,
                EntryView { log_rows, tower_level, data: u128_bytes(rows@) },
            ),
            table_wf(final(self)@),
    {
        let mut column = self.new_column(id, log_rows, tower_level);
        column.fill_u128(rows);
        column.finalize(self);
    }

    /// The column of oracle `id`, stored at the given tower level, as bytes.
    pub fn load_bytes(&self, id: OracleId, tower_level: usize) -> (r: Result<Vec<u8>, Error>)
        ensures
            match get_spec(self@, id, tower_level) {
                Ok(data) => r is Ok && r->Ok_0@ == data,
                Err(e) => r == Err::<Vec<u8>, Error>(e),
            },
    {
        match self.get(id, tower_level) {
            Ok(data) => Ok(slice_to_vec(data)),
            Err(e) => Err(e),
        }
    }

    /// Stores the given bytes as the column of oracle `id`.
    pub fn store_bytes(&mut self, id: OracleId, log_rows: usize, tower_level: usize, rows: &[u8])
        requires
            table_wf(old(self)@),
            rows@.len() == column_len(log_rows, tower_level),
        ensures
            final(self)@ == table_with(
                old(self)@,
                id,
                EntryView { log_rows, tower_level, data: rows@ },
            ),
            table_wf(final(self)@),
    {
        let n: usize = rows.len();
        let mut column = self.new_column(id, log_rows, tower_level);
        column.fill_bytes(rows);
        column.finalize(self);
    }

    /// The column of oracle `id`, stored at the given tower level of at
    /// least a byte, read as field elements.
    pub fn load_values(&self, id: OracleId, tower_level: usize) -> (r: Result<Vec<u128>, Error>)
        requires
            3 <= tower_level <= 7,
        ensures
            match get_spec(self@, id, tower_level) {
                Ok(data) => r is Ok && r->Ok_0@ == value_rows(data, tower_level),
                Err(e) => r == Err::<Vec<u128>, Error>(e),
            },
    {
        match self.get(id, tower_level) {
            Ok(data) => Ok(read_value_rows(data, tower_level)),
            Err(e) => Err(e),
        }
    }

    /// Freezes the table into the index that the prover consumes.
    pub fn build(self) -> (r: Result<MultilinearExtensionIndex, Error>)
        ensures
            r is Ok,
            r->Ok_0@ == self@,
    {
        Ok(MultilinearExtensionIndex { entries: self.entries })
    }
}

/// A column being written. It owns its buffer until [`EntryBuilder::finalize`]
/// hands the buffer over to the table.
pub struct EntryBuilder {
    id: OracleId,
    log_rows: usize,
    tower_level: usize,
    data: Vec<u8>,
}

impl EntryBuilder {
    /// The oracle that the column is for.
    pub closed spec fn id(&self) -> OracleId {
        self.id
    }

    /// The number of rows of the column, as a power of two.
    pub closed spec fn log_rows(&self) -> usize {
        self.log_rows
    }

    /// The tower level of the elements of the column.
    pub closed spec fn tower_level(&self) -> usize {
        self.tower_level
    }

    /// The bytes written so far.
    pub closed spec fn bytes(&self) -> Seq<u8> {
        self.data@
    }

    /// Whether `after` is the same column as `self`, but for its bytes.
    pub open spec fn same_column(&self, after: &Self) -> bool {
        &&& after.id() == self.id()
        &&& after.log_rows() == self.log_rows()
        &&& after.tower_level() == self.tower_level()
        &&& after.bytes().len() == self.bytes().len()
    }

    /// The column as it will be stored.
    pub open spec fn entry(&self) -> EntryView {
        EntryView { log_rows: self.log_rows(), tower_level: self.tower_level(), data: self.bytes() }
    }

    /// The number of bytes of the column.
    pub fn len(&self) -> (n: usize)
        ensures
            n == self.bytes().len(),
    {
        self.data.len()
    }

    /// The buffer of the column.
    pub fn data(&mut self) -> (r: &mut [u8])
        ensures
            r@ == old(self).bytes(),
            final(self).bytes() == final(r)@,
            final(self).id() == old(self).id(),
            final(self).log_rows() == old(self).log_rows(),
            final(self).tower_level() == old(self).tower_level(),
    {
        self.data.as_mut_slice()
    }

    /// The column as packed field elements: the bytes hold the elements of
    /// the column one after the other, those of less than a byte from the
    /// low bit up.
    pub fn packed(&mut self) -> (r: &mut [u8])
        ensures
            r@ == old(self).bytes(),
            final(self).bytes() == final(r)@,
            final(self).id() == old(self).id(),
            final(self).log_rows() == old(self).log_rows(),
            final(self).tower_level() == old(self).tower_level(),
    {
        self.data.as_mut_slice()
    }

    /// The column as a slice of bytes, to be filled. Wider rows are written
    /// with `fill_u32`, `fill_u64` and `fill_u128`, which fix the order of
    /// their bytes.
    pub fn as_mut_slice(&mut self) -> (r: &mut [u8])
        ensures
            r@ == old(self).bytes(),
            final(self).bytes() == final(r)@,
            final(self).id() == old(self).id(),
            final(self).log_rows() == old(self).log_rows(),
            final(self).tower_level() == old(self).tower_level(),
    {
        self.data.as_mut_slice()
    }

    /// Sets row `i` of the column read as bits.
    pub fn set_packed_bit(&mut self, i: usize, value: bool)
        requires
            i < old(self).bytes().len() * 8,
        ensures
            old(self).same_column(final(self)),
            bit_rows(final(self).bytes()) == bit_rows(old(self).bytes()).update(i as int, value),
    {
        set_bit(self.data.as_mut_slice(), i, value);
    }

    /// Overwrites the column with the given bytes.
    pub fn fill_bytes(&mut self, rows: &[u8])
        requires
            rows@.len() == old(self).bytes().len(),
        ensures
            old(self).same_column(final(self)),
            final(self).bytes() == rows@,
    {
        let n: usize = rows.len();
        let mut i: usize = 0;
        while i < n
            invariant
                i <= n,
                n == rows@.len(),
                self.data@.len() == n,
                self.id == old(self).id,
                self.log_rows == old(self).log_rows,
                self.tower_level == old(self).tower_level,
                forall|k: int| 0 <= k < i ==> self.data@[k] == rows@[k],
            decreases n - i,
        {
            self.data[i] = rows[i];
            i += 1;
        }
        assert(self.data@ =~= rows@);
    }

    /// Overwrites the column with the given 32-bit rows.
    pub fn fill_u32(&mut self, rows: &[u32])
        requires
            rows@.len() * 4 == old(self).bytes().len(),
        ensures
            old(self).same_column(final(self)),
            final(self).bytes() == u32_bytes(rows@),
            u32_rows(final(self).bytes()) == rows@,
    {
        let bytes = u32_rows_to_bytes(rows);
        self.fill_bytes(bytes.as_slice());
    }

    /// Overwrites the column with the given 64-bit rows.
    pub fn fill_u64(&mut self, rows: &[u64])
        requires
            rows@.len() * 8 == old(self).bytes().len(),
        ensures
            old(self).same_column(final(self)),
            final(self).bytes() == u64_bytes(rows@),
            u64_rows(final(self).bytes()) == rows@,
    {
        let bytes = u64_rows_to_bytes(rows);
        self.fill_bytes(bytes.as_slice());
    }

    /// Overwrites the column with the given 128-bit rows.
    pub fn fill_u128(&mut self, rows: &[u128])
        requires
            rows@.len() * 16 == old(self).bytes().len(),
        ensures
            old(self).same_column(final(self)),
            final(self).bytes() == u128_bytes(rows@),
            u128_rows(final(self).bytes()) == rows@,
    {
        let bytes = u128_rows_to_bytes(rows);
        self.fill_bytes(bytes.as_slice());
    }

    /// Freezes the column and registers it in the table under its oracle id.
    pub fn finalize(self, witness: &mut Builder)
        requires
            table_wf(old(witness)@),
            self.entry().wf(),
        ensures
            final(witness)@ == table_with(old(witness)@, self.id(), self.entry()),
            table_wf(final(witness)@),
    {
        witness.register(
            self.id,
            WitnessEntry { log_rows: self.log_rows, tower_level: self.tower_level, data: self.data },
        );
    }
}

} // verus!
