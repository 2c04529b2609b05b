//! The oracle set: the declarative graph of virtual polynomials.
//!
//! An oracle is a polynomial over the boolean hypercube of `n_vars` variables
//! with values in one level of the binary tower. It is either committed,
//! transparent, or derived from oracles created before it. Oracles are
//! identified by their position in the set; the set only ever grows.

use crate::field::tower::{min_level, min_tower_level, TOP_TOWER_LEVEL};
use crate::util::below_pow2;
use crate::builder::witness::layout::{checked_column_len, column_len};
use vstd::arithmetic::power2::pow2;
use vstd::prelude::*;

verus! {

/// Identifies an oracle: its position in the oracle set.
pub type OracleId = usize;

/// Identifies a batch of committed oracles.
pub type BatchId = usize;

/// How a shifted oracle moves the rows of each block.
#[derive(Clone, Copy, Debug, PartialEq, Eq, Structural)]
pub enum ShiftVariant {
    CircularLeft,
    LogicalLeft,
    LogicalRight,
}

/// Which variables a projection fixes.
#[derive(Clone, Copy, Debug, PartialEq, Eq, Structural)]
pub enum ProjectionVariant {
    FirstVars,
    LastVars,
}

/// Structural errors raised when an oracle is declared.
#[derive(Clone, Copy, Debug, PartialEq, Eq, Structural)]
pub enum Error {
    /// No oracle has this id.
    InvalidOracleId(OracleId),
    /// An oracle does not have the number of variables that its use calls for.
    IncorrectNumberOfVariables { expected: usize },
    /// The block of a shift has more variables than the oracle.
    InvalidBlockSize { n_vars: usize },
    /// A shift offset is zero or not below the block size.
    InvalidShiftOffset { block_bits: usize, shift_offset: usize },
    /// A projection fixes more variables than the oracle has.
    InvalidProjection { n_vars: usize, values_len: usize },
    /// Packing needs at least `log_degree` variables.
    NotEnoughVarsForPacking { n_vars: usize, log_degree: usize },
    /// The values would not fit in the top field.
    TowerLevelTooHigh { tower_level: usize },
    /// The number of variables would not fit in a machine word.
    TooManyVariables,
    /// The step index of a step-down polynomial exceeds its number of rows.
    InvalidStepIndex { n_vars: usize, index: usize },
    /// The data of a multilinear extension does not fill its rows.
    IncorrectDataLength { n_vars: usize, tower_level: usize },
}

/// The shape shared by the committed oracles of one batch.
#[derive(Clone, Copy, Debug, PartialEq, Eq, Structural)]
pub struct CommittedBatch {
    pub n_vars: usize,
    pub tower_level: usize,
}

/// A polynomial that the verifier can evaluate by itself.
#[derive(Clone, Debug)]
pub enum Transparent {
    /// The same value on every row.
    Constant { n_vars: usize, value: u128 },
    /// Row `i` holds the `i`-th power of `base`.
    Powers { n_vars: usize, base: u128 },
    /// One on the rows below `index`, zero from `index` on.
    StepDown { n_vars: usize, index: usize },
    /// The multilinear extension of the given column data.
    MultilinearExtension { n_vars: usize, tower_level: usize, data: Vec<u8> },
}

/// The mathematical content of a [`Transparent`].
pub enum TransparentView {
    Constant { n_vars: usize, value: u128 },
    Powers { n_vars: usize, base: u128 },
    StepDown { n_vars: usize, index: usize },
    MultilinearExtension { n_vars: usize, tower_level: usize, data: Seq<u8> },
}

impl View for Transparent {
    type V = TransparentView;

    open spec fn view(&self) -> TransparentView {
        match *self {
            Transparent::Constant { n_vars, value } => TransparentView::Constant { n_vars, value },
            Transparent::Powers { n_vars, base } => TransparentView::Powers { n_vars, base },
            Transparent::StepDown { n_vars, index } => TransparentView::StepDown { n_vars, index },
            Transparent::MultilinearExtension { n_vars, tower_level, data } => {
                TransparentView::MultilinearExtension { n_vars, tower_level, data: data@ }
            },
        }
    }
}

impl TransparentView {
    /// The number of variables of the polynomial.
    pub open spec fn n_vars(self) -> usize {
        match self {
            TransparentView::Constant { n_vars, .. } => n_vars,
            TransparentView::Powers { n_vars, .. } => n_vars,
            TransparentView::StepDown { n_vars, .. } => n_vars,
            TransparentView::MultilinearExtension { n_vars, .. } => n_vars,
        }
    }

    /// The lowest tower level that holds every value of the polynomial.
    pub open spec fn tower_level(self) -> usize {
        match self {
            TransparentView::Constant { value, .. } => min_level(value),
            TransparentView::Powers { base, .. } => min_level(base),
            TransparentView::StepDown { .. } => 0,
            TransparentView::MultilinearExtension { tower_level, .. } => tower_level,
        }
    }

    /// Why the polynomial cannot be declared, if it cannot.
    pub open spec fn defect(self) -> Option<Error> {
        match self {
            TransparentView::Constant { .. } => None,
            TransparentView::Powers { .. } => None,
            TransparentView::StepDown { n_vars, index } => if index <= pow2(n_vars as nat) {
                None
            } else {
                Some(Error::InvalidStepIndex { n_vars, index })
            },
            TransparentView::MultilinearExtension { n_vars, tower_level, data } => if tower_level
                > TOP_TOWER_LEVEL {
                Some(Error::TowerLevelTooHigh { tower_level })
            } else if data.len() != column_len(n_vars, tower_level) {
                Some(Error::IncorrectDataLength { n_vars, tower_level })
            } else {
                None
            },
        }
    }
}

/// What an oracle is made of.
#[derive(Clone, Debug)]
pub enum OracleVariant {
    Transparent(Transparent),
    Committed { batch_id: BatchId },
    Repeating { inner: OracleId, log_count: usize },
    Shifted { inner: OracleId, offset: usize, block_bits: usize, variant: ShiftVariant },
    Packed { inner: OracleId, log_degree: usize },
    Projected { inner: OracleId, values: Vec<u128>, variant: ProjectionVariant },
    LinearCombination { offset: u128, inner: Vec<(OracleId, u128)> },
    ZeroPadded { inner: OracleId },
}

/// The mathematical content of an [`OracleVariant`].
pub enum OracleVariantView {
    Transparent(TransparentView),
    Committed { batch_id: BatchId },
    Repeating { inner: OracleId, log_count: usize },
    Shifted { inner: OracleId, offset: usize, block_bits: usize, variant: ShiftVariant },
    Packed { inner: OracleId, log_degree: usize },
    Projected { inner: OracleId, values: Seq<u128>, variant: ProjectionVariant },
    LinearCombination { offset: u128, inner: Seq<(OracleId, u128)> },
    ZeroPadded { inner: OracleId },
}

impl View for OracleVariant {
    type V = OracleVariantView;

    open spec fn view(&self) -> OracleVariantView {
        match *self {
            OracleVariant::Transparent(t) => OracleVariantView::Transparent(t@),
            OracleVariant::Committed { batch_id } => OracleVariantView::Committed { batch_id },
            OracleVariant::Repeating { inner, log_count } => OracleVariantView::Repeating {
                inner,
                log_count,
            },
            OracleVariant::Shifted {
                inner,
                offset,
                block_bits,
                variant,
            } => OracleVariantView::Shifted { inner, offset, block_bits, variant },
            OracleVariant::Packed { inner, log_degree } => OracleVariantView::Packed {
                inner,
                log_degree,
            },
            OracleVariant::Projected { inner, values, variant } => OracleVariantView::Projected {
                inner,
                values: values@,
                variant,
            },
            OracleVariant::LinearCombination {
                offset,
                inner,
            } => OracleVariantView::LinearCombination { offset, inner: inner@ },
            OracleVariant::ZeroPadded { inner } => OracleVariantView::ZeroPadded { inner },
        }
    }
}

/// One oracle of the set.
#[derive(Clone, Debug)]
pub struct MultilinearPolyOracle {
    /// The display name, for diagnostics only.
    pub name: String,
    pub n_vars: usize,
    pub tower_level: usize,
    pub variant: OracleVariant,
}

/// The mathematical content of a [`MultilinearPolyOracle`].
pub struct OracleView {
    pub name: Seq<char>,
    pub n_vars: usize,
    pub tower_level: usize,
    pub variant: OracleVariantView,
}

impl View for MultilinearPolyOracle {
    type V = OracleView;

    open spec fn view(&self) -> OracleView {
        OracleView {
            name: self.name@,
            n_vars: self.n_vars,
            tower_level: self.tower_level,
            variant: self.variant@,
        }
    }
}

/// The larger of two levels.
pub open spec fn max_level(a: usize, b: usize) -> usize {
    if a >= b {
        a
    } else {
        b
    }
}

/// The lowest tower level that contains all the given field elements.
pub open spec fn values_level(values: Seq<u128>) -> usize
    decreases values.len(),
{
    if values.len() == 0 {
        0
    } else {
        max_level(values_level(values.drop_last()), min_level(values.last()))
    }
}

/// The tower level of `offset + sum of coeff_i * oracle_i`: the lowest level
/// that contains the offset, every coefficient and every value of the
/// oracles combined.
pub open spec fn combination_level(
    oracles: Seq<OracleView>,
    offset: u128,
    inner: Seq<(OracleId, u128)>,
) -> usize
    decreases inner.len(),
{
    if inner.len() == 0 {
        min_level(offset)
    } else {
        max_level(
            combination_level(oracles, offset, inner.drop_last()),
            max_level(oracles[inner.last().0 as int].tower_level, min_level(inner.last().1)),
        )
    }
}

/// Why entry `entry` cannot take part in a combination over `n_vars`
/// variables, if it cannot.
pub open spec fn combination_entry_defect(
    oracles: Seq<OracleView>,
    n_vars: usize,
    entry: (OracleId, u128),
) -> Option<Error> {
    if entry.0 >= oracles.len() {
        Some(Error::InvalidOracleId(entry.0))
    } else if oracles[entry.0 as int].n_vars != n_vars {
        Some(Error::IncorrectNumberOfVariables { expected: n_vars })
    } else {
        None
    }
}

/// The defect of the first defective entry among the first `k`, if any.
pub open spec fn combination_defect(
    oracles: Seq<OracleView>,
    n_vars: usize,
    inner: Seq<(OracleId, u128)>,
    k: nat,
) -> Option<Error>
    decreases k,
{
    if k == 0 {
        None
    } else {
        match combination_defect(oracles, n_vars, inner, (k - 1) as nat) {
            Some(e) => Some(e),
            None => combination_entry_defect(oracles, n_vars, inner[k - 1]),
        }
    }
}

/// The mathematical content of the oracle set.
pub struct OracleSetView {
    pub batches: Seq<CommittedBatch>,
    pub oracles: Seq<OracleView>,
}

impl OracleSetView {
    /// Whether `id` names an oracle of the set.
    pub open spec fn is_valid_oracle_id(self, id: OracleId) -> bool {
        id < self.oracles.len()
    }

    /// Whether oracle `o`, at position `i`, is of the shape that its variant
    /// and the oracles before it determine.
    pub open spec fn oracle_wf(self, i: int, o: OracleView) -> bool {
        match o.variant {
            OracleVariantView::Transparent(t) => {
                &&& t.defect() is None
                &&& o.n_vars == t.n_vars()
                &&& o.tower_level == t.tower_level()
            },
            OracleVariantView::Committed { batch_id } => {
                &&& batch_id < self.batches.len()
                &&& o.n_vars == self.batches[batch_id as int].n_vars
                &&& o.tower_level == self.batches[batch_id as int].tower_level
            },
            OracleVariantView::Repeating { inner, log_count } => {
                &&& inner < i
                &&& o.n_vars == self.oracles[inner as int].n_vars + log_count
                &&& o.tower_level == self.oracles[inner as int].tower_level
            },
            OracleVariantView::Shifted { inner, offset, block_bits, variant } => {
                &&& inner < i
                &&& o.n_vars == self.oracles[inner as int].n_vars
                &&& o.tower_level == self.oracles[inner as int].tower_level
                &&& block_bits <= o.n_vars
                &&& 0 < offset < pow2(block_bits as nat)
            },
            OracleVariantView::Packed { inner, log_degree } => {
                &&& inner < i
                &&& o.n_vars + log_degree == self.oracles[inner as int].n_vars
                &&& o.tower_level == self.oracles[inner as int].tower_level + log_degree
                &&& o.tower_level <= TOP_TOWER_LEVEL
            },
            OracleVariantView::Projected { inner, values, variant } => {
                &&& inner < i
                &&& o.n_vars + values.len() == self.oracles[inner as int].n_vars
                &&& o.tower_level == max_level(
                    self.oracles[inner as int].tower_level,
                    values_level(values),
                )
            },
            OracleVariantView::LinearCombination { offset, inner } => {
                &&& forall|k: int|
                    0 <= k < inner.len() ==> (#[trigger] inner[k]).0 < i
                        && self.oracles[inner[k].0 as int].n_vars == o.n_vars
                &&& o.tower_level == combination_level(self.oracles, offset, inner)
            },
            OracleVariantView::ZeroPadded { inner } => {
                &&& inner < i
                &&& self.oracles[inner as int].n_vars <= o.n_vars
                &&& o.tower_level == self.oracles[inner as int].tower_level
            },
        }
    }

    /// The invariant of the set: every oracle refers only to oracles created
    /// before it, and its number of variables and tower level are those that
    /// its inputs determine.
    pub open spec fn wf(self) -> bool {
        &&& self.oracles.len() <= usize::MAX
        &&& forall|i: int|
            0 <= i < self.oracles.len() ==> #[trigger] self.oracle_wf(i, self.oracles[i])
    }

    /// The set with one more oracle.
    pub open spec fn push(self, o: OracleView) -> OracleSetView {
        OracleSetView { batches: self.batches, oracles: self.oracles.push(o) }
    }

    /// The set with one more batch.
    pub open spec fn push_batch(self, b: CommittedBatch) -> OracleSetView {
        OracleSetView { batches: self.batches.push(b), oracles: self.oracles }
    }

    /// Why no oracle can repeat oracle `id`, if none can.
    pub open spec fn repeating_defect(self, id: OracleId, log_count: usize) -> Option<Error> {
        if id >= self.oracles.len() {
            Some(Error::InvalidOracleId(id))
        } else if self.oracles[id as int].n_vars + log_count > usize::MAX {
            Some(Error::TooManyVariables)
        } else {
            None
        }
    }

    /// The oracle that repeats oracle `id`.
    pub open spec fn repeating(
        self,
        name: Seq<char>,
        id: OracleId,
        log_count: usize,
    ) -> OracleView {
        OracleView {
            name,
            n_vars: (self.oracles[id as int].n_vars + log_count) as usize,
            tower_level: self.oracles[id as int].tower_level,
            variant: OracleVariantView::Repeating { inner: id, log_count },
        }
    }

    /// Why no oracle can shift oracle `id` so, if none can.
    pub open spec fn shifted_defect(self, id: OracleId, offset: usize, block_bits: usize) -> Option<
        Error,
    > {
        if id >= self.oracles.len() {
            Some(Error::InvalidOracleId(id))
        } else if block_bits > self.oracles[id as int].n_vars {
            Some(Error::InvalidBlockSize { n_vars: self.oracles[id as int].n_vars })
        } else if offset == 0 || offset >= pow2(block_bits as nat) {
            Some(Error::InvalidShiftOffset { block_bits, shift_offset: offset })
        } else {
            None
        }
    }

    /// The oracle that shifts oracle `id`.
    pub open spec fn shifted(
        self,
        name: Seq<char>,
        id: OracleId,
        offset: usize,
        block_bits: usize,
        variant: ShiftVariant,
    ) -> OracleView {
        OracleView {
            name,
            n_vars: self.oracles[id as int].n_vars,
            tower_level: self.oracles[id as int].tower_level,
            variant: OracleVariantView::Shifted { inner: id, offset, block_bits, variant },
        }
    }

    /// Why no oracle can pack oracle `id` so, if none can.
    pub open spec fn packed_defect(self, id: OracleId, log_degree: usize) -> Option<Error> {
        if id >= self.oracles.len() {
            Some(Error::InvalidOracleId(id))
        } else if log_degree > self.oracles[id as int].n_vars {
            Some(
                Error::NotEnoughVarsForPacking {
                    n_vars: self.oracles[id as int].n_vars,
                    log_degree,
                },
            )
        } else if self.oracles[id as int].tower_level + log_degree > TOP_TOWER_LEVEL {
            Some(Error::TowerLevelTooHigh { tower_level: self.oracles[id as int].tower_level })
        } else {
            None
        }
    }

    /// The oracle that packs oracle `id`.
    pub open spec fn packed(self, name: Seq<char>, id: OracleId, log_degree: usize) -> OracleView {
        OracleView {
            name,
            n_vars: (self.oracles[id as int].n_vars - log_degree) as usize,
            tower_level: (self.oracles[id as int].tower_level + log_degree) as usize,
            variant: OracleVariantView::Packed { inner: id, log_degree },
        }
    }

    /// Why no oracle can project oracle `id` so, if none can.
    pub open spec fn projected_defect(self, id: OracleId, values: Seq<u128>) -> Option<Error> {
        if id >= self.oracles.len() {
            Some(Error::InvalidOracleId(id))
        } else if values.len() > self.oracles[id as int].n_vars {
            Some(
                Error::InvalidProjection {
                    n_vars: self.oracles[id as int].n_vars,
                    values_len: values.len() as usize,
                },
            )
        } else {
            None
        }
    }

    /// The oracle that projects oracle `id`.
    pub open spec fn projected(
        self,
        name: Seq<char>,
        id: OracleId,
        values: Seq<u128>,
        variant: ProjectionVariant,
    ) -> OracleView {
        OracleView {
            name,
            n_vars: (self.oracles[id as int].n_vars - values.len()) as usize,
            tower_level: max_level(self.oracles[id as int].tower_level, values_level(values)),
            variant: OracleVariantView::Projected { inner: id, values, variant },
        }
    }

    /// The oracle that combines the oracles of `inner`.
    pub open spec fn linear_combination(
        self,
        name: Seq<char>,
        n_vars: usize,
        offset: u128,
        inner: Seq<(OracleId, u128)>,
    ) -> OracleView {
        OracleView {
            name,
            n_vars,
            tower_level: combination_level(self.oracles, offset, inner),
            variant: OracleVariantView::LinearCombination { offset, inner },
        }
    }

    /// Why no oracle can pad oracle `id` so, if none can.
    pub open spec fn zero_padded_defect(self, id: OracleId, n_vars: usize) -> Option<Error> {
        if id >= self.oracles.len() {
            Some(Error::InvalidOracleId(id))
        } else if self.oracles[id as int].n_vars > n_vars {
            Some(Error::IncorrectNumberOfVariables { expected: self.oracles[id as int].n_vars })
        } else {
            None
        }
    }

    /// The oracle that pads oracle `id`.
    pub open spec fn zero_padded(self, name: Seq<char>, id: OracleId, n_vars: usize) -> OracleView {
        OracleView {
            name,
            n_vars,
            tower_level: self.oracles[id as int].tower_level,
            variant: OracleVariantView::ZeroPadded { inner: id },
        }
    }

    /// The committed oracle of batch `batch_id`.
    pub open spec fn committed(self, name: Seq<char>, batch_id: BatchId) -> OracleView {
        OracleView {
            name,
            n_vars: self.batches[batch_id as int].n_vars,
            tower_level: self.batches[batch_id as int].tower_level,
            variant: OracleVariantView::Committed { batch_id },
        }
    }

    /// The oracle of a transparent polynomial.
    pub open spec fn transparent(self, name: Seq<char>, poly: TransparentView) -> OracleView {
        OracleView {
            name,
            n_vars: poly.n_vars(),
            tower_level: poly.tower_level(),
            variant: OracleVariantView::Transparent(poly),
        }
    }
}

/// Adding an oracle that is well formed at the end of a well-formed set
/// keeps the set well formed.
pub proof fn lemma_push_keeps_wf(s: OracleSetView, o: OracleView)
    requires
        s.wf(),
        s.oracles.len() < usize::MAX,
        s.oracle_wf(s.oracles.len() as int, o),
    ensures
        s.push(o).wf(),
{
    let t = s.push(o);
    assert forall|i: int| 0 <= i < t.oracles.len() implies #[trigger] t.oracle_wf(
        i,
        t.oracles[i],
    ) by {
        let x = t.oracles[i];
        if i < s.oracles.len() {
            assert(s.oracle_wf(i, s.oracles[i]));
        }
        match x.variant {
            OracleVariantView::LinearCombination { offset, inner } => {
                lemma_combination_level_prefix(s.oracles, t.oracles, offset, inner, i);
            },
            _ => {},
        }
    }
}

/// The level of a combination depends only on the oracles that it names.
pub proof fn lemma_combination_level_prefix(
    a: Seq<OracleView>,
    b: Seq<OracleView>,
    offset: u128,
    inner: Seq<(OracleId, u128)>,
    bound: int,
)
    requires
        bound <= a.len(),
        bound <= b.len(),
        forall|k: int| 0 <= k < bound ==> a[k] == b[k],
        forall|k: int| 0 <= k < inner.len() ==> (#[trigger] inner[k]).0 < bound,
    ensures
        combination_level(a, offset, inner) == combination_level(b, offset, inner),
    decreases inner.len(),
{
    if inner.len() > 0 {
        lemma_combination_level_prefix(a, b, offset, inner.drop_last(), bound);
        assert(inner.last() == inner[inner.len() - 1]);
    }
}

/// Once an entry is defective, the answer no longer changes.
pub proof fn lemma_combination_defect_stays(
    oracles: Seq<OracleView>,
    n_vars: usize,
    inner: Seq<(OracleId, u128)>,
    k: nat,
    m: nat,
)
    requires
        k <= m,
        combination_defect(oracles, n_vars, inner, k) is Some,
    ensures
        combination_defect(oracles, n_vars, inner, m) == combination_defect(
            oracles,
            n_vars,
            inner,
            k,
        ),
    decreases m - k,
{
    if k < m {
        lemma_combination_defect_stays(oracles, n_vars, inner, k, (m - 1) as nat);
    }
}

/// The views of a sequence of oracles.
pub open spec fn oracle_views(s: Seq<MultilinearPolyOracle>) -> Seq<OracleView> {
    s.map_values(|o: MultilinearPolyOracle| o@)
}

/// The set of oracles declared so far, with the batches of its committed
/// oracles.
pub struct MultilinearOracleSet {
    batches: Vec<CommittedBatch>,
    oracles: Vec<MultilinearPolyOracle>,
}

impl View for MultilinearOracleSet {
    type V = OracleSetView;

    closed spec fn view(&self) -> OracleSetView {
        OracleSetView { batches: self.batches@, oracles: oracle_views(self.oracles@) }
    }
}

impl MultilinearOracleSet {
    /// The empty set.
    pub fn new() -> (s: Self)
        ensures
            s@.batches.len() == 0,
            s@.oracles.len() == 0,
            s@.wf(),
    {
        MultilinearOracleSet { batches: Vec::new(), oracles: Vec::new() }
    }

    /// The number of oracles.
    pub fn size(&self) -> (n: usize)
        ensures
            n == self@.oracles.len(),
    {
        self.oracles.len()
    }

    /// The number of batches.
    pub fn n_batches(&self) -> (n: usize)
        ensures
            n == self@.batches.len(),
    {
        self.batches.len()
    }

    /// Whether `id` names an oracle of the set.
    pub fn is_valid_oracle_id(&self, id: OracleId) -> (b: bool)
        ensures
            b == self@.is_valid_oracle_id(id),
    {
        id < self.oracles.len()
    }

    /// The oracle with the given id.
    pub fn oracle(&self, id: OracleId) -> (o: &MultilinearPolyOracle)
        requires
            self@.is_valid_oracle_id(id),
        ensures
            o@ == self@.oracles[id as int],
    {
        &self.oracles[id]
    }

    /// The shape of the given batch.
    pub fn committed_batch(&self, id: BatchId) -> (b: CommittedBatch)
        requires
            id < self@.batches.len(),
        ensures
            b == self@.batches[id as int],
    {
        self.batches[id]
    }

    /// The number of variables of the given oracle.
    pub fn n_vars(&self, id: OracleId) -> (n: usize)
        requires
            self@.is_valid_oracle_id(id),
        ensures
            n == self@.oracles[id as int].n_vars,
    {
        self.oracles[id].n_vars
    }

    /// The tower level of the given oracle.
    pub fn tower_level(&self, id: OracleId) -> (n: usize)
        requires
            self@.is_valid_oracle_id(id),
        ensures
            n == self@.oracles[id as int].tower_level,
    {
        self.oracles[id].tower_level
    }

    /// Appends an oracle that is well formed at the end of the set.
    fn add_to_set(&mut self, oracle: MultilinearPolyOracle) -> (id: OracleId)
        requires
            old(self)@.wf(),
            old(self)@.oracle_wf(old(self)@.oracles.len() as int, oracle@),
        ensures
            id == old(self)@.oracles.len(),
            final(self)@ == old(self)@.push(oracle@),
            final(self)@.wf(),
    {
        let id: usize = self.oracles.len();
        self.oracles.push(oracle);
        let after: usize = self.oracles.len();
        proof {
            lemma_push_keeps_wf(old(self)@, oracle@);
        }
        assert(oracle_views(self.oracles@) =~= oracle_views(old(self).oracles@).push(oracle@));
        id
    }

    /// Opens a new batch of committed oracles of the given shape.
    pub fn add_committed_batch(&mut self, n_vars: usize, tower_level: usize) -> (id: BatchId)
        requires
            old(self)@.wf(),
        ensures
            id == old(self)@.batches.len(),
            final(self)@ == old(self)@.push_batch(CommittedBatch { n_vars, tower_level }),
            final(self)@.wf(),
    {
        let id: usize = self.batches.len();
        self.batches.push(CommittedBatch { n_vars, tower_level });
        proof {
            let s = old(self)@;
            let t = self@;
            assert forall|i: int| 0 <= i < t.oracles.len() implies #[trigger] t.oracle_wf(
                i,
                t.oracles[i],
            ) by {
                assert(s.oracle_wf(i, s.oracles[i]));
            }
        }
        id
    }

    /// Declares a committed oracle of the given batch.
    pub fn add_committed(&mut self, name: String, batch_id: BatchId) -> (id: OracleId)
        requires
            old(self)@.wf(),
            batch_id < old(self)@.batches.len(),
        ensures
            id == old(self)@.oracles.len(),
            final(self)@ == old(self)@.push(old(self)@.committed(name@, batch_id)),
            final(self)@.wf(),
    {
        let batch = self.batches[batch_id];
        self.add_to_set(
            MultilinearPolyOracle {
                name,
                n_vars: batch.n_vars,
                tower_level: batch.tower_level,
                variant: OracleVariant::Committed { batch_id },
            },
        )
    }

    /// Declares the oracle of a transparent polynomial.
    pub fn add_transparent(&mut self, name: String, poly: Transparent) -> (r: Result<
        OracleId,
        Error,
    >)
        requires
            old(self)@.wf(),
        ensures
            final(self)@.wf(),
            match poly@.defect() {
                Some(e) => r == Err::<OracleId, Error>(e) && final(self)@ == old(self)@,
                None => r == Ok::<OracleId, Error>(old(self)@.oracles.len() as usize)
                    && final(self)@ == old(self)@.push(old(self)@.transparent(name@, poly@)),
            },
    {
        let n_vars: usize;
        let tower_level: usize;
        match &poly {
            Transparent::Constant { n_vars: n, value } => {
                n_vars = *n;
                tower_level = min_tower_level(*value);
            },
            Transparent::Powers { n_vars: n, base } => {
                n_vars = *n;
                tower_level = min_tower_level(*base);
            },
            Transparent::StepDown { n_vars: n, index } => {
                if *index > 0 && !below_pow2(*index - 1, *n) {
                    return Err(Error::InvalidStepIndex { n_vars: *n, index: *index });
                }
                n_vars = *n;
                tower_level = 0;
            },
            Transparent::MultilinearExtension { n_vars: n, tower_level: level, data } => {
                if *level > TOP_TOWER_LEVEL {
                    return Err(Error::TowerLevelTooHigh { tower_level: *level });
                }
                let expected = checked_column_len(*n, *level);
                let data_len: usize = data.len();
                if expected.is_none() || data_len != expected.unwrap() {
                    return Err(Error::IncorrectDataLength { n_vars: *n, tower_level: *level });
                }
                n_vars = *n;
                tower_level = *level;
            },
        }
        let id = self.add_to_set(
            MultilinearPolyOracle {
                name,
                n_vars,
                tower_level,
                variant: OracleVariant::Transparent(poly),
            },
        );
        Ok(id)
    }

    /// Declares the oracle that repeats oracle `id` `2^log_count` times.
    pub fn add_repeating(&mut self, name: String, id: OracleId, log_count: usize) -> (r: Result<
        OracleId,
        Error,
    >)
        requires
            old(self)@.wf(),
        ensures
            final(self)@.wf(),
            match old(self)@.repeating_defect(id, log_count) {
                Some(e) => r == Err::<OracleId, Error>(e) && final(self)@ == old(self)@,
                None => r == Ok::<OracleId, Error>(old(self)@.oracles.len() as usize)
                    && final(self)@ == old(self)@.push(old(self)@.repeating(name@, id, log_count)),
            },
    {
        if id >= self.oracles.len() {
            return Err(Error::InvalidOracleId(id));
        }
        let n_vars: usize = match self.oracles[id].n_vars.checked_add(log_count) {
            Some(n) => n,
            None => {
                return Err(Error::TooManyVariables);
            },
        };
        let tower_level: usize = self.oracles[id].tower_level;
        let new_id = self.add_to_set(
            MultilinearPolyOracle {
                name,
                n_vars,
                tower_level,
                variant: OracleVariant::Repeating { inner: id, log_count },
            },
        );
        Ok(new_id)
    }

    /// Declares the oracle that shifts the rows of oracle `id` by `offset`
    /// within each block of `2^block_bits` rows.
    pub fn add_shifted(
        &mut self,
        name: String,
        id: OracleId,
        offset: usize,
        block_bits: usize,
        variant: ShiftVariant,
    ) -> (r: Result<OracleId, Error>)
        requires
            old(self)@.wf(),
        ensures
            final(self)@.wf(),
            match old(self)@.shifted_defect(id, offset, block_bits) {
                Some(e) => r == Err::<OracleId, Error>(e) && final(self)@ == old(self)@,
                None => r == Ok::<OracleId, Error>(old(self)@.oracles.len() as usize)
                    && final(self)@ == old(self)@.push(
                    old(self)@.shifted(name@, id, offset, block_bits, variant),
                ),
            },
    {
        if id >= self.oracles.len() {
            return Err(Error::InvalidOracleId(id));
        }
        let n_vars: usize = self.oracles[id].n_vars;
        if block_bits > n_vars {
            return Err(Error::InvalidBlockSize { n_vars });
        }
        if offset == 0 || !below_pow2(offset, block_bits) {
            return Err(Error::InvalidShiftOffset { block_bits, shift_offset: offset });
        }
        let tower_level: usize = self.oracles[id].tower_level;
        let new_id = self.add_to_set(
            MultilinearPolyOracle {
                name,
                n_vars,
                tower_level,
                variant: OracleVariant::Shifted { inner: id, offset, block_bits, variant },
            },
        );
        Ok(new_id)
    }

    /// Declares the oracle that packs `2^log_degree` consecutive rows of
    /// oracle `id` into one row of a larger field.
    pub fn add_packed(&mut self, name: String, id: OracleId, log_degree: usize) -> (r: Result<
        OracleId,
        Error,
    >)
        requires
            old(self)@.wf(),
        ensures
            final(self)@.wf(),
            match old(self)@.packed_defect(id, log_degree) {
                Some(e) => r == Err::<OracleId, Error>(e) && final(self)@ == old(self)@,
                None => r == Ok::<OracleId, Error>(old(self)@.oracles.len() as usize)
                    && final(self)@ == old(self)@.push(old(self)@.packed(name@, id, log_degree)),
            },
    {
        if id >= self.oracles.len() {
            return Err(Error::InvalidOracleId(id));
        }
        let inner_n_vars: usize = self.oracles[id].n_vars;
        if log_degree > inner_n_vars {
            return Err(Error::NotEnoughVarsForPacking { n_vars: inner_n_vars, log_degree });
        }
        let inner_level: usize = self.oracles[id].tower_level;
        if inner_level > TOP_TOWER_LEVEL || log_degree > TOP_TOWER_LEVEL - inner_level {
            return Err(Error::TowerLevelTooHigh { tower_level: inner_level });
        }
        let new_id = self.add_to_set(
            MultilinearPolyOracle {
                name,
                n_vars: inner_n_vars - log_degree,
                tower_level: inner_level + log_degree,
                variant: OracleVariant::Packed { inner: id, log_degree },
            },
        );
        Ok(new_id)
    }

    /// Declares the oracle that fixes the first or the last variables of
    /// oracle `id` to the given values.
    pub fn add_projected(
        &mut self,
        name: String,
        id: OracleId,
        values: Vec<u128>,
        variant: ProjectionVariant,
    ) -> (r: Result<OracleId, Error>)
        requires
            old(self)@.wf(),
        ensures
            final(self)@.wf(),
            match old(self)@.projected_defect(id, values@) {
                Some(e) => r == Err::<OracleId, Error>(e) && final(self)@ == old(self)@,
                None => r == Ok::<OracleId, Error>(old(self)@.oracles.len() as usize)
                    && final(self)@ == old(self)@.push(old(self)@.projected(name@, id, values@, variant)),
            },
    {
        if id >= self.oracles.len() {
            return Err(Error::InvalidOracleId(id));
        }
        let inner_n_vars: usize = self.oracles[id].n_vars;
        let values_len: usize = values.len();
        if values_len > inner_n_vars {
            return Err(Error::InvalidProjection { n_vars: inner_n_vars, values_len });
        }
        let mut tower_level: usize = 0;
        let mut k: usize = 0;
        while k < values_len
            invariant
                k <= values_len,
                values_len == values@.len(),
                tower_level == values_level(values@.subrange(0, k as int)),
            decreases values_len - k,
        {
            let level: usize = min_tower_level(values[k]);
            proof {
                assert(values@.subrange(0, k + 1).drop_last() =~= values@.subrange(0, k as int));
            }
            if level > tower_level {
                tower_level = level;
            }
            k += 1;
        }
        proof {
            assert(values@.subrange(0, values_len as int) =~= values@);
        }
        let inner_level: usize = self.oracles[id].tower_level;
        if inner_level > tower_level {
            tower_level = inner_level;
        }
        let new_id = self.add_to_set(
            MultilinearPolyOracle {
                name,
                n_vars: inner_n_vars - values_len,
                tower_level,
                variant: OracleVariant::Projected { inner: id, values, variant },
            },
        );
        Ok(new_id)
    }

    /// Declares the oracle `sum of coeff_i * oracle_i` over oracles of
    /// `n_vars` variables.
    pub fn add_linear_combination(
        &mut self,
        name: String,
        n_vars: usize,
        inner: Vec<(OracleId, u128)>,
    ) -> (r: Result<OracleId, Error>)
        requires
            old(self)@.wf(),
        ensures
            final(self)@.wf(),
            match combination_defect(old(self)@.oracles, n_vars, inner@, inner@.len()) {
                Some(e) => r == Err::<OracleId, Error>(e) && final(self)@ == old(self)@,
                None => r == Ok::<OracleId, Error>(old(self)@.oracles.len() as usize)
                    && final(self)@ == old(self)@.push(
                    old(self)@.linear_combination(name@, n_vars, 0, inner@),
                ),
            },
    {
        self.add_linear_combination_with_offset(name, n_vars, 0, inner)
    }

    /// Declares the oracle `offset + sum of coeff_i * oracle_i` over oracles
    /// of `n_vars` variables.
    pub fn add_linear_combination_with_offset(
        &mut self,
        name: String,
        n_vars: usize,
        offset: u128,
        inner: Vec<(OracleId, u128)>,
    ) -> (r: Result<OracleId, Error>)
        requires
            old(self)@.wf(),
        ensures
            final(self)@.wf(),
            match combination_defect(old(self)@.oracles, n_vars, inner@, inner@.len()) {
                Some(e) => r == Err::<OracleId, Error>(e) && final(self)@ == old(self)@,
                None => r == Ok::<OracleId, Error>(old(self)@.oracles.len() as usize)
                    && final(self)@ == old(self)@.push(
                    old(self)@.linear_combination(name@, n_vars, offset, inner@),
                ),
            },
    {
        let len: usize = inner.len();
        let mut tower_level: usize = min_tower_level(offset);
        let mut k: usize = 0;
        let ghost views = self@.oracles;
        while k < len
            invariant
                k <= len,
                len == inner@.len(),
                self@ == old(self)@,
                self@.wf(),
                views == self@.oracles,
                views == oracle_views(self.oracles@),
                combination_defect(views, n_vars, inner@, k as nat) is None,
                forall|j: int|
                    0 <= j < k ==> (#[trigger] inner@[j]).0 < views.len() && views[inner@[j].0 as int].n_vars
                        == n_vars,
                tower_level == combination_level(views, offset, inner@.subrange(0, k as int)),
            decreases len - k,
        {
            let inner_id: usize = inner[k].0;
            let coeff: u128 = inner[k].1;
            if inner_id >= self.oracles.len() {
                proof {
                    lemma_combination_defect_stays(views, n_vars, inner@, (k + 1) as nat, len as nat);
                }
                return Err(Error::InvalidOracleId(inner_id));
            }
            if self.oracles[inner_id].n_vars != n_vars {
                proof {
                    lemma_combination_defect_stays(views, n_vars, inner@, (k + 1) as nat, len as nat);
                }
                return Err(Error::IncorrectNumberOfVariables { expected: n_vars });
            }
            let oracle_level: usize = self.oracles[inner_id].tower_level;
            let coeff_level: usize = min_tower_level(coeff);
            proof {
                assert(inner@.subrange(0, k + 1).drop_last() =~= inner@.subrange(0, k as int));
            }
            if oracle_level > tower_level {
                tower_level = oracle_level;
            }
            if coeff_level > tower_level {
                tower_level = coeff_level;
            }
            k += 1;
        }
        proof {
            assert(inner@.subrange(0, len as int) =~= inner@);
        }
        let new_id = self.add_to_set(
            MultilinearPolyOracle {
                name,
                n_vars,
                tower_level,
                variant: OracleVariant::LinearCombination { offset, inner },
            },
        );
        Ok(new_id)
    }

    /// Declares the oracle that extends oracle `id` to `n_vars` variables,
    /// with zero on the new rows.
    pub fn add_zero_padded(&mut self, name: String, id: OracleId, n_vars: usize) -> (r: Result<
        OracleId,
        Error,
    >)
        requires
            old(self)@.wf(),
        ensures
            final(self)@.wf(),
            match old(self)@.zero_padded_defect(id, n_vars) {
                Some(e) => r == Err::<OracleId, Error>(e) && final(self)@ == old(self)@,
                None => r == Ok::<OracleId, Error>(old(self)@.oracles.len() as usize)
                    && final(self)@ == old(self)@.push(old(self)@.zero_padded(name@, id, n_vars)),
            },
    {
        if id >= self.oracles.len() {
            return Err(Error::InvalidOracleId(id));
        }
        let inner_n_vars: usize = self.oracles[id].n_vars;
        if inner_n_vars > n_vars {
            return Err(Error::IncorrectNumberOfVariables { expected: inner_n_vars });
        }
        let tower_level: usize = self.oracles[id].tower_level;
        let new_id = self.add_to_set(
            MultilinearPolyOracle {
                name,
                n_vars,
                tower_level,
                variant: OracleVariant::ZeroPadded { inner: id },
            },
        );
        Ok(new_id)
    }
}

} // verus!
