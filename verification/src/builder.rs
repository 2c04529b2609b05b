//! The constraint system builder.
//!
//! A circuit is built in one pass: the builder collects oracles, zero-check
//! constraints, non-zero assertions and channel flushes, and, for the
//! prover, the witness columns. Everything it holds only ever grows; at the
//! end it is exported as an immutable constraint system.

pub mod witness;

use crate::channel::{flush_views, max_channel_id, ChannelId, Flush, FlushDirection, FlushView};
use crate::constraint::{constraint_views, ArithExpr, Constraint, ConstraintView};
use crate::error::Error;
use crate::names::{decimal, numbered, path_view, scoped, scoped_name};
use crate::oracle::{
    combination_defect, CommittedBatch, MultilinearOracleSet, OracleId, OracleSetView, OracleView,
    ProjectionVariant, ShiftVariant, Transparent,
};
use crate::util::checked_pow2;
use crate::builder::witness::layout::column_len;
use crate::builder::witness::{table_wf, table_with, EntryView, MultilinearExtensionIndex};
use vstd::arithmetic::power2::pow2;
use vstd::prelude::*;

verus! {

/// The finished constraint system: plain data for the prover and verifier.
pub struct ConstraintSystem {
    pub oracles: MultilinearOracleSet,
    pub table_constraints: Vec<Constraint>,
    pub table_constraints_base: Vec<Constraint>,
    pub non_zero_oracle_ids: Vec<OracleId>,
    pub flushes: Vec<Flush>,
    pub max_channel_id: ChannelId,
}

/// The mathematical content of the builder.
pub struct BuilderView {
    pub oracles: OracleSetView,
    pub constraints: Seq<ConstraintView>,
    pub constraints_base: Seq<ConstraintView>,
    pub non_zero_oracle_ids: Seq<OracleId>,
    pub flushes: Seq<FlushView>,
    pub witness: Option<Seq<Option<EntryView>>>,
    pub next_channel_id: ChannelId,
    pub namespace_path: Seq<Seq<char>>,
}

/// The defect of the first among the first `k` oracles of `ids` that does
/// not exist or does not have `n_vars` variables, if there is one.
pub open spec fn tuple_defect(
    oracles: Seq<OracleView>,
    n_vars: usize,
    ids: Seq<OracleId>,
    k: nat,
) -> Option<crate::oracle::Error>
    decreases k,
{
    if k == 0 {
        None
    } else {
        match tuple_defect(oracles, n_vars, ids, (k - 1) as nat) {
            Some(e) => Some(e),
            None => if ids[k - 1] >= oracles.len() {
                Some(crate::oracle::Error::InvalidOracleId(ids[k - 1]))
            } else if oracles[ids[k - 1] as int].n_vars != n_vars {
                Some(crate::oracle::Error::IncorrectNumberOfVariables { expected: n_vars })
            } else {
                None
            },
        }
    }
}

/// Once an oracle of the tuple is defective, the answer no longer changes.
pub proof fn lemma_tuple_defect_stays(
    oracles: Seq<OracleView>,
    n_vars: usize,
    ids: Seq<OracleId>,
    k: nat,
    m: nat,
)
    requires
        k <= m,
        tuple_defect(oracles, n_vars, ids, k) is Some,
    ensures
        tuple_defect(oracles, n_vars, ids, m) == tuple_defect(oracles, n_vars, ids, k),
    decreases m - k,
{
    if k < m {
        lemma_tuple_defect_stays(oracles, n_vars, ids, k, (m - 1) as nat);
    }
}

/// A tuple without defect names existing oracles of `n_vars` variables.
pub proof fn lemma_tuple_without_defect(
    oracles: Seq<OracleView>,
    n_vars: usize,
    ids: Seq<OracleId>,
    k: nat,
)
    requires
        tuple_defect(oracles, n_vars, ids, k) is None,
    ensures
        forall|j: int|
            0 <= j < k ==> (#[trigger] ids[j]) < oracles.len() && oracles[ids[j] as int].n_vars
                == n_vars,
    decreases k,
{
    if k > 0 {
        lemma_tuple_without_defect(oracles, n_vars, ids, (k - 1) as nat);
    }
}

/// The common number of variables of the oracles of a tuple, or why they
/// have none.
pub open spec fn log_rows_spec(oracles: Seq<OracleView>, ids: Seq<OracleId>) -> Result<
    usize,
    Error,
> {
    if ids.len() == 0 {
        Err(Error::NoOracles)
    } else if ids[0] >= oracles.len() {
        Err(Error::Oracle(crate::oracle::Error::InvalidOracleId(ids[0])))
    } else {
        match tuple_defect(oracles, oracles[ids[0] as int].n_vars, ids, ids.len()) {
            Some(e) => Err(Error::Oracle(e)),
            None => Ok(oracles[ids[0] as int].n_vars),
        }
    }
}

/// The first among the first `k` ids that names no oracle of a set of
/// `n_oracles` oracles, if there is one.
pub open spec fn first_invalid_id(ids: Seq<OracleId>, n_oracles: nat, k: nat) -> Option<OracleId>
    decreases k,
{
    if k == 0 {
        None
    } else {
        match first_invalid_id(ids, n_oracles, (k - 1) as nat) {
            Some(id) => Some(id),
            None => if ids[k - 1] >= n_oracles {
                Some(ids[k - 1])
            } else {
                None
            },
        }
    }
}

/// Once an id is invalid, the answer no longer changes.
pub proof fn lemma_first_invalid_id_stays(ids: Seq<OracleId>, n_oracles: nat, k: nat, m: nat)
    requires
        k <= m,
        first_invalid_id(ids, n_oracles, k) is Some,
    ensures
        first_invalid_id(ids, n_oracles, m) == first_invalid_id(ids, n_oracles, k),
    decreases m - k,
{
    if k < m {
        lemma_first_invalid_id_stays(ids, n_oracles, k, (m - 1) as nat);
    }
}

/// Why the constraint of index `index` cannot be compiled against a set of
/// `n_oracles` oracles, if it cannot.
pub open spec fn constraint_defect(n_oracles: nat, index: int, c: ConstraintView) -> Option<Error> {
    match first_invalid_id(c.oracle_ids, n_oracles, c.oracle_ids.len()) {
        Some(id) => Some(Error::Oracle(crate::oracle::Error::InvalidOracleId(id))),
        None => if !c.composition.vars_below(c.oracle_ids.len()) {
            Some(Error::InvalidComposition { index: index as usize })
        } else {
            None
        },
    }
}

/// The defect of the first defective constraint among the first `k`, if any.
pub open spec fn constraints_defect(
    n_oracles: nat,
    constraints: Seq<ConstraintView>,
    k: nat,
) -> Option<Error>
    decreases k,
{
    if k == 0 {
        None
    } else {
        match constraints_defect(n_oracles, constraints, (k - 1) as nat) {
            Some(e) => Some(e),
            None => constraint_defect(n_oracles, k - 1, constraints[k - 1]),
        }
    }
}

/// Once a constraint is defective, the answer no longer changes.
pub proof fn lemma_constraints_defect_stays(
    n_oracles: nat,
    constraints: Seq<ConstraintView>,
    k: nat,
    m: nat,
)
    requires
        k <= m,
        constraints_defect(n_oracles, constraints, k) is Some,
    ensures
        constraints_defect(n_oracles, constraints, m) == constraints_defect(
            n_oracles,
            constraints,
            k,
        ),
    decreases m - k,
{
    if k < m {
        lemma_constraints_defect_stays(n_oracles, constraints, k, (m - 1) as nat);
    }
}

impl BuilderView {
    /// The invariant of the builder: the oracle set is well formed, no two
    /// batches have the same shape, the two constraint sets hold the same
    /// constraints, and every witness column has the length of its shape.
    pub open spec fn wf(self) -> bool {
        &&& self.oracles.wf()
        &&& forall|j: int, k: int|
            0 <= j < k < self.oracles.batches.len() ==> self.oracles.batches[j]
                != self.oracles.batches[k]
        &&& self.constraints_base == self.constraints
        &&& match self.witness {
            Some(table) => table_wf(table),
            None => true,
        }
    }

    /// Whether a batch of the given shape exists.
    #[verifier::opaque]
    pub open spec fn has_batch(self, n_vars: usize, tower_level: usize) -> bool {
        exists|k: int|
            0 <= k < self.oracles.batches.len() && self.oracles.batches[k] == (CommittedBatch {
                n_vars,
                tower_level,
            })
    }

    /// The batch of the given shape: the existing one, or else the one that
    /// would be opened next.
    #[verifier::opaque]
    pub open spec fn batch_of(self, n_vars: usize, tower_level: usize) -> usize {
        (if self.has_batch(n_vars, tower_level) {
            choose|k: int|
                0 <= k < self.oracles.batches.len() && self.oracles.batches[k] == (CommittedBatch {
                    n_vars,
                    tower_level,
                })
        } else {
            self.oracles.batches.len() as int
        }) as usize
    }

    /// The builder once a batch of the given shape exists.
    pub open spec fn with_batch(self, n_vars: usize, tower_level: usize) -> BuilderView {
        if self.has_batch(n_vars, tower_level) {
            self
        } else {
            BuilderView {
                oracles: self.oracles.push_batch(CommittedBatch { n_vars, tower_level }),
                ..self
            }
        }
    }

    /// The display name of `name` in the current namespace.
    pub open spec fn named(self, name: Seq<char>) -> Seq<char> {
        scoped(self.namespace_path, name)
    }

    /// The builder with one more oracle.
    pub open spec fn with_oracle(self, o: OracleView) -> BuilderView {
        BuilderView { oracles: self.oracles.push(o), ..self }
    }

    /// The number of oracles declared so far, which is the id of the next.
    pub open spec fn next_oracle_id(self) -> usize {
        self.oracles.oracles.len() as usize
    }

    /// The committed oracle that `add_committed` declares.
    pub open spec fn committed(
        self,
        name: Seq<char>,
        n_vars: usize,
        tower_level: usize,
    ) -> OracleView {
        self.with_batch(n_vars, tower_level).oracles.committed(
            self.named(name),
            self.batch_of(n_vars, tower_level),
        )
    }

    /// The builder after `add_committed`.
    pub open spec fn with_committed(
        self,
        name: Seq<char>,
        n_vars: usize,
        tower_level: usize,
    ) -> BuilderView {
        self.with_batch(n_vars, tower_level).with_oracle(self.committed(name, n_vars, tower_level))
    }

    /// The builder with one more zero-check constraint, in both sets.
    pub open spec fn with_constraint(self, c: ConstraintView) -> BuilderView {
        BuilderView {
            constraints: self.constraints.push(c),
            constraints_base: self.constraints_base.push(c),
            ..self
        }
    }

    /// The builder with one more flush.
    pub open spec fn with_flush(self, f: FlushView) -> BuilderView {
        BuilderView { flushes: self.flushes.push(f), ..self }
    }

    /// The builder with the given witness table.
    pub open spec fn with_witness(self, table: Seq<Option<EntryView>>) -> BuilderView {
        BuilderView { witness: Some(table), ..self }
    }

    /// The builder inside one more namespace.
    pub open spec fn with_namespace(self, name: Seq<char>) -> BuilderView {
        BuilderView { namespace_path: self.namespace_path.push(name), ..self }
    }

    /// The builder outside its innermost namespace.
    pub open spec fn without_namespace(self) -> BuilderView {
        BuilderView {
            namespace_path: if self.namespace_path.len() == 0 {
                self.namespace_path
            } else {
                self.namespace_path.drop_last()
            },
            ..self
        }
    }

    /// What flushing `count` rows of the oracles `ids` answers.
    pub open spec fn flush_check(self, count: usize, ids: Seq<OracleId>) -> Result<(), Error> {
        match log_rows_spec(self.oracles.oracles, ids) {
            Err(e) => Err(e),
            Ok(log_rows) => if count > pow2(log_rows as nat) {
                Err(Error::FlushCountExceedsRows { count, log_rows })
            } else {
                Ok(())
            },
        }
    }

    /// What flushing every row of the oracles `ids` answers: the number of
    /// rows flushed, or an error.
    pub open spec fn flush_all_check(self, ids: Seq<OracleId>) -> Result<usize, Error> {
        match log_rows_spec(self.oracles.oracles, ids) {
            Err(e) => Err(e),
            Ok(log_rows) => if pow2(log_rows as nat) > usize::MAX {
                Err(Error::Oracle(crate::oracle::Error::TooManyVariables))
            } else {
                Ok(pow2(log_rows as nat) as usize)
            },
        }
    }
}

/// A committed oracle has the shape that it is declared with.
pub proof fn lemma_committed_shape(
    b: BuilderView,
    name: Seq<char>,
    n_vars: usize,
    tower_level: usize,
)
    requires
        b.oracles.batches.len() < usize::MAX,
    ensures
        b.committed(name, n_vars, tower_level).n_vars == n_vars,
        b.committed(name, n_vars, tower_level).tower_level == tower_level,
        b.with_batch(n_vars, tower_level).oracles.batches.len() <= b.oracles.batches.len() + 1,
        b.with_batch(n_vars, tower_level).oracles.oracles == b.oracles.oracles,
        b.with_batch(n_vars, tower_level).witness == b.witness,
{
    reveal(BuilderView::has_batch);
    reveal(BuilderView::batch_of);
}

/// In a well-formed builder, two committed oracles are in the same batch if
/// and only if they have the same number of variables and the same tower
/// level, whatever was declared between them.
pub proof fn lemma_batch_determinism(b: BuilderView, i: OracleId, j: OracleId)
    requires
        b.wf(),
        i < b.oracles.oracles.len(),
        j < b.oracles.oracles.len(),
        b.oracles.oracles[i as int].variant is Committed,
        b.oracles.oracles[j as int].variant is Committed,
    ensures
        (b.oracles.oracles[i as int].variant->Committed_batch_id
            == b.oracles.oracles[j as int].variant->Committed_batch_id) <==> (
        b.oracles.oracles[i as int].n_vars == b.oracles.oracles[j as int].n_vars
            && b.oracles.oracles[i as int].tower_level == b.oracles.oracles[j as int].tower_level),
{
    let oi = b.oracles.oracles[i as int];
    let oj = b.oracles.oracles[j as int];
    assert(b.oracles.oracle_wf(i as int, oi));
    assert(b.oracles.oracle_wf(j as int, oj));
}

/// Collects the oracles, constraints, flushes and witness of a circuit.
pub struct ConstraintSystemBuilder {
    oracles: MultilinearOracleSet,
    constraints: Vec<Constraint>,
    constraints_base: Vec<Constraint>,
    non_zero_oracle_ids: Vec<OracleId>,
    flushes: Vec<Flush>,
    witness: Option<crate::builder::witness::Builder>,
    next_channel_id: ChannelId,
    namespace_path: Vec<String>,
}

impl View for ConstraintSystemBuilder {
    type V = BuilderView;

    closed spec fn view(&self) -> BuilderView {
        BuilderView {
            oracles: self.oracles@,
            constraints: constraint_views(self.constraints@),
            constraints_base: constraint_views(self.constraints_base@),
            non_zero_oracle_ids: self.non_zero_oracle_ids@,
            flushes: flush_views(self.flushes@),
            witness: match self.witness {
                Some(w) => Some(w@),
                None => None,
            },
            next_channel_id: self.next_channel_id,
            namespace_path: path_view(self.namespace_path@),
        }
    }
}

/// The builder view with nothing in it.
pub open spec fn empty_builder(witness: Option<Seq<Option<EntryView>>>) -> BuilderView {
    BuilderView {
        oracles: OracleSetView { batches: Seq::empty(), oracles: Seq::empty() },
        constraints: Seq::empty(),
        constraints_base: Seq::empty(),
        non_zero_oracle_ids: Seq::empty(),
        flushes: Seq::empty(),
        witness,
        next_channel_id: 0,
        namespace_path: Seq::empty(),
    }
}

impl ConstraintSystemBuilder {
    /// A builder for the verifier: it holds no witness.
    pub fn new() -> (r: Self)
        ensures
            r@ == empty_builder(None),
            r@.wf(),
    {
        let oracles = MultilinearOracleSet::new();
        let r = ConstraintSystemBuilder {
            oracles,
            constraints: Vec::new(),
            constraints_base: Vec::new(),
            non_zero_oracle_ids: Vec::new(),
            flushes: Vec::new(),
            witness: None,
            next_channel_id: 0,
            namespace_path: Vec::new(),
        };
        assert(r@.oracles.batches =~= Seq::empty());
        assert(r@.oracles.oracles =~= Seq::empty());
        assert(r@.constraints =~= Seq::empty());
        assert(r@.constraints_base =~= Seq::empty());
        assert(r@.flushes =~= Seq::empty());
        assert(r@.namespace_path =~= Seq::empty());
        assert(r@.non_zero_oracle_ids =~= Seq::empty());
        r
    }

    /// A builder for the prover: it holds an empty witness table.
    pub fn new_with_witness() -> (r: Self)
        ensures
            r@ == empty_builder(Some(Seq::empty())),
            r@.wf(),
    {
        let oracles = MultilinearOracleSet::new();
        let witness = crate::builder::witness::Builder::new();
        assert(witness@ =~= Seq::empty());
        let r = ConstraintSystemBuilder {
            oracles,
            constraints: Vec::new(),
            constraints_base: Vec::new(),
            non_zero_oracle_ids: Vec::new(),
            flushes: Vec::new(),
            witness: Some(witness),
            next_channel_id: 0,
            namespace_path: Vec::new(),
        };
        assert(r@.oracles.batches =~= Seq::empty());
        assert(r@.oracles.oracles =~= Seq::empty());
        assert(r@.constraints =~= Seq::empty());
        assert(r@.constraints_base =~= Seq::empty());
        assert(r@.flushes =~= Seq::empty());
        assert(r@.namespace_path =~= Seq::empty());
        assert(r@.non_zero_oracle_ids =~= Seq::empty());
        r
    }

    /// The oracle set built so far.
    pub fn oracles(&self) -> (r: &MultilinearOracleSet)
        ensures
            r@ == self@.oracles,
    {
        &self.oracles
    }

    /// The common number of variables of the given oracles.
    pub fn log_rows(&self, oracle_ids: &[OracleId]) -> (r: Result<usize, Error>)
        ensures
            r == log_rows_spec(self@.oracles.oracles, oracle_ids@),
    {
        let n: usize = oracle_ids.len();
        if n == 0 {
            return Err(Error::NoOracles);
        }
        let first: usize = oracle_ids[0];
        if !self.oracles.is_valid_oracle_id(first) {
            return Err(Error::Oracle(crate::oracle::Error::InvalidOracleId(first)));
        }
        let log_rows: usize = self.oracles.n_vars(first);
        let ghost views = self@.oracles.oracles;
        let mut k: usize = 0;
        while k < n
            invariant
                k <= n,
                n == oracle_ids@.len(),
                views == self.oracles@.oracles,
                views == self@.oracles.oracles,
                first == oracle_ids@[0],
                first < views.len(),
                log_rows == views[first as int].n_vars,
                tuple_defect(views, log_rows, oracle_ids@, k as nat) is None,
            decreases n - k,
        {
            let id: usize = oracle_ids[k];
            if !self.oracles.is_valid_oracle_id(id) {
                proof {
                    lemma_tuple_defect_stays(views, log_rows, oracle_ids@, (k + 1) as nat, n as nat);
                }
                return Err(Error::Oracle(crate::oracle::Error::InvalidOracleId(id)));
            }
            if self.oracles.n_vars(id) != log_rows {
                proof {
                    lemma_tuple_defect_stays(views, log_rows, oracle_ids@, (k + 1) as nat, n as nat);
                }
                return Err(
                    Error::Oracle(
                        crate::oracle::Error::IncorrectNumberOfVariables { expected: log_rows },
                    ),
                );
            }
            k += 1;
        }
        Ok(log_rows)
    }

    /// Finalizes the builder into the constraint system. Fails when a
    /// constraint names an oracle that does not exist or a variable that it
    /// has no oracle for.
    pub fn build(self) -> (r: Result<ConstraintSystem, Error>)
        requires
            self@.wf(),
        ensures
            match constraints_defect(
                self@.oracles.oracles.len(),
                self@.constraints,
                self@.constraints.len(),
            ) {
                Some(e) => r == Err::<ConstraintSystem, Error>(e),
                None => {
                    &&& r is Ok
                    &&& r->Ok_0.oracles@ == self@.oracles
                    &&& constraint_views(r->Ok_0.table_constraints@) == self@.constraints
                    &&& constraint_views(r->Ok_0.table_constraints_base@) == self@.constraints
                    &&& r->Ok_0.non_zero_oracle_ids@ == self@.non_zero_oracle_ids
                    &&& flush_views(r->Ok_0.flushes@) == self@.flushes
                    &&& r->Ok_0.max_channel_id == max_channel_id(self@.flushes)
                },
            },
    {
        let n_oracles: usize = self.oracles.size();
        let n: usize = self.constraints.len();
        let ghost views = self@.constraints;
        let mut k: usize = 0;
        while k < n
            invariant
                k <= n,
                n == self.constraints@.len(),
                n_oracles == self@.oracles.oracles.len(),
                views == constraint_views(self.constraints@),
                constraints_defect(n_oracles as nat, views, k as nat) is None,
            decreases n - k,
        {
            let c = &self.constraints[k];
            let m: usize = c.oracle_ids.len();
            let mut j: usize = 0;
            while j < m
                invariant
                    j <= m,
                    k < n,
                    n == self.constraints@.len(),
                    n_oracles == self@.oracles.oracles.len(),
                    views == self@.constraints,
                    *c == self.constraints@[k as int],
                    views == constraint_views(self.constraints@),
                    constraints_defect(n_oracles as nat, views, k as nat) is None,
                    m == c.oracle_ids@.len(),
                    first_invalid_id(c.oracle_ids@, n_oracles as nat, j as nat) is None,
                decreases m - j,
            {
                let id: usize = c.oracle_ids[j];
                if id >= n_oracles {
                    proof {
                        let cv = views[k as int];
                        assert(cv.oracle_ids == c.oracle_ids@);
                        lemma_first_invalid_id_stays(
                            c.oracle_ids@,
                            n_oracles as nat,
                            (j + 1) as nat,
                            m as nat,
                        );
                        lemma_constraints_defect_stays(
                            n_oracles as nat,
                            views,
                            (k + 1) as nat,
                            n as nat,
                        );
                    }
                    return Err(Error::Oracle(crate::oracle::Error::InvalidOracleId(id)));
                }
                j += 1;
            }
            if !c.composition.has_vars_below(m) {
                proof {
                    let cv = views[k as int];
                    assert(cv.oracle_ids == c.oracle_ids@);
                    lemma_constraints_defect_stays(
                        n_oracles as nat,
                        views,
                        (k + 1) as nat,
                        n as nat,
                    );
                }
                return Err(Error::InvalidComposition { index: k });
            }
            proof {
                let cv = views[k as int];
                assert(cv.oracle_ids == c.oracle_ids@);
            }
            k += 1;
        }
        let n_flushes: usize = self.flushes.len();
        let mut max_id: usize = 0;
        let mut f: usize = 0;
        let ghost fviews = self@.flushes;
        while f < n_flushes
            invariant
                f <= n_flushes,
                n_flushes == self.flushes@.len(),
                fviews == flush_views(self.flushes@),
                max_id == max_channel_id(fviews.subrange(0, f as int)),
            decreases n_flushes - f,
        {
            proof {
                assert(fviews.subrange(0, f + 1).drop_last() =~= fviews.subrange(0, f as int));
            }
            if self.flushes[f].channel_id > max_id {
                max_id = self.flushes[f].channel_id;
            }
            f += 1;
        }
        proof {
            assert(fviews.subrange(0, n_flushes as int) =~= fviews);
        }
        Ok(
            ConstraintSystem {
                max_channel_id: max_id,
                table_constraints: self.constraints,
                table_constraints_base: self.constraints_base,
                non_zero_oracle_ids: self.non_zero_oracle_ids,
                oracles: self.oracles,
                flushes: self.flushes,
            },
        )
    }

    /// The witness table, when the builder runs for the prover.
    pub fn witness(&mut self) -> (r: Option<&mut crate::builder::witness::Builder>)
        ensures
            match r {
                Some(w) => old(self)@.witness == Some(w@)
                    && final(self)@ == old(self)@.with_witness(final(w)@),
                None => old(self)@.witness is None && final(self)@ == old(self)@,
            },
    {
        match &mut self.witness {
            Some(w) => Some(w),
            None => None,
        }
    }

    /// Whether the builder runs for the prover.
    pub fn has_witness(&self) -> (r: bool)
        ensures
            r == self@.witness is Some,
    {
        self.witness.is_some()
    }

    /// Takes the witness out of the builder, frozen into the index that the
    /// prover consumes. It can be taken once.
    pub fn take_witness(&mut self) -> (r: Option<MultilinearExtensionIndex>)
        requires
            old(self)@.witness is Some,
        ensures
            r is Some,
            r->0@ == old(self)@.witness->0,
            final(self)@ == (BuilderView { witness: None, ..old(self)@ }),
    {
        let mut taken: Option<crate::builder::witness::Builder> = None;
        core::mem::swap(&mut self.witness, &mut taken);
        match taken.unwrap().build() {
            Ok(index) => Some(index),
            Err(_) => None,
        }
    }

    /// Records a flush of the first `count` rows of the given oracles.
    pub fn flush(
        &mut self,
        direction: FlushDirection,
        channel_id: ChannelId,
        count: usize,
        oracle_ids: Vec<OracleId>,
    ) -> (r: Result<(), Error>)
        ensures
            r == old(self)@.flush_check(count, oracle_ids@),
            final(self)@ == if r is Ok {
                old(self)@.with_flush(
                    FlushView { channel_id, direction, oracles: oracle_ids@, count },
                )
            } else {
                old(self)@
            },
    {
        let log_rows: usize = match self.log_rows(oracle_ids.as_slice()) {
            Ok(n) => n,
            Err(e) => {
                return Err(e);
            },
        };
        if count > 0 && !crate::util::below_pow2(count - 1, log_rows) {
            return Err(Error::FlushCountExceedsRows { count, log_rows });
        }
        let flush = Flush { channel_id, direction, oracles: oracle_ids, count };
        self.flushes.push(flush);
        assert(flush_views(self.flushes@) =~= flush_views(old(self).flushes@).push(flush@));
        Ok(())
    }

    /// Records a flush of every row of the given oracles.
    fn flush_all(
        &mut self,
        direction: FlushDirection,
        channel_id: ChannelId,
        oracle_ids: Vec<OracleId>,
    ) -> (r: Result<(), Error>)
        ensures
            match old(self)@.flush_all_check(oracle_ids@) {
                Ok(count) => r == Ok::<(), Error>(()) && final(self)@ == old(self)@.with_flush(
                    FlushView { channel_id, direction, oracles: oracle_ids@, count },
                ),
                Err(e) => r == Err::<(), Error>(e) && final(self)@ == old(self)@,
            },
    {
        let log_rows: usize = match self.log_rows(oracle_ids.as_slice()) {
            Ok(n) => n,
            Err(e) => {
                return Err(e);
            },
        };
        let count: usize = match checked_pow2(log_rows) {
            Some(c) => c,
            None => {
                return Err(Error::Oracle(crate::oracle::Error::TooManyVariables));
            },
        };
        let flush = Flush { channel_id, direction, oracles: oracle_ids, count };
        self.flushes.push(flush);
        assert(flush_views(self.flushes@) =~= flush_views(old(self).flushes@).push(flush@));
        Ok(())
    }

    /// Records that every row of the given oracles is pushed into the
    /// channel. The oracles must share their number of variables.
    pub fn send(&mut self, channel_id: ChannelId, oracle_ids: Vec<OracleId>) -> (r: Result<
        (),
        Error,
    >)
        ensures
            match old(self)@.flush_all_check(oracle_ids@) {
                Ok(count) => r == Ok::<(), Error>(()) && final(self)@ == old(self)@.with_flush(
                    FlushView {
                        channel_id,
                        direction: FlushDirection::Push,
                        oracles: oracle_ids@,
                        count,
                    },
                ),
                Err(e) => r == Err::<(), Error>(e) && final(self)@ == old(self)@,
            },
    {
        self.flush_all(FlushDirection::Push, channel_id, oracle_ids)
    }

    /// Records that every row of the given oracles is pulled from the
    /// channel. The oracles must share their number of variables.
    pub fn receive(&mut self, channel_id: ChannelId, oracle_ids: Vec<OracleId>) -> (r: Result<
        (),
        Error,
    >)
        ensures
            match old(self)@.flush_all_check(oracle_ids@) {
                Ok(count) => r == Ok::<(), Error>(()) && final(self)@ == old(self)@.with_flush(
                    FlushView {
                        channel_id,
                        direction: FlushDirection::Pull,
                        oracles: oracle_ids@,
                        count,
                    },
                ),
                Err(e) => r == Err::<(), Error>(e) && final(self)@ == old(self)@,
            },
    {
        self.flush_all(FlushDirection::Pull, channel_id, oracle_ids)
    }

    /// Registers the zero-check constraint that `composition` vanishes on
    /// every row of the given oracles, in the full and in the base set.
    pub fn assert_zero(&mut self, oracle_ids: Vec<OracleId>, composition: ArithExpr)
        ensures
            final(self)@ == old(self)@.with_constraint(
                ConstraintView { oracle_ids: oracle_ids@, composition },
            ),
    {
        let ids_base = oracle_ids.clone();
        let base = Constraint { oracle_ids: ids_base, composition: composition.duplicate() };
        let full = Constraint { oracle_ids, composition };
        assert(base@ == full@);
        self.constraints_base.push(base);
        self.constraints.push(full);
        assert(constraint_views(self.constraints@) =~= constraint_views(
            old(self).constraints@,
        ).push(full@));
        assert(constraint_views(self.constraints_base@) =~= constraint_views(
            old(self).constraints_base@,
        ).push(full@));
    }

    /// Registers the assertion that the oracle is non-zero on every row.
    pub fn assert_not_zero(&mut self, oracle_id: OracleId)
        ensures
            final(self)@ == (BuilderView {
                non_zero_oracle_ids: old(self)@.non_zero_oracle_ids.push(oracle_id),
                ..old(self)@
            }),
    {
        self.non_zero_oracle_ids.push(oracle_id);
    }

    /// Allocates the next channel.
    pub fn add_channel(&mut self) -> (r: ChannelId)
        requires
            old(self)@.next_channel_id < usize::MAX,
        ensures
            r == old(self)@.next_channel_id,
            final(self)@ == (BuilderView { next_channel_id: (r + 1) as usize, ..old(self)@ }),
    {
        let channel_id: usize = self.next_channel_id;
        self.next_channel_id += 1;
        channel_id
    }

    /// The batch of the given shape: the existing one, or a new one.
    fn get_or_create_batch_id(&mut self, n_vars: usize, tower_level: usize) -> (r: usize)
        requires
            old(self)@.wf(),
        ensures
            final(self)@ == old(self)@.with_batch(n_vars, tower_level),
            r == old(self)@.batch_of(n_vars, tower_level),
            r < final(self)@.oracles.batches.len(),
            final(self)@.oracles.batches[r as int] == (CommittedBatch { n_vars, tower_level }),
            final(self)@.wf(),
    {
        reveal(BuilderView::has_batch);
        reveal(BuilderView::batch_of);
        let n: usize = self.oracles.n_batches();
        let mut k: usize = 0;
        while k < n
            invariant
                k <= n,
                n == self.oracles@.batches.len(),
                self@ == old(self)@,
                self@.wf(),
                forall|j: int|
                    0 <= j < k ==> self.oracles@.batches[j] != (CommittedBatch {
                        n_vars,
                        tower_level,
                    }),
            decreases n - k,
        {
            let batch = self.oracles.committed_batch(k);
            if batch.n_vars == n_vars && batch.tower_level == tower_level {
                proof {
                    reveal(BuilderView::has_batch);
                    reveal(BuilderView::batch_of);
                    let b = old(self)@;
                    assert(b.oracles.batches[k as int] == (CommittedBatch { n_vars, tower_level }));
                    assert(b.has_batch(n_vars, tower_level));
                    let w = b.batch_of(n_vars, tower_level);
                    if w != k {
                        if w < k {
                            assert(b.oracles.batches[w as int] != b.oracles.batches[k as int]);
                        } else {
                            assert(b.oracles.batches[k as int] != b.oracles.batches[w as int]);
                        }
                    }
                }
                return k;
            }
            k += 1;
        }
        assert(!old(self)@.has_batch(n_vars, tower_level)) by {
            reveal(BuilderView::has_batch);
        }
        self.oracles.add_committed_batch(n_vars, tower_level)
    }

    /// Declares a committed oracle. Committed oracles of one shape share one
    /// batch.
    pub fn add_committed(&mut self, name: &str, n_vars: usize, tower_level: usize) -> (r: OracleId)
        requires
            old(self)@.wf(),
        ensures
            r == old(self)@.next_oracle_id(),
            final(self)@ == old(self)@.with_committed(name@, n_vars, tower_level),
            final(self)@.wf(),
            old(self)@.committed(name@, n_vars, tower_level).n_vars == n_vars,
            old(self)@.committed(name@, n_vars, tower_level).tower_level == tower_level,
            final(self)@.oracles.oracles == old(self)@.oracles.oracles.push(
                old(self)@.committed(name@, n_vars, tower_level),
            ),
    {
        let batch_id = self.get_or_create_batch_id(n_vars, tower_level);
        let full_name = scoped_name(&self.namespace_path, name);
        self.oracles.add_committed(full_name, batch_id)
    }

    /// The name of the `i`-th of several committed oracles declared at once.
    pub open spec fn numbered_name(name: Seq<char>, i: nat) -> Seq<char> {
        name + seq!['_'] + decimal(i)
    }

    /// Declares `N` committed oracles of one shape, named `name_0`,
    /// `name_1` and so on.
    pub fn add_committed_multiple<const N: usize>(
        &mut self,
        name: &str,
        n_vars: usize,
        tower_level: usize,
    ) -> (r: [OracleId; N])
        requires
            old(self)@.wf(),
        ensures
            final(self)@.wf(),
            forall|i: int| 0 <= i < N ==> r[i] == old(self)@.next_oracle_id() + i,
            final(self)@ == (BuilderView {
                oracles: OracleSetView {
                    batches: old(self)@.with_batch(n_vars, tower_level).oracles.batches,
                    oracles: old(self)@.oracles.oracles + Seq::new(
                        N as nat,
                        |i: int|
                            old(self)@.committed(
                                Self::numbered_name(name@, i as nat),
                                n_vars,
                                tower_level,
                            ),
                    ),
                },
                ..old(self)@
            }),
    {
        let batch_id = self.get_or_create_batch_id(n_vars, tower_level);
        let mut ids = [0usize; N];
        let mut prefix = String::from_str(name);
        prefix.append("_");
        proof {
            reveal_strlit("_");
            assert("_"@ =~= seq!['_']);
        }
        let ghost start = old(self)@.with_batch(n_vars, tower_level);
        let mut i: usize = 0;
        while i < N
            invariant
                i <= N,
                self@.wf(),
                prefix@ == name@ + seq!['_'],
                batch_id == old(self)@.batch_of(n_vars, tower_level),
                batch_id < start.oracles.batches.len(),
                start == old(self)@.with_batch(n_vars, tower_level),
                forall|k: int| 0 <= k < i ==> ids[k] == old(self)@.next_oracle_id() + k,
                self@ == (BuilderView {
                    oracles: OracleSetView {
                        batches: start.oracles.batches,
                        oracles: old(self)@.oracles.oracles + Seq::new(
                            i as nat,
                            |k: int|
                                old(self)@.committed(
                                    Self::numbered_name(name@, k as nat),
                                    n_vars,
                                    tower_level,
                                ),
                        ),
                    },
                    ..old(self)@
                }),
            decreases N - i,
        {
            let numbered_name = numbered(prefix.as_str(), i);
            let full_name = scoped_name(&self.namespace_path, numbered_name.as_str());
            let ghost before = self@;
            let id = self.oracles.add_committed(full_name, batch_id);
            ids[i] = id;
            proof {
                let appended = Seq::new(
                    i as nat,
                    |k: int|
                        old(self)@.committed(
                            Self::numbered_name(name@, k as nat),
                            n_vars,
                            tower_level,
                        ),
                );
                let appended_next = Seq::new(
                    (i + 1) as nat,
                    |k: int|
                        old(self)@.committed(
                            Self::numbered_name(name@, k as nat),
                            n_vars,
                            tower_level,
                        ),
                );
                assert(old(self)@.oracles.oracles + appended_next =~= (old(self)@.oracles.oracles
                    + appended).push(
                    old(self)@.committed(Self::numbered_name(name@, i as nat), n_vars, tower_level),
                ));
            }
            i += 1;
        }
        ids
    }

    /// Declares the oracle `sum of coeff_i * oracle_i`.
    pub fn add_linear_combination(
        &mut self,
        name: &str,
        n_vars: usize,
        inner: Vec<(OracleId, u128)>,
    ) -> (r: Result<OracleId, crate::oracle::Error>)
        requires
            old(self)@.wf(),
        ensures
            final(self)@.wf(),
            match combination_defect(old(self)@.oracles.oracles, n_vars, inner@, inner@.len()) {
                Some(e) => r == Err::<OracleId, crate::oracle::Error>(e) && final(self)@ == old(self)@,
                None => r == Ok::<OracleId, crate::oracle::Error>(old(self)@.next_oracle_id())
                    && final(self)@ == old(self)@.with_oracle(
                    old(self)@.oracles.linear_combination(old(self)@.named(name@), n_vars, 0, inner@),
                ),
            },
    {
        let full_name = scoped_name(&self.namespace_path, name);
        self.oracles.add_linear_combination(full_name, n_vars, inner)
    }

    /// Declares the oracle `offset + sum of coeff_i * oracle_i`.
    pub fn add_linear_combination_with_offset(
        &mut self,
        name: &str,
        n_vars: usize,
        offset: u128,
        inner: Vec<(OracleId, u128)>,
    ) -> (r: Result<OracleId, crate::oracle::Error>)
        requires
            old(self)@.wf(),
        ensures
            final(self)@.wf(),
            match combination_defect(old(self)@.oracles.oracles, n_vars, inner@, inner@.len()) {
                Some(e) => r == Err::<OracleId, crate::oracle::Error>(e) && final(self)@ == old(self)@,
                None => r == Ok::<OracleId, crate::oracle::Error>(old(self)@.next_oracle_id())
                    && final(self)@ == old(self)@.with_oracle(
                    old(self)@.oracles.linear_combination(
                        old(self)@.named(name@),
                        n_vars,
                        offset,
                        inner@,
                    ),
                ),
            },
    {
        let full_name = scoped_name(&self.namespace_path, name);
        self.oracles.add_linear_combination_with_offset(full_name, n_vars, offset, inner)
    }

    /// Declares the oracle that packs `2^log_degree` rows of oracle `id`
    /// into one.
    pub fn add_packed(&mut self, name: &str, id: OracleId, log_degree: usize) -> (r: Result<
        OracleId,
        crate::oracle::Error,
    >)
        requires
            old(self)@.wf(),
        ensures
            final(self)@.wf(),
            match old(self)@.oracles.packed_defect(id, log_degree) {
                Some(e) => r == Err::<OracleId, crate::oracle::Error>(e) && final(self)@ == old(self)@,
                None => r == Ok::<OracleId, crate::oracle::Error>(old(self)@.next_oracle_id())
                    && final(self)@ == old(self)@.with_oracle(
                    old(self)@.oracles.packed(old(self)@.named(name@), id, log_degree),
                ),
            },
    {
        let full_name = scoped_name(&self.namespace_path, name);
        self.oracles.add_packed(full_name, id, log_degree)
    }

    /// Declares the oracle that fixes the first or last variables of oracle
    /// `id` to the given values.
    pub fn add_projected(
        &mut self,
        name: &str,
        id: OracleId,
        values: Vec<u128>,
        variant: ProjectionVariant,
    ) -> (r: Result<OracleId, crate::oracle::Error>)
        requires
            old(self)@.wf(),
        ensures
            final(self)@.wf(),
            match old(self)@.oracles.projected_defect(id, values@) {
                Some(e) => r == Err::<OracleId, crate::oracle::Error>(e) && final(self)@ == old(self)@,
                None => r == Ok::<OracleId, crate::oracle::Error>(old(self)@.next_oracle_id())
                    && final(self)@ == old(self)@.with_oracle(
                    old(self)@.oracles.projected(old(self)@.named(name@), id, values@, variant),
                ),
            },
    {
        let full_name = scoped_name(&self.namespace_path, name);
        self.oracles.add_projected(full_name, id, values, variant)
    }

    /// Declares the oracle that repeats oracle `id` `2^log_count` times.
    pub fn add_repeating(&mut self, name: &str, id: OracleId, log_count: usize) -> (r: Result<
        OracleId,
        crate::oracle::Error,
    >)
        requires
            old(self)@.wf(),
        ensures
            final(self)@.wf(),
            match old(self)@.oracles.repeating_defect(id, log_count) {
                Some(e) => r == Err::<OracleId, crate::oracle::Error>(e) && final(self)@ == old(self)@,
                None => r == Ok::<OracleId, crate::oracle::Error>(old(self)@.next_oracle_id())
                    && final(self)@ == old(self)@.with_oracle(
                    old(self)@.oracles.repeating(old(self)@.named(name@), id, log_count),
                ),
            },
    {
        let full_name = scoped_name(&self.namespace_path, name);
        self.oracles.add_repeating(full_name, id, log_count)
    }

    /// Declares the oracle that shifts oracle `id` by `offset` rows within
    /// each block of `2^block_bits` rows.
    pub fn add_shifted(
        &mut self,
        name: &str,
        id: OracleId,
        offset: usize,
        block_bits: usize,
        variant: ShiftVariant,
    ) -> (r: Result<OracleId, crate::oracle::Error>)
        requires
            old(self)@.wf(),
        ensures
            final(self)@.wf(),
            match old(self)@.oracles.shifted_defect(id, offset, block_bits) {
                Some(e) => r == Err::<OracleId, crate::oracle::Error>(e) && final(self)@ == old(self)@,
                None => r == Ok::<OracleId, crate::oracle::Error>(old(self)@.next_oracle_id())
                    && final(self)@ == old(self)@.with_oracle(
                    old(self)@.oracles.shifted(
                        old(self)@.named(name@),
                        id,
                        offset,
                        block_bits,
                        variant,
                    ),
                ),
            },
    {
        let full_name = scoped_name(&self.namespace_path, name);
        self.oracles.add_shifted(full_name, id, offset, block_bits, variant)
    }

    /// Declares the oracle of a transparent polynomial.
    pub fn add_transparent(&mut self, name: &str, poly: Transparent) -> (r: Result<
        OracleId,
        crate::oracle::Error,
    >)
        requires
            old(self)@.wf(),
        ensures
            final(self)@.wf(),
            match poly@.defect() {
                Some(e) => r == Err::<OracleId, crate::oracle::Error>(e) && final(self)@ == old(self)@,
                None => r == Ok::<OracleId, crate::oracle::Error>(old(self)@.next_oracle_id())
                    && final(self)@ == old(self)@.with_oracle(
                    old(self)@.oracles.transparent(old(self)@.named(name@), poly@),
                ),
            },
    {
        let full_name = scoped_name(&self.namespace_path, name);
        self.oracles.add_transparent(full_name, poly)
    }

    /// Declares the oracle that extends oracle `id` to `n_vars` variables
    /// with zero rows.
    pub fn add_zero_padded(&mut self, name: &str, id: OracleId, n_vars: usize) -> (r: Result<
        OracleId,
        crate::oracle::Error,
    >)
        requires
            old(self)@.wf(),
        ensures
            final(self)@.wf(),
            match old(self)@.oracles.zero_padded_defect(id, n_vars) {
                Some(e) => r == Err::<OracleId, crate::oracle::Error>(e) && final(self)@ == old(self)@,
                None => r == Ok::<OracleId, crate::oracle::Error>(old(self)@.next_oracle_id())
                    && final(self)@ == old(self)@.with_oracle(
                    old(self)@.oracles.zero_padded(old(self)@.named(name@), id, n_vars),
                ),
            },
    {
        let full_name = scoped_name(&self.namespace_path, name);
        self.oracles.add_zero_padded(full_name, id, n_vars)
    }

    /// The display name of `name` in the current namespace.
    pub fn scoped_name(&self, name: &str) -> (r: String)
        ensures
            r@ == self@.named(name@),
    {
        scoped_name(&self.namespace_path, name)
    }

    /// Enters a namespace: what is pushed becomes part of the names of the
    /// oracles declared until it is popped.
    pub fn push_namespace(&mut self, name: &str)
        ensures
            final(self)@ == old(self)@.with_namespace(name@),
    {
        self.namespace_path.push(String::from_str(name));
        assert(path_view(self.namespace_path@) =~= path_view(old(self).namespace_path@).push(
            name@,
        ));
    }

    /// Leaves the innermost namespace, if there is one.
    pub fn pop_namespace(&mut self)
        ensures
            final(self)@ == old(self)@.without_namespace(),
    {
        self.namespace_path.pop();
        assert(self@.namespace_path =~= old(self)@.without_namespace().namespace_path);
    }
}

/// Why a column of the given shape cannot be allocated, if the builder holds
/// a witness and it cannot.
pub open spec fn column_defect(b: BuilderView, log_rows: usize, tower_level: usize) -> Option<
    Error,
> {
    if b.witness is Some && column_len(log_rows, tower_level) > usize::MAX {
        Some(Error::ColumnTooLarge { log_rows, tower_level })
    } else {
        None
    }
}

/// The first defect of two, in order.
pub open spec fn first_defect(a: Option<Error>, b: Option<Error>) -> Option<Error> {
    match a {
        Some(e) => Some(e),
        None => b,
    }
}

/// The builder with the given column stored, if it holds a witness.
pub open spec fn with_column(b: BuilderView, id: OracleId, entry: EntryView) -> BuilderView {
    match b.witness {
        Some(table) => b.with_witness(table_with(table, id, entry)),
        None => b,
    }
}

} // verus!
