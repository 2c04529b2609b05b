//! Zero-check constraints: composition polynomials over tuples of oracles.

use crate::oracle::OracleId;
use vstd::prelude::*;

verus! {

/// A multivariate polynomial over the top field, as an expression tree.
/// Variable `i` stands for the `i`-th oracle of the constraint.
#[derive(Debug)]
pub enum ArithExpr {
    Const(u128),
    Var(usize),
    Add(Box<ArithExpr>, Box<ArithExpr>),
    Mul(Box<ArithExpr>, Box<ArithExpr>),
}

impl ArithExpr {
    /// Whether every variable of the expression has an index below `n`.
    pub open spec fn vars_below(self, n: nat) -> bool
        decreases self,
    {
        match self {
            ArithExpr::Const(_) => true,
            ArithExpr::Var(i) => i < n,
            ArithExpr::Add(a, b) => a.vars_below(n) && b.vars_below(n),
            ArithExpr::Mul(a, b) => a.vars_below(n) && b.vars_below(n),
        }
    }

    /// Whether every constant of the expression is zero or one.
    pub open spec fn is_binary(self) -> bool
        decreases self,
    {
        match self {
            ArithExpr::Const(c) => c <= 1,
            ArithExpr::Var(_) => true,
            ArithExpr::Add(a, b) => a.is_binary() && b.is_binary(),
            ArithExpr::Mul(a, b) => a.is_binary() && b.is_binary(),
        }
    }

    /// The value of a binary expression on 32 rows of one-bit columns at
    /// once: bit `k` of the result is the value of the expression on bits `k`
    /// of the variables. In the field of two elements, addition is exclusive
    /// or and multiplication is conjunction.
    pub open spec fn eval_u32(self, vars: Seq<u32>) -> u32
        decreases self,
    {
        match self {
            ArithExpr::Const(c) => if c == 0 {
                0
            } else {
                0xffff_ffff
            },
            ArithExpr::Var(i) => vars[i as int],
            ArithExpr::Add(a, b) => a.eval_u32(vars) ^ b.eval_u32(vars),
            ArithExpr::Mul(a, b) => a.eval_u32(vars) & b.eval_u32(vars),
        }
    }

    /// The value of a binary expression on 64 rows of one-bit columns at
    /// once.
    pub open spec fn eval_u64(self, vars: Seq<u64>) -> u64
        decreases self,
    {
        match self {
            ArithExpr::Const(c) => if c == 0 {
                0
            } else {
                0xffff_ffff_ffff_ffff
            },
            ArithExpr::Var(i) => vars[i as int],
            ArithExpr::Add(a, b) => a.eval_u64(vars) ^ b.eval_u64(vars),
            ArithExpr::Mul(a, b) => a.eval_u64(vars) & b.eval_u64(vars),
        }
    }

    /// The constant `c`.
    pub fn constant(c: u128) -> (r: Self)
        ensures
            r == ArithExpr::Const(c),
    {
        ArithExpr::Const(c)
    }

    /// The variable of index `i`.
    pub fn var(i: usize) -> (r: Self)
        ensures
            r == ArithExpr::Var(i),
    {
        ArithExpr::Var(i)
    }

    /// The sum of two expressions.
    pub fn plus(self, rhs: Self) -> (r: Self)
        ensures
            r == ArithExpr::Add(Box::new(self), Box::new(rhs)),
    {
        ArithExpr::Add(Box::new(self), Box::new(rhs))
    }

    /// The product of two expressions.
    pub fn times(self, rhs: Self) -> (r: Self)
        ensures
            r == ArithExpr::Mul(Box::new(self), Box::new(rhs)),
    {
        ArithExpr::Mul(Box::new(self), Box::new(rhs))
    }

    /// A copy of the expression.
    pub fn duplicate(&self) -> (r: Self)
        ensures
            r == *self,
        decreases *self,
    {
        match self {
            ArithExpr::Const(c) => ArithExpr::Const(*c),
            ArithExpr::Var(i) => ArithExpr::Var(*i),
            ArithExpr::Add(a, b) => ArithExpr::Add(
                Box::new(a.duplicate()),
                Box::new(b.duplicate()),
            ),
            ArithExpr::Mul(a, b) => ArithExpr::Mul(
                Box::new(a.duplicate()),
                Box::new(b.duplicate()),
            ),
        }
    }

    /// Whether every variable of the expression has an index below `n`.
    pub fn has_vars_below(&self, n: usize) -> (r: bool)
        ensures
            r == self.vars_below(n as nat),
        decreases *self,
    {
        match self {
            ArithExpr::Const(_) => true,
            ArithExpr::Var(i) => *i < n,
            ArithExpr::Add(a, b) => a.has_vars_below(n) && b.has_vars_below(n),
            ArithExpr::Mul(a, b) => a.has_vars_below(n) && b.has_vars_below(n),
        }
    }
}

/// The assertion that a composition of oracles is zero on every row.
#[derive(Debug)]
pub struct Constraint {
    pub oracle_ids: Vec<OracleId>,
    pub composition: ArithExpr,
}

/// The mathematical content of a [`Constraint`].
pub struct ConstraintView {
    pub oracle_ids: Seq<OracleId>,
    pub composition: ArithExpr,
}

impl View for Constraint {
    type V = ConstraintView;

    open spec fn view(&self) -> ConstraintView {
        ConstraintView { oracle_ids: self.oracle_ids@, composition: self.composition }
    }
}

/// The views of a sequence of constraints.
pub open spec fn constraint_views(s: Seq<Constraint>) -> Seq<ConstraintView> {
    s.map_values(|c: Constraint| c@)
}

} // verus!
