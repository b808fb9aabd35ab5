//! The intermediate representation: scalar expressions and relational
//! plans.
//!
//! Both come twice. [`Expr`] and [`RelExpr`] are the owned trees that
//! programs build and hand to the constructors. [`SpecExpr`] and
//! [`SpecRel`] are the mathematical trees that the contracts speak of: the
//! same shapes over sequences and sets. The view of an owned tree is the
//! mathematical tree that it stands for.
//!
//! Columns are named by identifiers, which a session's
//! [`State`](crate::state::State) hands out.
use std::collections::HashSet;
use vstd::prelude::*;

verus! {

/// A scalar expression, as a mathematical tree.
pub enum SpecExpr {
    /// The value of column `id` of the enclosing plan.
    ColRef { id: usize },
    /// The constant `val`.
    Int { val: i64 },
    /// Whether the two operands are equal.
    Eq { left: Box<SpecExpr>, right: Box<SpecExpr> },
    /// The sum of the two operands.
    Plus { left: Box<SpecExpr>, right: Box<SpecExpr> },
    /// The single value that `plan` yields.
    Subquery { plan: Box<SpecRel> },
}

/// A relational plan, as a mathematical tree.
pub enum SpecRel {
    /// The rows of a table, under the columns `column_names`.
    Scan { table_name: Seq<char>, column_names: Seq<usize> },
    /// The rows of `src` that meet every predicate.
    Select { src: Box<SpecRel>, predicates: Seq<SpecExpr> },
    /// The pairs of rows of `left` and `right` that meet every predicate.
    Join { left: Box<SpecRel>, right: Box<SpecRel>, predicates: Seq<SpecExpr> },
    /// The rows of `src`, cut down to the columns `cols`.
    Project { src: Box<SpecRel>, cols: Set<usize> },
    /// The rows of `input`, with a new column for each assignment of an
    /// identifier to an expression.
    MapCols { input: Box<SpecRel>, exprs: Seq<(usize, SpecExpr)> },
    /// The dependent join: for each row of `input`, the rows of `func`,
    /// which may refer to the columns of `input`.
    FlatMap { input: Box<SpecRel>, func: Box<SpecRel> },
}

/// A scalar expression.
#[derive(Debug, PartialEq, Eq)]
pub enum Expr {
    /// The value of column `id` of the enclosing plan.
    ColRef { id: usize },
    /// The constant `val`.
    Int { val: i64 },
    /// Whether the two operands are equal.
    Eq { left: Box<Expr>, right: Box<Expr> },
    /// The sum of the two operands.
    Plus { left: Box<Expr>, right: Box<Expr> },
    /// The single value that the plan `expr` yields.
    Subquery { expr: Box<RelExpr> },
}

/// A relational plan.
#[derive(Debug, PartialEq, Eq)]
pub enum RelExpr {
    /// The rows of a table, under the columns `column_names`.
    Scan { table_name: String, column_names: Vec<usize> },
    /// The rows of `src` that meet every predicate.
    Select { src: Box<RelExpr>, predicates: Vec<Expr> },
    /// The pairs of rows of `left` and `right` that meet every predicate.
    Join { left: Box<RelExpr>, right: Box<RelExpr>, predicates: Vec<Expr> },
    /// The rows of `src`, cut down to the columns `cols`.
    Project { src: Box<RelExpr>, cols: HashSet<usize> },
    /// The rows of `input`, with a new column for each assignment of an
    /// identifier to an expression.
    MapCols { input: Box<RelExpr>, exprs: Vec<(usize, Expr)> },
    /// The dependent join: for each row of `input`, the rows of `func`,
    /// which may refer to the columns of `input`.
    FlatMap { input: Box<RelExpr>, func: Box<RelExpr> },
}

impl Expr {
    /// The mathematical expression that this value stands for.
    pub open spec fn model(&self) -> SpecExpr
        decreases self,
    {
        match self {
            Expr::ColRef { id } => SpecExpr::ColRef { id: *id },
            Expr::Int { val } => SpecExpr::Int { val: *val },
            Expr::Eq { left, right } => SpecExpr::Eq {
                left: Box::new(left.model()),
                right: Box::new(right.model()),
            },
            Expr::Plus { left, right } => SpecExpr::Plus {
                left: Box::new(left.model()),
                right: Box::new(right.model()),
            },
            Expr::Subquery { expr } => SpecExpr::Subquery { plan: Box::new(expr.model()) },
        }
    }
}

impl RelExpr {
    /// The mathematical plan that this value stands for.
    pub open spec fn model(&self) -> SpecRel
        decreases self,
    {
        match self {
            RelExpr::Scan { table_name, column_names } => SpecRel::Scan {
                table_name: table_name@,
                column_names: column_names@,
            },
            RelExpr::Select { src, predicates } => SpecRel::Select {
                src: Box::new(src.model()),
                predicates: exprs_model(predicates@),
            },
            RelExpr::Join { left, right, predicates } => SpecRel::Join {
                left: Box::new(left.model()),
                right: Box::new(right.model()),
                predicates: exprs_model(predicates@),
            },
            RelExpr::Project { src, cols } => SpecRel::Project {
                src: Box::new(src.model()),
                cols: cols@,
            },
            RelExpr::MapCols { input, exprs } => SpecRel::MapCols {
                input: Box::new(input.model()),
                exprs: assignments_model(exprs@),
            },
            RelExpr::FlatMap { input, func } => SpecRel::FlatMap {
                input: Box::new(input.model()),
                func: Box::new(func.model()),
            },
        }
    }
}

/// The mathematical expressions that a list of expressions stands for.
pub open spec fn exprs_model(v: Seq<Expr>) -> Seq<SpecExpr>
    decreases v,
{
    Seq::new(
        v.len(),
        |i: int|
            if 0 <= i < v.len() {
                v[i].model()
            } else {
                arbitrary()
            },
    )
}

/// The mathematical assignments that a list of assignments stands for.
pub open spec fn assignments_model(v: Seq<(usize, Expr)>) -> Seq<(usize, SpecExpr)>
    decreases v,
{
    Seq::new(
        v.len(),
        |i: int|
            if 0 <= i < v.len() {
                (v[i].0, v[i].1.model())
            } else {
                arbitrary()
            },
    )
}

/// What `exprs_model` holds, position by position.
pub proof fn lemma_exprs_model(v: Seq<Expr>)
    ensures
        exprs_model(v).len() == v.len(),
        forall|i: int| 0 <= i < v.len() ==> (#[trigger] exprs_model(v)[i]) == v[i]@,
{
}

/// What `assignments_model` holds, position by position.
pub proof fn lemma_assignments_model(v: Seq<(usize, Expr)>)
    ensures
        assignments_model(v).len() == v.len(),
        forall|i: int|
            0 <= i < v.len() ==> (#[trigger] assignments_model(v)[i]) == (v[i].0, v[i].1@),
{
}

impl View for Expr {
    type V = SpecExpr;

    open spec fn view(&self) -> SpecExpr {
        self.model()
    }
}

impl View for RelExpr {
    type V = SpecRel;

    open spec fn view(&self) -> SpecRel {
        self.model()
    }
}

} // verus!
