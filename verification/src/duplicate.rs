//! Deep copies of expressions and plans.
use crate::colset::copy_of;
use crate::ir::{
    assignments_model, exprs_model, lemma_assignments_model, lemma_exprs_model, Expr, RelExpr,
};
use vstd::prelude::*;

verus! {

/// A copy of a list of column identifiers.
fn copy_ids(v: &Vec<usize>) -> (out: Vec<usize>)
    ensures
        out@ == v@,
{
    let mut out: Vec<usize> = Vec::new();
    let mut i: usize = 0;
    while i < v.len()
        invariant
            i <= v.len(),
            out@ == v@.take(i as int),
        decreases v.len() - i,
    {
        out.push(v[i]);
        assert(out@ =~= v@.take(i + 1));
        i += 1;
    }
    assert(v@.take(v.len() as int) =~= v@);
    out
}

/// A copy of a list of expressions.
fn copy_exprs(v: &Vec<Expr>) -> (out: Vec<Expr>)
    ensures
        exprs_model(out@) == exprs_model(v@),
    decreases v,
{
    let mut out: Vec<Expr> = Vec::new();
    let mut i: usize = 0;
    while i < v.len()
        invariant
            i <= v.len(),
            out.len() == i,
            forall|j: int| 0 <= j < i ==> (#[trigger] out@[j])@ == v@[j]@,
        decreases v.len() - i,
    {
        let e = v[i].deep_copy();
        out.push(e);
        i += 1;
    }
    proof {
        lemma_exprs_model(out@);
        lemma_exprs_model(v@);
        assert(exprs_model(out@) =~= exprs_model(v@));
    }
    out
}

/// A copy of a list of assignments.
fn copy_assignments(v: &Vec<(usize, Expr)>) -> (out: Vec<(usize, Expr)>)
    ensures
        assignments_model(out@) == assignments_model(v@),
    decreases v,
{
    let mut out: Vec<(usize, Expr)> = Vec::new();
    let mut i: usize = 0;
    while i < v.len()
        invariant
            i <= v.len(),
            out.len() == i,
            forall|j: int|
                0 <= j < i ==> (#[trigger] out@[j]).0 == v@[j].0 && out@[j].1@ == v@[j].1@,
        decreases v.len() - i,
    {
        let e = v[i].1.deep_copy();
        out.push((v[i].0, e));
        i += 1;
    }
    proof {
        lemma_assignments_model(out@);
        lemma_assignments_model(v@);
        assert(assignments_model(out@) =~= assignments_model(v@));
    }
    out
}

impl Expr {
    /// A copy of the expression that shares nothing with it.
    pub(crate) fn deep_copy(&self) -> (out: Expr)
        ensures
            out@ == self@,
        decreases self,
    {
        match self {
            Expr::ColRef { id } => Expr::ColRef { id: *id },
            Expr::Int { val } => Expr::Int { val: *val },
            Expr::Eq { left, right } => Expr::Eq {
                left: Box::new(left.deep_copy()),
                right: Box::new(right.deep_copy()),
            },
            Expr::Plus { left, right } => Expr::Plus {
                left: Box::new(left.deep_copy()),
                right: Box::new(right.deep_copy()),
            },
            Expr::Subquery { expr } => Expr::Subquery { expr: Box::new(expr.deep_copy()) },
        }
    }
}

impl RelExpr {
    /// A copy of the plan that shares nothing with it.
    pub(crate) fn deep_copy(&self) -> (out: RelExpr)
        ensures
            out@ == self@,
        decreases self,
    {
        match self {
            RelExpr::Scan { table_name, column_names } => RelExpr::Scan {
                table_name: table_name.clone(),
                column_names: copy_ids(column_names),
            },
            RelExpr::Select { src, predicates } => RelExpr::Select {
                src: Box::new(src.deep_copy()),
                predicates: copy_exprs(predicates),
            },
            RelExpr::Join { left, right, predicates } => RelExpr::Join {
                left: Box::new(left.deep_copy()),
                right: Box::new(right.deep_copy()),
                predicates: copy_exprs(predicates),
            },
            RelExpr::Project { src, cols } => RelExpr::Project {
                src: Box::new(src.deep_copy()),
                cols: copy_of(cols),
            },
            RelExpr::MapCols { input, exprs } => RelExpr::MapCols {
                input: Box::new(input.deep_copy()),
                exprs: copy_assignments(exprs),
            },
            RelExpr::FlatMap { input, func } => RelExpr::FlatMap {
                input: Box::new(input.deep_copy()),
                func: Box::new(func.deep_copy()),
            },
        }
    }
}

impl Clone for Expr {
    fn clone(&self) -> (out: Expr)
        ensures
            out@ == self@,
    {
        self.deep_copy()
    }
}

impl Clone for RelExpr {
    fn clone(&self) -> (out: RelExpr)
        ensures
            out@ == self@,
    {
        self.deep_copy()
    }
}

} // verus!
