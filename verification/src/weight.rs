//! A measure of the rewriting work that a plan and an expression can cause.
//!
//! The rewriting constructors call each other on plans that they have just
//! built, so their recursion is not structural. The weights defined here
//! bound the result of each constructor by its arguments, which makes the
//! recursion well-founded.
use crate::filter::swap_removed;
use crate::ir::{SpecExpr, SpecRel};
use vstd::prelude::*;

verus! {

impl SpecExpr {
    /// A bound on the weight that hoisting the expression adds to the spine
    /// of the plan it is hoisted into.
    pub open spec fn hoist_weight(self) -> nat
        decreases self,
    {
        match self {
            SpecExpr::ColRef { .. } => 4,
            SpecExpr::Int { .. } => 4,
            SpecExpr::Eq { .. } => 1,
            SpecExpr::Plus { left, right } => left.hoist_weight() + right.hoist_weight() + 6,
            SpecExpr::Subquery { plan } => plan.spine_weight() + 6,
        }
    }

    /// The weight of the expression as the right-hand side of an
    /// assignment: what hoisting it adds where it holds a subquery, and 1
    /// where it does not and so stays where it is.
    pub open spec fn assign_weight(self) -> nat {
        if self.has_subquery() {
            self.hoist_weight()
        } else {
            1
        }
    }
}

/// The sum of the weights of the right-hand sides of a list of assignments.
pub open spec fn assigned_weight(exprs: Seq<(usize, SpecExpr)>) -> nat
    decreases exprs,
{
    if exprs.len() == 0 {
        0
    } else {
        assigned_weight(exprs.drop_last()) + (if exprs.last().1.has_subquery() {
            exprs.last().1.hoist_weight()
        } else {
            1
        })
    }
}

impl SpecRel {
    /// The weight of the spine of the plan: the projections and
    /// computed-column nodes at its top, with the weights of their
    /// assignments. Every other node ends the spine.
    pub open spec fn spine_weight(self) -> nat
        decreases self,
    {
        match self {
            SpecRel::Project { src, .. } => src.spine_weight() + 1,
            SpecRel::MapCols { input, exprs } => input.spine_weight() + assigned_weight(exprs) + 1,
            _ => 0,
        }
    }
}

/// The weight of a one-assignment list is the weight of that assignment.
pub proof fn lemma_assigned_weight_one(a: (usize, SpecExpr))
    ensures
        assigned_weight(seq![a]) == a.1.assign_weight(),
{
    assert(seq![a].drop_last() =~= Seq::<(usize, SpecExpr)>::empty());
    assert(assigned_weight(Seq::<(usize, SpecExpr)>::empty()) == 0);
}

/// Replacing an assignment changes the weight of the list by the
/// difference of the two weights.
pub proof fn lemma_assigned_weight_update(
    exprs: Seq<(usize, SpecExpr)>,
    i: int,
    a: (usize, SpecExpr),
)
    requires
        0 <= i < exprs.len(),
    ensures
        assigned_weight(exprs.update(i, a)) + exprs[i].1.assign_weight() == assigned_weight(exprs)
            + a.1.assign_weight(),
    decreases exprs.len(),
{
    let n = exprs.len() - 1;
    if i == n {
        assert(exprs.update(i, a).drop_last() =~= exprs.drop_last());
    } else {
        lemma_assigned_weight_update(exprs.drop_last(), i, a);
        assert(exprs.update(i, a).drop_last() =~= exprs.drop_last().update(i, a));
    }
}

/// Taking an assignment out of a list takes its weight off the list's.
pub proof fn lemma_assigned_weight_swap_removed(exprs: Seq<(usize, SpecExpr)>, i: int)
    requires
        0 <= i < exprs.len(),
    ensures
        assigned_weight(swap_removed(exprs, i)) + exprs[i].1.assign_weight() == assigned_weight(
            exprs,
        ),
{
    lemma_assigned_weight_update(exprs, i, exprs.last());
    let u = exprs.update(i, exprs.last());
    assert(u.last().1.assign_weight() == exprs.last().1.assign_weight());
}

} // verus!
