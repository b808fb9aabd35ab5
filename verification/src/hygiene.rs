//! Hygiene: the discipline of column identifiers under which the
//! constructors keep plans well formed.
//!
//! A plan is hygienic where its identifiers are kept apart:
//! - neither input of a join mentions what the other introduces;
//! - the outer side of a dependent join does not mention what the inner
//!   side introduces, while the inner side may mention the columns of the
//!   outer side;
//! - the input of a computed-column node does not mention what the
//!   assignments of the node introduce, and the assignments keep apart
//!   from each other in the same way;
//! - a projection keeps only columns that its input outputs.
//!
//! Plans whose identifiers come from one session's allocator, each used
//! for one new column and referred to only where that column is in scope,
//! are hygienic.
use crate::analysis::{assigned_frees, assigned_ids, frees_of, union_of};
use crate::ir::{SpecExpr, SpecRel};
use crate::wellformed::lemma_free_att_disjoint;
use vstd::prelude::*;

verus! {

/// The identifiers that the subqueries inside a list of assignments
/// introduce.
pub open spec fn introduced_in(exprs: Seq<(usize, SpecExpr)>) -> Set<usize>
    decreases exprs,
{
    Set::new(
        |c: usize|
            exists|i: int|
                0 <= i < exprs.len() && (#[trigger] exprs[i]).1.introduced().contains(c),
    )
}

/// The identifiers that the right-hand sides of a list of assignments
/// mention.
pub open spec fn mentioned_in(exprs: Seq<(usize, SpecExpr)>) -> Set<usize>
    decreases exprs,
{
    Set::new(
        |c: usize|
            exists|i: int| 0 <= i < exprs.len() && (#[trigger] exprs[i]).1.mentioned().contains(c),
    )
}

impl SpecExpr {
    /// The identifiers that the plans of the subqueries of the expression
    /// introduce.
    pub open spec fn introduced(self) -> Set<usize>
        decreases self,
    {
        match self {
            SpecExpr::ColRef { .. } => Set::empty(),
            SpecExpr::Int { .. } => Set::empty(),
            SpecExpr::Eq { left, right } => left.introduced().union(right.introduced()),
            SpecExpr::Plus { left, right } => left.introduced().union(right.introduced()),
            SpecExpr::Subquery { plan } => plan.introduced(),
        }
    }

    /// The identifiers that occur in the expression.
    pub open spec fn mentioned(self) -> Set<usize>
        decreases self,
    {
        match self {
            SpecExpr::ColRef { id } => set![id],
            SpecExpr::Int { .. } => Set::empty(),
            SpecExpr::Eq { left, right } => left.mentioned().union(right.mentioned()),
            SpecExpr::Plus { left, right } => left.mentioned().union(right.mentioned()),
            SpecExpr::Subquery { plan } => plan.mentioned(),
        }
    }

    /// Whether the plans of the subqueries of the expression are hygienic,
    /// and neither operand of an operator mentions what the other
    /// introduces.
    pub open spec fn hygienic(self) -> bool
        decreases self,
    {
        match self {
            SpecExpr::ColRef { .. } => true,
            SpecExpr::Int { .. } => true,
            SpecExpr::Eq { left, right } => {
                &&& left.hygienic()
                &&& right.hygienic()
                &&& left.introduced().disjoint(right.mentioned())
                &&& right.introduced().disjoint(left.mentioned())
            },
            SpecExpr::Plus { left, right } => {
                &&& left.hygienic()
                &&& right.hygienic()
                &&& left.introduced().disjoint(right.mentioned())
                &&& right.introduced().disjoint(left.mentioned())
            },
            SpecExpr::Subquery { plan } => plan.hygienic(),
        }
    }
}

/// Whether the assignments `exprs` may stand over a plan that mentions
/// `below`: each right-hand side is hygienic; no assignment introduces,
/// by its identifier or in a subquery, what the plan below or another
/// assignment mentions; and no right-hand side mentions its own identifier.
pub open spec fn assignments_hygienic(exprs: Seq<(usize, SpecExpr)>, below: Set<usize>) -> bool
    decreases exprs,
{
    &&& forall|i: int| 0 <= i < exprs.len() ==> (#[trigger] exprs[i]).1.hygienic()
    &&& forall|i: int|
        0 <= i < exprs.len() ==> !below.contains((#[trigger] exprs[i]).0)
            && exprs[i].1.introduced().disjoint(below) && !exprs[i].1.mentioned().contains(
            exprs[i].0,
        )
    &&& forall|i: int, j: int|
        0 <= i < exprs.len() && 0 <= j < exprs.len() && i != j ==> (#[trigger] exprs[i]).0
            != (#[trigger] exprs[j]).0 && !exprs[j].1.mentioned().contains(exprs[i].0)
            && exprs[i].1.introduced().disjoint(exprs[j].1.mentioned())
            && !exprs[i].1.introduced().contains(exprs[j].0)
}

impl SpecRel {
    /// The identifiers that the plan introduces: the columns of its scans,
    /// the identifiers of its assignments, and what the subqueries of its
    /// assignments introduce.
    pub open spec fn introduced(self) -> Set<usize>
        decreases self,
    {
        match self {
            SpecRel::Scan { column_names, .. } => column_names.to_set(),
            SpecRel::Select { src, .. } => src.introduced(),
            SpecRel::Join { left, right, .. } => left.introduced().union(right.introduced()),
            SpecRel::Project { src, .. } => src.introduced(),
            SpecRel::MapCols { input, exprs } => input.introduced().union(
                assigned_ids(exprs),
            ).union(introduced_in(exprs)),
            SpecRel::FlatMap { input, func } => input.introduced().union(func.introduced()),
        }
    }

    /// The identifiers that occur in the plan: what it introduces, what
    /// its predicates and assignments refer to, and what it projects to.
    pub open spec fn mentioned(self) -> Set<usize>
        decreases self,
    {
        match self {
            SpecRel::Scan { column_names, .. } => column_names.to_set(),
            SpecRel::Select { src, predicates } => src.mentioned().union(
                union_of(frees_of(predicates)),
            ),
            SpecRel::Join { left, right, predicates } => left.mentioned().union(
                right.mentioned(),
            ).union(union_of(frees_of(predicates))),
            SpecRel::Project { src, cols } => src.mentioned().union(cols),
            SpecRel::MapCols { input, exprs } => input.mentioned().union(
                assigned_ids(exprs),
            ).union(mentioned_in(exprs)),
            SpecRel::FlatMap { input, func } => input.mentioned().union(func.mentioned()),
        }
    }

    /// Whether the plan is hygienic, at every node and in the subqueries
    /// of its assignments.
    pub open spec fn hygienic(self) -> bool
        decreases self,
    {
        match self {
            SpecRel::Scan { .. } => true,
            SpecRel::Select { src, predicates } => {
                &&& src.hygienic()
                &&& forall|i: int|
                    0 <= i < predicates.len() ==> (#[trigger] predicates[i]).well_formed()
            },
            SpecRel::Join { left, right, predicates } => {
                &&& left.hygienic()
                &&& right.hygienic()
                &&& left.introduced().disjoint(right.mentioned())
                &&& right.introduced().disjoint(left.mentioned())
                &&& forall|i: int|
                    0 <= i < predicates.len() ==> (#[trigger] predicates[i]).well_formed()
            },
            SpecRel::Project { src, cols } => src.hygienic() && cols.subset_of(src.att()),
            SpecRel::MapCols { input, exprs } => {
                &&& input.hygienic()
                &&& assignments_hygienic(exprs, input.mentioned())
            },
            SpecRel::FlatMap { input, func } => {
                &&& input.hygienic()
                &&& func.hygienic()
                &&& func.introduced().disjoint(input.mentioned())
            },
        }
    }
}

/// What the sets of a list of assignments hold, and what it means for the
/// list to be hygienic, spelled out.
pub proof fn lemma_assignment_sets(exprs: Seq<(usize, SpecExpr)>, below: Set<usize>)
    ensures
        forall|c: usize|
            introduced_in(exprs).contains(c) <==> exists|i: int|
                0 <= i < exprs.len() && (#[trigger] exprs[i]).1.introduced().contains(c),
        forall|c: usize|
            mentioned_in(exprs).contains(c) <==> exists|i: int|
                0 <= i < exprs.len() && (#[trigger] exprs[i]).1.mentioned().contains(c),
        forall|c: usize|
            union_of(assigned_frees(exprs)).contains(c) <==> exists|i: int|
                0 <= i < exprs.len() && (#[trigger] exprs[i]).1.free().contains(c),
        assignments_hygienic(exprs, below) <==> {
            &&& forall|i: int| 0 <= i < exprs.len() ==> (#[trigger] exprs[i]).1.hygienic()
            &&& forall|i: int|
                0 <= i < exprs.len() ==> !below.contains((#[trigger] exprs[i]).0)
                    && exprs[i].1.introduced().disjoint(below)
                    && !exprs[i].1.mentioned().contains(exprs[i].0)
            &&& forall|i: int, j: int|
                0 <= i < exprs.len() && 0 <= j < exprs.len() && i != j ==> (#[trigger] exprs[i]).0
                    != (#[trigger] exprs[j]).0 && !exprs[j].1.mentioned().contains(exprs[i].0)
                    && exprs[i].1.introduced().disjoint(exprs[j].1.mentioned())
                    && !exprs[i].1.introduced().contains(exprs[j].0)
        },
{
    let fs = assigned_frees(exprs);
    assert forall|c: usize| union_of(fs).contains(c) <==> exists|i: int|
        0 <= i < exprs.len() && (#[trigger] exprs[i]).1.free().contains(c) by {
        if union_of(fs).contains(c) {
            let i = choose|i: int| 0 <= i < fs.len() && (#[trigger] fs[i]).contains(c);
            assert(exprs[i].1.free().contains(c));
        }
        if exists|i: int| 0 <= i < exprs.len() && (#[trigger] exprs[i]).1.free().contains(c) {
            let i = choose|i: int| 0 <= i < exprs.len() && (#[trigger] exprs[i]).1.free().contains(c);
            assert(fs[i].contains(c));
        }
    }
}

/// What an expression refers to, and what its subqueries introduce, it
/// mentions.
pub proof fn lemma_expr_mentions(e: SpecExpr)
    ensures
        e.free().subset_of(e.mentioned()),
        e.introduced().subset_of(e.mentioned()),
    decreases e,
{
    match e {
        SpecExpr::Eq { left, right } => {
            lemma_expr_mentions(*left);
            lemma_expr_mentions(*right);
        },
        SpecExpr::Plus { left, right } => {
            lemma_expr_mentions(*left);
            lemma_expr_mentions(*right);
        },
        SpecExpr::Subquery { plan } => {
            lemma_plan_mentions(*plan);
        },
        _ => {},
    }
}

/// What a plan outputs, refers to or introduces, it mentions.
pub proof fn lemma_plan_mentions(p: SpecRel)
    ensures
        p.att().subset_of(p.mentioned()),
        p.free().subset_of(p.mentioned()),
        p.introduced().subset_of(p.mentioned()),
    decreases p,
{
    match p {
        SpecRel::Scan { .. } => {
        },
        SpecRel::Select { src, .. } => {
            lemma_plan_mentions(*src);
        },
        SpecRel::Join { left, right, .. } => {
            lemma_plan_mentions(*left);
            lemma_plan_mentions(*right);
        },
        SpecRel::Project { src, .. } => {
            lemma_plan_mentions(*src);
        },
        SpecRel::MapCols { input, exprs } => {
            lemma_plan_mentions(*input);
            lemma_assignment_sets(exprs, Set::empty());
            assert forall|c: usize| p.free().contains(c) implies p.mentioned().contains(c) by {
                if !input.free().contains(c) {
                    assert(p.free() == input.free().union(
                        union_of(assigned_frees(exprs)),
                    ).difference(input.att()));
                    assert(union_of(assigned_frees(exprs)).contains(c));
                    let i = choose|i: int|
                        0 <= i < exprs.len() && (#[trigger] exprs[i]).1.free().contains(c);
                    lemma_expr_mentions(exprs[i].1);
                    assert(exprs[i].1.mentioned().contains(c));
                    assert(mentioned_in(exprs).contains(c));
                }
            }
            assert forall|c: usize|
                p.introduced().contains(c) implies p.mentioned().contains(c) by {
                if introduced_in(exprs).contains(c) {
                    let i = choose|i: int|
                        0 <= i < exprs.len() && (#[trigger] exprs[i]).1.introduced().contains(c);
                    lemma_expr_mentions(exprs[i].1);
                    assert(exprs[i].1.mentioned().contains(c));
                    assert(mentioned_in(exprs).contains(c));
                }
            }
        },
        SpecRel::FlatMap { input, func } => {
            lemma_plan_mentions(*input);
            lemma_plan_mentions(*func);
        },
    }
}

/// A hygienic expression is well formed.
pub proof fn lemma_hygienic_expr_well_formed(e: SpecExpr)
    requires
        e.hygienic(),
    ensures
        e.well_formed(),
    decreases e,
{
    match e {
        SpecExpr::Eq { left, right } => {
            lemma_hygienic_expr_well_formed(*left);
            lemma_hygienic_expr_well_formed(*right);
        },
        SpecExpr::Plus { left, right } => {
            lemma_hygienic_expr_well_formed(*left);
            lemma_hygienic_expr_well_formed(*right);
        },
        SpecExpr::Subquery { plan } => {
            lemma_hygienic_well_formed(*plan);
        },
        _ => {},
    }
}

/// A hygienic plan is well formed, and outputs only what it introduces.
pub proof fn lemma_hygienic_well_formed(p: SpecRel)
    requires
        p.hygienic(),
    ensures
        p.well_formed(),
        p.att().subset_of(p.introduced()),
    decreases p,
{
    match p {
        SpecRel::Scan { .. } => {},
        SpecRel::Select { src, .. } => {
            lemma_hygienic_well_formed(*src);
        },
        SpecRel::Join { left, right, .. } => {
            lemma_hygienic_well_formed(*left);
            lemma_hygienic_well_formed(*right);
            lemma_plan_mentions(*left);
            lemma_plan_mentions(*right);
        },
        SpecRel::Project { src, .. } => {
            lemma_hygienic_well_formed(*src);
        },
        SpecRel::MapCols { input, exprs } => {
            lemma_hygienic_well_formed(*input);
            lemma_plan_mentions(*input);
            lemma_assignment_sets(exprs, input.mentioned());
            assert forall|i: int|
                0 <= i < exprs.len() implies (#[trigger] exprs[i]).1.well_formed() by {
                lemma_hygienic_expr_well_formed(exprs[i].1);
            }
            assert forall|c: usize| assigned_ids(exprs).contains(c) implies !input.att().contains(c)
                && !input.free().contains(c) && !union_of(assigned_frees(exprs)).contains(c) by {
                let i = choose|i: int| 0 <= i < exprs.len() && (#[trigger] exprs[i]).0 == c;
                if union_of(assigned_frees(exprs)).contains(c) {
                    let j = choose|j: int|
                        0 <= j < exprs.len() && (#[trigger] exprs[j]).1.free().contains(c);
                    lemma_expr_mentions(exprs[j].1);
                    assert(exprs[j].1.mentioned().contains(c));
                    if i == j {
                        assert(!exprs[i].1.mentioned().contains(exprs[i].0));
                    } else {
                        assert(!exprs[j].1.mentioned().contains(exprs[i].0));
                    }
                }
            }
            assert forall|c: usize|
                introduced_in(exprs).contains(c) implies !input.att().contains(c) by {
                let i = choose|i: int|
                    0 <= i < exprs.len() && (#[trigger] exprs[i]).1.introduced().contains(c);
                assert(exprs[i].1.introduced().disjoint(input.mentioned()));
            }
        },
        SpecRel::FlatMap { input, func } => {
            lemma_hygienic_well_formed(*input);
            lemma_hygienic_well_formed(*func);
            lemma_plan_mentions(*input);
        },
    }
}

/// What the predicates of a node refer to, spelled out.
pub proof fn lemma_predicate_free(predicates: Seq<SpecExpr>)
    ensures
        forall|c: usize|
            union_of(frees_of(predicates)).contains(c) <==> exists|i: int|
                0 <= i < predicates.len() && (#[trigger] predicates[i]).free().contains(c),
{
    let fs = frees_of(predicates);
    assert forall|c: usize| union_of(fs).contains(c) <==> exists|i: int|
        0 <= i < predicates.len() && (#[trigger] predicates[i]).free().contains(c) by {
        if union_of(fs).contains(c) {
            let i = choose|i: int| 0 <= i < fs.len() && (#[trigger] fs[i]).contains(c);
            assert(predicates[i].free().contains(c));
        }
        if exists|i: int| 0 <= i < predicates.len() && (#[trigger] predicates[i]).free().contains(c) {
            let i = choose|i: int|
                0 <= i < predicates.len() && (#[trigger] predicates[i]).free().contains(c);
            assert(fs[i].contains(c));
        }
    }
}

/// Every identifier that a hygienic expression mentions is introduced in
/// one of its subqueries or free in it.
pub proof fn lemma_expr_closed(e: SpecExpr)
    requires
        e.hygienic(),
    ensures
        e.mentioned().subset_of(e.introduced().union(e.free())),
    decreases e,
{
    match e {
        SpecExpr::Eq { left, right } => {
            lemma_expr_closed(*left);
            lemma_expr_closed(*right);
        },
        SpecExpr::Plus { left, right } => {
            lemma_expr_closed(*left);
            lemma_expr_closed(*right);
        },
        SpecExpr::Subquery { plan } => {
            lemma_plan_closed(*plan);
        },
        _ => {},
    }
}

/// Every identifier that a hygienic plan mentions is introduced in it or
/// free in it.
pub proof fn lemma_plan_closed(p: SpecRel)
    requires
        p.hygienic(),
    ensures
        p.mentioned().subset_of(p.introduced().union(p.free())),
    decreases p,
{
    lemma_hygienic_well_formed(p);
    match p {
        SpecRel::Scan { .. } => {},
        SpecRel::Select { src, predicates } => {
            lemma_plan_closed(*src);
            lemma_hygienic_well_formed(*src);
            lemma_free_att_disjoint(*src);
            assert(p.free() == src.free().union(union_of(frees_of(predicates))).difference(
                src.att(),
            ));
            assert forall|c: usize| p.mentioned().contains(c) implies p.introduced().union(
                p.free(),
            ).contains(c) by {
                if src.mentioned().contains(c) {
                    assert(src.introduced().union(src.free()).contains(c));
                }
            }
        },
        SpecRel::Join { left, right, predicates } => {
            lemma_plan_closed(*left);
            lemma_plan_closed(*right);
            lemma_hygienic_well_formed(*left);
            lemma_hygienic_well_formed(*right);
            lemma_free_att_disjoint(*left);
            lemma_free_att_disjoint(*right);
            assert(p.free() == left.free().union(right.free()).union(
                union_of(frees_of(predicates)),
            ).difference(left.att().union(right.att())));
            assert forall|c: usize| p.mentioned().contains(c) implies p.introduced().union(
                p.free(),
            ).contains(c) by {
                if left.mentioned().contains(c) {
                    assert(left.introduced().union(left.free()).contains(c));
                }
                if right.mentioned().contains(c) {
                    assert(right.introduced().union(right.free()).contains(c));
                }
            }
        },
        SpecRel::Project { src, cols } => {
            lemma_plan_closed(*src);
            assert forall|c: usize| p.mentioned().contains(c) implies p.introduced().union(
                p.free(),
            ).contains(c) by {
                if src.mentioned().contains(c) {
                    assert(src.introduced().union(src.free()).contains(c));
                }
            }
        },
        SpecRel::MapCols { input, exprs } => {
            lemma_plan_closed(*input);
            lemma_hygienic_well_formed(*input);
            lemma_free_att_disjoint(*input);
            lemma_assignment_sets(exprs, input.mentioned());
            assert(p.free() == input.free().union(union_of(assigned_frees(exprs))).difference(
                input.att(),
            ));
            assert forall|c: usize| p.mentioned().contains(c) implies p.introduced().union(
                p.free(),
            ).contains(c) by {
                if input.mentioned().contains(c) {
                    assert(input.introduced().union(input.free()).contains(c));
                } else if mentioned_in(exprs).contains(c) {
                    let i = choose|i: int|
                        0 <= i < exprs.len() && (#[trigger] exprs[i]).1.mentioned().contains(c);
                    lemma_expr_closed(exprs[i].1);
                    assert(exprs[i].1.introduced().union(exprs[i].1.free()).contains(c));
                    if exprs[i].1.introduced().contains(c) {
                        assert(introduced_in(exprs).contains(c));
                    } else {
                        assert(exprs[i].1.free().contains(c));
                        assert(union_of(assigned_frees(exprs)).contains(c));
                    }
                }
            }
        },
        SpecRel::FlatMap { input, func } => {
            lemma_plan_closed(*input);
            lemma_plan_closed(*func);
            lemma_hygienic_well_formed(*input);
            lemma_hygienic_well_formed(*func);
            lemma_free_att_disjoint(*input);
            assert(p.free() == input.free().union(func.free()).difference(input.att()));
            assert forall|c: usize| p.mentioned().contains(c) implies p.introduced().union(
                p.free(),
            ).contains(c) by {
                if input.mentioned().contains(c) {
                    assert(input.introduced().union(input.free()).contains(c));
                }
                if func.mentioned().contains(c) {
                    assert(func.introduced().union(func.free()).contains(c));
                }
            }
        },
    }
}

/// Attributes and free variables of hygienic plans. At the root of a
/// hygienic plan, and so at each of its nodes, no column is at once an
/// attribute and a free variable, and the two inputs of a join output
/// disjoint columns.
pub proof fn lemma_hygienic_free_att_disjoint(p: SpecRel)
    requires
        p.hygienic(),
    ensures
        p.free().disjoint(p.att()),
        p matches SpecRel::Join { left, right, .. } ==> left.att().disjoint(right.att()),
{
    lemma_hygienic_well_formed(p);
    lemma_free_att_disjoint(p);
}

} // verus!
