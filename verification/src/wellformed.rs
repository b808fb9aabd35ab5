//! The invariants of the data model, and what follows from them.
//!
//! The constructors do not test these invariants, and build a plan from
//! every input. A plan that breaks them stands for a mistake of the
//! caller, such as an identifier used twice. `crate::hygiene` states the
//! discipline of identifiers that rules such mistakes out, and
//! `crate::keeping` shows that under it every constructor builds
//! well-formed plans.
use crate::analysis::{assigned_frees, assigned_ids, union_of};
use crate::filter::{first_one_sided, lemma_first_one_sided, lemma_select_att, swap_removed};
use crate::ir::{SpecExpr, SpecRel};
use vstd::prelude::*;

verus! {

impl SpecExpr {
    /// Whether every plan inside the expression is well formed.
    pub open spec fn well_formed(self) -> bool
        decreases self,
    {
        match self {
            SpecExpr::ColRef { .. } => true,
            SpecExpr::Int { .. } => true,
            SpecExpr::Eq { left, right } => left.well_formed() && right.well_formed(),
            SpecExpr::Plus { left, right } => left.well_formed() && right.well_formed(),
            SpecExpr::Subquery { plan } => plan.well_formed(),
        }
    }
}

impl SpecRel {
    /// Whether the plan keeps the invariants of the data model, at every
    /// node and in every subquery:
    /// - the two inputs of a join output disjoint columns;
    /// - a projection keeps only columns that its input outputs;
    /// - a computed-column node introduces identifiers that its input does
    ///   not output, and that neither its input nor its right-hand sides
    ///   refer to;
    /// - the inner side of a dependent join outputs columns that the outer
    ///   side neither outputs nor refers to.
    pub open spec fn well_formed(self) -> bool
        decreases self,
    {
        match self {
            SpecRel::Scan { .. } => true,
            SpecRel::Select { src, predicates } => {
                &&& src.well_formed()
                &&& forall|i: int|
                    0 <= i < predicates.len() ==> (#[trigger] predicates[i]).well_formed()
            },
            SpecRel::Join { left, right, predicates } => {
                &&& left.well_formed()
                &&& right.well_formed()
                &&& left.att().disjoint(right.att())
                &&& forall|i: int|
                    0 <= i < predicates.len() ==> (#[trigger] predicates[i]).well_formed()
            },
            SpecRel::Project { src, cols } => src.well_formed() && cols.subset_of(src.att()),
            SpecRel::MapCols { input, exprs } => {
                &&& input.well_formed()
                &&& assigned_ids(exprs).disjoint(input.att())
                &&& assigned_ids(exprs).disjoint(input.free())
                &&& assigned_ids(exprs).disjoint(union_of(assigned_frees(exprs)))
                &&& forall|i: int| 0 <= i < exprs.len() ==> (#[trigger] exprs[i]).1.well_formed()
            },
            SpecRel::FlatMap { input, func } => {
                &&& input.well_formed()
                &&& func.well_formed()
                &&& func.att().disjoint(input.att())
                &&& func.att().disjoint(input.free())
            },
        }
    }
}

/// Attributes and free variables. In a well-formed plan no column is at
/// once an attribute and a free variable, and the inputs of a join at its
/// root output disjoint columns. As every node of a well-formed plan is
/// the root of a well-formed plan, this holds at every node.
pub proof fn lemma_free_att_disjoint(p: SpecRel)
    requires
        p.well_formed(),
    ensures
        p.free().disjoint(p.att()),
        p matches SpecRel::Join { left, right, .. } ==> left.att().disjoint(right.att()),
    decreases p,
{
    match p {
        SpecRel::Project { src, .. } => {
            lemma_free_att_disjoint(*src);
        },
        SpecRel::FlatMap { input, func } => {
            lemma_free_att_disjoint(*func);
        },
        _ => {},
    }
}

/// Without any invariant, no attribute of a scan, a selection or a join
/// is a free variable of it.
pub proof fn lemma_free_att_disjoint_by_shape(p: SpecRel)
    requires
        p is Scan || p is Select || p is Join,
    ensures
        p.free().disjoint(p.att()),
{
}

/// A selection of well-formed predicates over a well-formed plan is
/// well formed.
pub proof fn lemma_select_well_formed(p: SpecRel, predicates: Seq<SpecExpr>)
    requires
        p.well_formed(),
        forall|i: int| 0 <= i < predicates.len() ==> (#[trigger] predicates[i]).well_formed(),
    ensures
        p.select(predicates).well_formed(),
    decreases p,
{
    match p {
        SpecRel::Select { src, predicates: held } => {
            lemma_select_well_formed(*src, held + predicates);
        },
        _ => {},
    }
}

/// The join of two well-formed plans that output disjoint columns is
/// well formed, and so are the selections that it pushes down.
pub proof fn lemma_join_well_formed(left: SpecRel, right: SpecRel, predicates: Seq<SpecExpr>)
    requires
        left.well_formed(),
        right.well_formed(),
        left.att().disjoint(right.att()),
        forall|i: int| 0 <= i < predicates.len() ==> (#[trigger] predicates[i]).well_formed(),
    ensures
        left.join(right, predicates).well_formed(),
    decreases predicates.len(),
{
    let i = first_one_sided(predicates, left.att(), right.att(), 0);
    lemma_first_one_sided(predicates, left.att(), right.att(), 0);
    if 0 <= i < predicates.len() {
        let p = predicates[i];
        let rest = swap_removed(predicates, i);
        assert forall|j: int| 0 <= j < rest.len() implies (#[trigger] rest[j]).well_formed() by {
            if j == i {
                assert(predicates[predicates.len() - 1].well_formed());
            } else {
                assert(predicates[j].well_formed());
            }
        }
        assert(seq![p][0].well_formed());
        if p.bound_by(left) {
            lemma_select_well_formed(left, seq![p]);
            lemma_select_att(left, seq![p]);
            lemma_join_well_formed(left.select(seq![p]), right, rest);
        } else {
            lemma_select_well_formed(right, seq![p]);
            lemma_select_att(right, seq![p]);
            lemma_join_well_formed(left, right.select(seq![p]), rest);
        }
    }
}

} // verus!
