//! The rewriting constructors: computed columns with subquery hoisting, the
//! dependent join with decorrelation, and projection with pushdown through
//! computed columns.
//!
//! Each constructor is defined here on the mathematical trees. The four
//! definitions call each other, and each is well-founded by the weights of
//! `crate::weight`. Where a definition goes on with a plan that another call
//! has built, it first tests that the plan is within the weight that
//! `lemma_map_bounds`, `lemma_hoist_bounds`, `lemma_flatmap_bounds` and
//! `lemma_project_bounds` prove of every such plan. The test never fails,
//! and is there so that the recursion can be seen to end:
//! `lemma_map_hoists`, `lemma_hoist_sum`, `lemma_flatmap_pulls_up` and
//! `lemma_project_pushes_down` state each definition without it.
//!
//! None of the constructors tests the invariants of the data model
//! (`crate::wellformed`): they are defined on every plan. What they keep
//! of a plan whose identifiers are used with discipline is shown in
//! `crate::keeping`.
use crate::analysis::{add_free_of_assignments, assigned_frees, assigned_ids, union_of};
use crate::colset::{is_subset, lemma_view_finite, sole_member, union_into};
use crate::filter::{lemma_join_is_join, swap_removed};
use crate::ir::{
    assignments_model, exprs_model, lemma_assignments_model, lemma_exprs_model, Expr, RelExpr,
    SpecExpr, SpecRel,
};
use crate::laws::{
    lemma_flatmap_keeps_attributes, lemma_hoist_keeps_attributes, lemma_map_keeps_attributes,
    lemma_project_keeps_attributes,
};
use crate::state::{Rule, SpecState, State};
use crate::weight::{
    assigned_weight, lemma_assigned_weight_one, lemma_assigned_weight_swap_removed,
};
use std::collections::HashSet;
use vstd::prelude::*;

verus! {

/// Why a rewrite could not be carried out.
#[derive(Debug, Clone, Copy, PartialEq, Eq)]
pub enum RewriteError {
    /// A scalar subquery's plan does not output exactly one column.
    Arity,
    /// The expression has a shape for which hoisting is not defined.
    Unsupported,
    /// Hoisting a sum needs two fresh identifiers, and the session's
    /// counter cannot hand out two more.
    IdsExhausted,
}

/// What a rewriting constructor yields: the plan or the error, and the
/// identifier counter after it.
pub struct Rewritten {
    pub result: Result<SpecRel, RewriteError>,
    pub next_id: nat,
}

impl Rewritten {
    /// The outcome that holds `plan` and leaves the counter of `st` as it is.
    pub open spec fn done(plan: SpecRel, st: SpecState) -> Rewritten {
        Rewritten { result: Ok(plan), next_id: st.next_id }
    }

    /// The outcome that holds `error` and leaves the counter of `st` as it is.
    pub open spec fn failed(error: RewriteError, st: SpecState) -> Rewritten {
        Rewritten { result: Err(error), next_id: st.next_id }
    }

    /// The plan of a successful outcome.
    pub open spec fn plan(self) -> SpecRel {
        self.result->Ok_0
    }

    /// Whether the outcome holds a plan whose spine weighs at most `bound`.
    pub open spec fn fits(self, bound: nat) -> bool {
        self.result is Ok && self.plan().spine_weight() <= bound
    }
}

/// The first position at or after `from` whose assignment holds a
/// subquery, or the length of the list where there is none.
pub open spec fn first_subquery(exprs: Seq<(usize, SpecExpr)>, from: int) -> int
    decreases exprs.len() - from,
{
    if from < 0 || from >= exprs.len() {
        exprs.len() as int
    } else if exprs[from].1.has_subquery() {
        from
    } else {
        first_subquery(exprs, from + 1)
    }
}

/// What `first_subquery` finds: no assignment before the position it
/// returns holds a subquery, and the one at that position does.
pub proof fn lemma_first_subquery(exprs: Seq<(usize, SpecExpr)>, from: int)
    requires
        0 <= from <= exprs.len(),
    ensures
        from <= first_subquery(exprs, from) <= exprs.len(),
        forall|j: int|
            from <= j < first_subquery(exprs, from) ==> !(#[trigger] exprs[j]).1.has_subquery(),
        first_subquery(exprs, from) < exprs.len() ==> exprs[first_subquery(
            exprs,
            from,
        )].1.has_subquery(),
    decreases exprs.len() - from,
{
    if from < exprs.len() && !exprs[from].1.has_subquery() {
        lemma_first_subquery(exprs, from + 1);
    }
}

/// The columns that the right-hand sides of a list of assignments refer to.
pub open spec fn required_cols(exprs: Seq<(usize, SpecExpr)>) -> Set<usize> {
    union_of(assigned_frees(exprs))
}

/// The column identifier that the counter value `n` stands for: `n`
/// itself, for every value that a counter can have.
pub open spec fn fresh_id(n: nat) -> usize {
    #[verifier::truncate]
    (n as usize)
}

/// The assignment `id <- left + right` of two columns.
pub open spec fn sum_of_cols(id: usize, left: usize, right: usize) -> (usize, SpecExpr) {
    (
        id,
        SpecExpr::Plus {
            left: Box::new(SpecExpr::ColRef { id: left }),
            right: Box::new(SpecExpr::ColRef { id: right }),
        },
    )
}

impl SpecRel {
    /// The plan extended by the computed columns `exprs`.
    ///
    /// An empty list leaves the plan as it is. With hoisting on, the first
    /// assignment that holds a subquery leaves the list, the last
    /// assignment taking its place; the rest is mapped first, and the
    /// assignment taken out is hoisted into what that gives. Otherwise the
    /// result is a computed-column node over the plan.
    pub open spec fn map(self, st: SpecState, exprs: Seq<(usize, SpecExpr)>) -> Rewritten
        decreases self.spine_weight() + assigned_weight(exprs) + 2,
    {
        let i = first_subquery(exprs, 0);
        if exprs.len() == 0 {
            Rewritten::done(self, st)
        } else if st.hoisting() && i < exprs.len() {
            let rest = swap_removed(exprs, i);
            proof {
                lemma_first_subquery(exprs, 0);
                lemma_assigned_weight_swap_removed(exprs, i);
            }
            let below = self.map(st, rest);
            if below.fits(self.spine_weight() + assigned_weight(rest) + 1) {
                below.plan().hoist(st.at(below.next_id), exprs[i].0, exprs[i].1)
            } else {
                below
            }
        } else {
            Rewritten::done(SpecRel::MapCols { input: Box::new(self), exprs }, st)
        }
    }

    /// The plan extended by column `id`, which holds the value of `expr`,
    /// with the subqueries of `expr` turned into dependent joins.
    ///
    /// - A subquery must output exactly one column, else the result is the
    ///   arity error. That column is renamed to `id` by a computed column
    ///   over the subquery's plan, which becomes the inner side of a
    ///   dependent join with the plan.
    /// - A sum takes two fresh identifiers; where the counter cannot hand
    ///   out two more, the result is the exhaustion error. The left operand
    ///   is hoisted into the plan under the first identifier, the right
    ///   operand into the result under the second, and the sum of the two
    ///   columns is computed as `id`. The result is then projected to the
    ///   attributes of the plan and `id`, so the two fresh columns do not
    ///   show.
    /// - A literal or a column reference is a computed column.
    /// - A comparison is not supported.
    pub open spec fn hoist(self, st: SpecState, id: usize, expr: SpecExpr) -> Rewritten
        decreases self.spine_weight() + expr.hoist_weight(),
    {
        match expr {
            SpecExpr::Subquery { plan } => {
                if plan.att().finite() && plan.att().len() == 1 {
                    let renamed = SpecRel::MapCols {
                        input: plan,
                        exprs: seq![(id, SpecExpr::ColRef { id: plan.att().choose() })],
                    };
                    proof {
                        lemma_assigned_weight_one(
                            (id, SpecExpr::ColRef { id: plan.att().choose() }),
                        );
                    }
                    self.flatmap(st, renamed)
                } else {
                    Rewritten::failed(RewriteError::Arity, st)
                }
            },
            SpecExpr::Plus { left, right } => {
                let left_id = fresh_id(st.next_id);
                let right_id = fresh_id(st.next_id + 1);
                if st.next_id + 2 > usize::MAX {
                    Rewritten::failed(RewriteError::IdsExhausted, st)
                } else {
                    let first = self.hoist(st.advanced(2), left_id, *left);
                    if first.fits(self.spine_weight() + left.hoist_weight()) {
                        let second = first.plan().hoist(st.at(first.next_id), right_id, *right);
                        if second.fits(
                            self.spine_weight() + left.hoist_weight() + right.hoist_weight(),
                        ) {
                            let sum = SpecRel::MapCols {
                                input: Box::new(second.plan()),
                                exprs: seq![sum_of_cols(id, left_id, right_id)],
                            };
                            proof {
                                lemma_assigned_weight_one(
                                    sum_of_cols(id, left_id, right_id),
                                );
                                reveal_with_fuel(SpecExpr::has_subquery, 2);
                            }
                            sum.project(st.at(second.next_id), self.att().insert(id))
                        } else {
                            second
                        }
                    } else {
                        first
                    }
                }
            },
            SpecExpr::Int { .. } | SpecExpr::ColRef { .. } => Rewritten::done(
                SpecRel::MapCols { input: Box::new(self), exprs: seq![(id, expr)] },
                st,
            ),
            SpecExpr::Eq { .. } => Rewritten::failed(RewriteError::Unsupported, st),
        }
    }

    /// The dependent join of the plan with `func`, which may refer to the
    /// columns of the plan.
    ///
    /// With decorrelation on: an inner side without free variables gives
    /// an ordinary join without predicates; a projection on the inner side
    /// is pulled above the dependent join and widened by the attributes of
    /// the plan; a computed-column node on the inner side is pulled above
    /// it too. Everything else, and everything with decorrelation off,
    /// gives a dependent-join node.
    pub open spec fn flatmap(self, st: SpecState, func: SpecRel) -> Rewritten
        decreases func.spine_weight() + 3,
    {
        if st.decorrelating() && func.free().is_empty() {
            Rewritten::done(self.join(func, Seq::empty()), st)
        } else if st.decorrelating() && func is Project {
            let lifted = self.flatmap(st, *func->Project_src);
            if lifted.fits(func->Project_src.spine_weight()) {
                lifted.plan().project(
                    st.at(lifted.next_id),
                    func->Project_cols.union(self.att()),
                )
            } else {
                lifted
            }
        } else if st.decorrelating() && func is MapCols {
            let lifted = self.flatmap(st, *func->MapCols_input);
            if lifted.fits(func->MapCols_input.spine_weight()) {
                lifted.plan().map(st.at(lifted.next_id), func->MapCols_exprs)
            } else {
                lifted
            }
        } else {
            Rewritten::done(SpecRel::FlatMap { input: Box::new(self), func: Box::new(func) }, st)
        }
    }

    /// Whether a projection to `cols` is pushed below the plan: the plan
    /// is a computed-column node, and every column of `cols` is referred
    /// to by one of its right-hand sides.
    pub open spec fn pushes_projection(self, cols: Set<usize>) -> bool {
        self is MapCols && cols.subset_of(required_cols(self->MapCols_exprs))
    }

    /// The projection of the plan to `cols`.
    ///
    /// Where the plan is a computed-column node and every column of `cols`
    /// is referred to by one of its right-hand sides, the projection is
    /// applied to the node's input and the node's assignments are mapped
    /// over the result. Otherwise the result is a projection node.
    ///
    /// The test looks at the columns that the right-hand sides refer to,
    /// not at the columns that the node's input outputs. A projection that
    /// is pushed down therefore still outputs the identifiers of the node,
    /// and may name columns that the node's input does not output: the
    /// result outputs at least `cols` (`lemma_project_keeps_attributes`),
    /// and exactly `cols` where nothing is pushed (`lemma_project_plain`).
    pub open spec fn project(self, st: SpecState, cols: Set<usize>) -> Rewritten
        decreases self.spine_weight() + 3,
    {
        if self.pushes_projection(cols) {
            let narrowed = self->MapCols_input.project(st, cols);
            if narrowed.fits(self->MapCols_input.spine_weight() + 1) {
                narrowed.plan().map(st.at(narrowed.next_id), self->MapCols_exprs)
            } else {
                narrowed
            }
        } else {
            Rewritten::done(SpecRel::Project { src: Box::new(self), cols }, st)
        }
    }
}

/// Computed columns keep within their weight: the counter never goes
/// back, and the plan that comes out is at most as heavy as the plan that
/// went in together with the assignments, and one more.
pub proof fn lemma_map_bounds(p: SpecRel, st: SpecState, exprs: Seq<(usize, SpecExpr)>)
    ensures
        p.map(st, exprs).next_id >= st.next_id,
        p.map(st, exprs).result is Ok ==> p.map(st, exprs).fits(
            p.spine_weight() + assigned_weight(exprs) + 1,
        ),
    decreases p.spine_weight() + assigned_weight(exprs) + 2,
{
    let i = first_subquery(exprs, 0);
    if exprs.len() == 0 {
    } else if st.hoisting() && i < exprs.len() {
        let rest = swap_removed(exprs, i);
        lemma_first_subquery(exprs, 0);
        lemma_assigned_weight_swap_removed(exprs, i);
        lemma_map_bounds(p, st, rest);
        let below = p.map(st, rest);
        if below.fits(p.spine_weight() + assigned_weight(rest) + 1) {
            lemma_hoist_bounds(below.plan(), st.at(below.next_id), exprs[i].0, exprs[i].1);
        }
    } else {
    }
}

/// Hoisting keeps within its weight: the counter never goes back, and the
/// plan that comes out is at most as heavy as the plan that went in
/// together with the expression.
pub proof fn lemma_hoist_bounds(p: SpecRel, st: SpecState, id: usize, expr: SpecExpr)
    ensures
        p.hoist(st, id, expr).next_id >= st.next_id,
        p.hoist(st, id, expr).result is Ok ==> p.hoist(st, id, expr).fits(
            p.spine_weight() + expr.hoist_weight(),
        ),
    decreases p.spine_weight() + expr.hoist_weight(),
{
    match expr {
        SpecExpr::Subquery { plan } => {
            if plan.att().finite() && plan.att().len() == 1 {
                let renamed = SpecRel::MapCols {
                    input: plan,
                    exprs: seq![(id, SpecExpr::ColRef { id: plan.att().choose() })],
                };
                lemma_assigned_weight_one(
                    (id, SpecExpr::ColRef { id: plan.att().choose() }),
                );
                lemma_flatmap_bounds(p, st, renamed);
            }
        },
        SpecExpr::Plus { left, right } => {
            let left_id = fresh_id(st.next_id);
            let right_id = fresh_id(st.next_id + 1);
            lemma_hoist_bounds(p, st.advanced(2), left_id, *left);
            let first = p.hoist(st.advanced(2), left_id, *left);
            if first.fits(p.spine_weight() + left.hoist_weight()) {
                lemma_hoist_bounds(first.plan(), st.at(first.next_id), right_id, *right);
                let second = first.plan().hoist(st.at(first.next_id), right_id, *right);
                if second.fits(p.spine_weight() + left.hoist_weight() + right.hoist_weight()) {
                    let sum = SpecRel::MapCols {
                        input: Box::new(second.plan()),
                        exprs: seq![sum_of_cols(id, left_id, right_id)],
                    };
                    lemma_assigned_weight_one(sum_of_cols(id, left_id, right_id));
                    reveal_with_fuel(SpecExpr::has_subquery, 2);
                    lemma_project_bounds(sum, st.at(second.next_id), p.att().insert(id));
                }
            }
        },
        SpecExpr::Int { .. } | SpecExpr::ColRef { .. } => {
            lemma_assigned_weight_one((id, expr));
        },
        SpecExpr::Eq { .. } => {},
    }
}

/// The dependent join keeps within its weight: the counter never goes
/// back, and the plan that comes out is at most as heavy as the inner side.
pub proof fn lemma_flatmap_bounds(p: SpecRel, st: SpecState, func: SpecRel)
    ensures
        p.flatmap(st, func).next_id >= st.next_id,
        p.flatmap(st, func).result is Ok ==> p.flatmap(st, func).fits(func.spine_weight()),
    decreases func.spine_weight() + 3,
{
    if st.decorrelating() && func.free().is_empty() {
        lemma_join_is_join(p, func, Seq::empty());
    } else if st.decorrelating() && func is Project {
        lemma_flatmap_bounds(p, st, *func->Project_src);
        let lifted = p.flatmap(st, *func->Project_src);
        if lifted.fits(func->Project_src.spine_weight()) {
            lemma_project_bounds(
                lifted.plan(),
                st.at(lifted.next_id),
                func->Project_cols.union(p.att()),
            );
        }
    } else if st.decorrelating() && func is MapCols {
        lemma_flatmap_bounds(p, st, *func->MapCols_input);
        let lifted = p.flatmap(st, *func->MapCols_input);
        if lifted.fits(func->MapCols_input.spine_weight()) {
            lemma_map_bounds(lifted.plan(), st.at(lifted.next_id), func->MapCols_exprs);
        }
    } else {
    }
}

/// Projection keeps within its weight: the counter never goes back, and
/// the plan that comes out is at most one heavier than the plan that went in.
pub proof fn lemma_project_bounds(p: SpecRel, st: SpecState, cols: Set<usize>)
    ensures
        p.project(st, cols).next_id >= st.next_id,
        p.project(st, cols).result is Ok ==> p.project(st, cols).fits(p.spine_weight() + 1),
    decreases p.spine_weight() + 3,
{
    if p.pushes_projection(cols) {
        lemma_project_bounds(*p->MapCols_input, st, cols);
        let narrowed = p->MapCols_input.project(st, cols);
        if narrowed.fits(p->MapCols_input.spine_weight() + 1) {
            lemma_map_bounds(narrowed.plan(), st.at(narrowed.next_id), p->MapCols_exprs);
        }
    } else {
    }
}

/// How computed columns hoist: where hoisting is on and an assignment
/// holds a subquery, the rest of the list is mapped first, and where that
/// gives a plan the assignment taken out is hoisted into it; an error is
/// passed on.
pub proof fn lemma_map_hoists(p: SpecRel, st: SpecState, exprs: Seq<(usize, SpecExpr)>)
    requires
        st.hoisting(),
        0 <= first_subquery(exprs, 0) < exprs.len(),
    ensures
        ({
            let i = first_subquery(exprs, 0);
            let below = p.map(st, swap_removed(exprs, i));
            p.map(st, exprs) == if below.result is Ok {
                below.plan().hoist(st.at(below.next_id), exprs[i].0, exprs[i].1)
            } else {
                below
            }
        }),
{
    lemma_map_bounds(p, st, swap_removed(exprs, first_subquery(exprs, 0)));
}

/// How a sum is hoisted: with two identifiers left, the left operand is
/// hoisted under the first, the right operand into the result under the
/// second, the sum of the two columns is computed as `id`, and the result
/// is projected to the attributes of the plan and `id`; the error of an
/// operand is passed on.
pub proof fn lemma_hoist_sum(
    p: SpecRel,
    st: SpecState,
    id: usize,
    left: SpecExpr,
    right: SpecExpr,
)
    requires
        st.next_id + 2 <= usize::MAX,
    ensures
        ({
            let left_id = fresh_id(st.next_id);
            let right_id = fresh_id(st.next_id + 1);
            let first = p.hoist(st.advanced(2), left_id, left);
            let second = first.plan().hoist(st.at(first.next_id), right_id, right);
            let sum = SpecRel::MapCols {
                input: Box::new(second.plan()),
                exprs: seq![sum_of_cols(id, left_id, right_id)],
            };
            p.hoist(st, id, SpecExpr::Plus { left: Box::new(left), right: Box::new(right) })
                == if first.result is Err {
                first
            } else if second.result is Err {
                second
            } else {
                sum.project(st.at(second.next_id), p.att().insert(id))
            }
        }),
{
    let left_id = fresh_id(st.next_id);
    let right_id = fresh_id(st.next_id + 1);
    lemma_hoist_bounds(p, st.advanced(2), left_id, left);
    let first = p.hoist(st.advanced(2), left_id, left);
    if first.result is Ok {
        lemma_hoist_bounds(first.plan(), st.at(first.next_id), right_id, right);
    }
}

/// How the dependent join pulls up: with decorrelation on and free
/// variables on the inner side, a projection or a computed-column node at
/// the top of the inner side is applied to the dependent join with what is
/// below it; an error is passed on.
pub proof fn lemma_flatmap_pulls_up(p: SpecRel, st: SpecState, func: SpecRel)
    requires
        st.decorrelating(),
        !func.free().is_empty(),
    ensures
        func matches SpecRel::Project { src, cols } ==> ({
            let lifted = p.flatmap(st, *src);
            p.flatmap(st, func) == if lifted.result is Ok {
                lifted.plan().project(st.at(lifted.next_id), cols.union(p.att()))
            } else {
                lifted
            }
        }),
        func matches SpecRel::MapCols { input, exprs } ==> ({
            let lifted = p.flatmap(st, *input);
            p.flatmap(st, func) == if lifted.result is Ok {
                lifted.plan().map(st.at(lifted.next_id), exprs)
            } else {
                lifted
            }
        }),
        !(func is Project) && !(func is MapCols) ==> p.flatmap(st, func) == Rewritten::done(
            SpecRel::FlatMap { input: Box::new(p), func: Box::new(func) },
            st,
        ),
{
    match func {
        SpecRel::Project { src, .. } => {
            lemma_flatmap_bounds(p, st, *src);
        },
        SpecRel::MapCols { input, .. } => {
            lemma_flatmap_bounds(p, st, *input);
        },
        _ => {},
    }
}

/// How a projection is pushed down: it is applied to the input of the
/// computed-column node, and where that gives a plan the assignments of
/// the node are mapped over it; an error is passed on.
pub proof fn lemma_project_pushes_down(p: SpecRel, st: SpecState, cols: Set<usize>)
    requires
        p.pushes_projection(cols),
    ensures
        ({
            let narrowed = p->MapCols_input.project(st, cols);
            p.project(st, cols) == if narrowed.result is Ok {
                narrowed.plan().map(st.at(narrowed.next_id), p->MapCols_exprs)
            } else {
                narrowed
            }
        }),
{
    lemma_project_bounds(*p->MapCols_input, st, cols);
}

/// What the result of an executable constructor stands for.
pub open spec fn result_model(res: Result<RelExpr, RewriteError>) -> Result<
    SpecRel,
    RewriteError,
> {
    match res {
        Ok(plan) => Ok(plan@),
        Err(error) => Err(error),
    }
}

/// The model of a list without entry `i` is the model without entry `i`.
pub proof fn lemma_assignments_model_swap_removed(a: Seq<(usize, Expr)>, i: int)
    requires
        0 <= i < a.len(),
    ensures
        assignments_model(swap_removed(a, i)) == swap_removed(assignments_model(a), i),
{
    lemma_assignments_model(a);
    lemma_assignments_model(swap_removed(a, i));
    assert(assignments_model(swap_removed(a, i)) =~= swap_removed(assignments_model(a), i));
}

/// Finds the first assignment that holds a subquery.
fn find_subquery(exprs: &Vec<(usize, Expr)>) -> (i: usize)
    ensures
        i == first_subquery(assignments_model(exprs@), 0),
        i <= exprs.len(),
{
    let ghost m = assignments_model(exprs@);
    proof {
        lemma_assignments_model(exprs@);
    }
    let mut i: usize = 0;
    while i < exprs.len()
        invariant
            i <= exprs.len(),
            m == assignments_model(exprs@),
            m.len() == exprs.len(),
            forall|j: int| 0 <= j < exprs.len() ==> (#[trigger] m[j]) == (exprs@[j].0, exprs@[j].1@),
            first_subquery(m, 0) == first_subquery(m, i as int),
        decreases exprs.len() - i,
    {
        if exprs[i].1.has_subquery() {
            return i;
        }
        i += 1;
    }
    i
}

/// The one-assignment list `[(id, expr)]`.
fn single(id: usize, expr: Expr) -> (v: Vec<(usize, Expr)>)
    ensures
        assignments_model(v@) == seq![(id, expr@)],
{
    let mut v: Vec<(usize, Expr)> = Vec::new();
    v.push((id, expr));
    proof {
        lemma_assignments_model(v@);
        assert(assignments_model(v@) =~= seq![(id, expr@)]);
    }
    v
}

impl RelExpr {
    /// Extends the plan by the computed columns `exprs`, hoisting the
    /// subqueries among them where the hoisting rule is on.
    pub fn map(self, state: &mut State, exprs: Vec<(usize, Expr)>) -> (res: Result<
        RelExpr,
        RewriteError,
    >)
        ensures
            result_model(res) == self@.map(old(state)@, assignments_model(exprs@)).result,
            final(state)@ == old(state)@.at(
                self@.map(old(state)@, assignments_model(exprs@)).next_id,
            ),
            res matches Ok(plan) ==> self@.att().union(
                assigned_ids(assignments_model(exprs@)),
            ).subset_of(plan@.att()),
        decreases self@.spine_weight() + assigned_weight(assignments_model(exprs@)) + 2,
    {
        let mut rest = exprs;
        let ghost st = state@;
        proof {
            lemma_map_keeps_attributes(self@, st, assignments_model(exprs@));
        }
        let ghost all = assignments_model(rest@);
        proof {
            lemma_assignments_model(rest@);
        }
        if rest.is_empty() {
            return Ok(self);
        }
        if state.enabled(Rule::Hoist) {
            let i = find_subquery(&rest);
            if i < rest.len() {
                proof {
                    lemma_assignments_model_swap_removed(rest@, i as int);
                    lemma_first_subquery(all, 0);
                    lemma_assigned_weight_swap_removed(all, i as int);
                    lemma_map_bounds(self@, st, swap_removed(all, i as int));
                    let below = self@.map(st, swap_removed(all, i as int));
                    if below.result is Ok {
                        lemma_hoist_bounds(
                            below.plan(),
                            st.at(below.next_id),
                            all[i as int].0,
                            all[i as int].1,
                        );
                    }
                }
                let (id, expr) = rest.swap_remove(i);
                let below = match self.map(state, rest) {
                    Ok(below) => below,
                    Err(error) => {
                        return Err(error);
                    },
                };
                return below.hoist(state, id, expr);
            }
        }
        Ok(RelExpr::MapCols { input: Box::new(self), exprs: rest })
    }

    /// Extends the plan by column `id`, which holds the value of `expr`,
    /// turning the subqueries of `expr` into dependent joins. The fresh
    /// columns that a sum takes are projected away again.
    pub fn hoist(self, state: &mut State, id: usize, expr: Expr) -> (res: Result<
        RelExpr,
        RewriteError,
    >)
        ensures
            result_model(res) == self@.hoist(old(state)@, id, expr@).result,
            final(state)@ == old(state)@.at(self@.hoist(old(state)@, id, expr@).next_id),
            expr@ matches SpecExpr::Subquery { plan } && !(plan.att().finite() && plan.att().len()
                == 1) ==> res == Err::<RelExpr, RewriteError>(RewriteError::Arity),
            expr@ is Eq ==> res == Err::<RelExpr, RewriteError>(RewriteError::Unsupported),
            res matches Ok(plan) ==> self@.att().insert(id).subset_of(plan@.att()),
        decreases self@.spine_weight() + expr@.hoist_weight(),
    {
        let ghost st = state@;
        proof {
            lemma_hoist_keeps_attributes(self@, st, id, expr@);
        }
        match expr {
            Expr::Subquery { expr: plan } => {
                let att = plan.att();
                proof {
                    lemma_view_finite(&att);
                }
                match sole_member(&att) {
                    None => Err(RewriteError::Arity),
                    Some(col) => {
                        proof {
                            assert(plan@.att().contains(col));
                            assert(plan@.att().choose() == col);
                            lemma_assigned_weight_one((id, SpecExpr::ColRef { id: col }));
                            reveal_with_fuel(first_subquery, 2);
                            let renamed = SpecRel::MapCols {
                                input: Box::new(plan@),
                                exprs: seq![(id, SpecExpr::ColRef { id: col })],
                            };
                            lemma_flatmap_bounds(self@, st, renamed);
                        }
                        let renaming = single(id, Expr::ColRef { id: col });
                        let inner = match (*plan).map(state, renaming) {
                            Ok(inner) => inner,
                            Err(error) => {
                                return Err(error);
                            },
                        };
                        self.flatmap(state, inner)
                    },
                }
            },
            Expr::Plus { left, right } => {
                proof {
                    let left_id = fresh_id(st.next_id);
                    let right_id = fresh_id(st.next_id + 1);
                    lemma_hoist_bounds(self@, st.advanced(2), left_id, left@);
                    let first = self@.hoist(st.advanced(2), left_id, left@);
                    if first.result is Ok {
                        lemma_hoist_bounds(first.plan(), st.at(first.next_id), right_id, right@);
                        let second = first.plan().hoist(st.at(first.next_id), right_id, right@);
                        if second.result is Ok {
                            let sum = SpecRel::MapCols {
                                input: Box::new(second.plan()),
                                exprs: seq![sum_of_cols(id, left_id, right_id)],
                            };
                            lemma_assigned_weight_one(sum_of_cols(id, left_id, right_id));
                            reveal_with_fuel(SpecExpr::has_subquery, 2);
                            reveal_with_fuel(first_subquery, 2);
                            lemma_project_bounds(sum, st.at(second.next_id), self@.att().insert(id));
                        }
                    }
                }
                if state.peek() > usize::MAX - 2 {
                    return Err(RewriteError::IdsExhausted);
                }
                let left_id = state.next();
                let right_id = state.next();
                let mut cols = self.att();
                cols.insert(id);
                let first = match self.hoist(state, left_id, *left) {
                    Ok(first) => first,
                    Err(error) => {
                        return Err(error);
                    },
                };
                let second = match first.hoist(state, right_id, *right) {
                    Ok(second) => second,
                    Err(error) => {
                        return Err(error);
                    },
                };
                let sum = single(
                    id,
                    Expr::Plus {
                        left: Box::new(Expr::ColRef { id: left_id }),
                        right: Box::new(Expr::ColRef { id: right_id }),
                    },
                );
                proof {
                    reveal_with_fuel(Expr::model, 2);
                    assert(assignments_model(sum@) == seq![sum_of_cols(id, left_id, right_id)]);
                }
                let summed = match second.map(state, sum) {
                    Ok(summed) => summed,
                    Err(error) => {
                        return Err(error);
                    },
                };
                summed.project(state, cols)
            },
            Expr::Int { val } => {
                proof {
                    lemma_assigned_weight_one((id, SpecExpr::Int { val }));
                    reveal_with_fuel(first_subquery, 2);
                }
                let assignment = single(id, Expr::Int { val });
                self.map(state, assignment)
            },
            Expr::ColRef { id: col } => {
                proof {
                    lemma_assigned_weight_one((id, SpecExpr::ColRef { id: col }));
                    reveal_with_fuel(first_subquery, 2);
                }
                let assignment = single(id, Expr::ColRef { id: col });
                self.map(state, assignment)
            },
            Expr::Eq { .. } => Err(RewriteError::Unsupported),
        }
    }

    /// Joins the plan with `func` as a dependent join, decorrelating it
    /// where the decorrelation rule is on and the shape of `func` allows.
    pub fn flatmap(self, state: &mut State, func: RelExpr) -> (res: Result<RelExpr, RewriteError>)
        ensures
            result_model(res) == self@.flatmap(old(state)@, func@).result,
            final(state)@ == old(state)@.at(self@.flatmap(old(state)@, func@).next_id),
            old(state)@.decorrelating() && func@.free().is_empty() ==> res is Ok && res->Ok_0@
                is Join,
            res matches Ok(plan) ==> self@.att().union(func@.att()).subset_of(plan@.att()),
        decreases func@.spine_weight() + 3,
    {
        let ghost st = state@;
        proof {
            lemma_join_is_join(self@, func@, Seq::empty());
            lemma_flatmap_keeps_attributes(self@, st, func@);
        }
        if state.enabled(Rule::Decorrelate) {
            let free = func.free();
            if free.is_empty() {
                let none: Vec<Expr> = Vec::new();
                proof {
                    lemma_exprs_model(none@);
                    assert(exprs_model(none@) =~= Seq::<SpecExpr>::empty());
                }
                return Ok(self.join(func, none));
            }
            match func {
                RelExpr::Project { src, cols } => {
                    proof {
                        lemma_flatmap_bounds(self@, st, src@);
                        let lifted = self@.flatmap(st, src@);
                        if lifted.result is Ok {
                            lemma_project_bounds(
                                lifted.plan(),
                                st.at(lifted.next_id),
                                cols@.union(self@.att()),
                            );
                        }
                    }
                    let mut cols = cols;
                    let att = self.att();
                    union_into(&mut cols, &att);
                    let lifted = match self.flatmap(state, *src) {
                        Ok(lifted) => lifted,
                        Err(error) => {
                            return Err(error);
                        },
                    };
                    lifted.project(state, cols)
                },
                RelExpr::MapCols { input, exprs } => {
                    proof {
                        lemma_flatmap_bounds(self@, st, input@);
                        let lifted = self@.flatmap(st, input@);
                        if lifted.result is Ok {
                            lemma_map_bounds(
                                lifted.plan(),
                                st.at(lifted.next_id),
                                assignments_model(exprs@),
                            );
                        }
                    }
                    let lifted = match self.flatmap(state, *input) {
                        Ok(lifted) => lifted,
                        Err(error) => {
                            return Err(error);
                        },
                    };
                    lifted.map(state, exprs)
                },
                other => Ok(RelExpr::FlatMap { input: Box::new(self), func: Box::new(other) }),
            }
        } else {
            Ok(RelExpr::FlatMap { input: Box::new(self), func: Box::new(func) })
        }
    }

    /// Projects the plan to `cols`, pushing the projection below a
    /// computed-column node whose right-hand sides refer to every column
    /// of `cols`.
    pub fn project(self, state: &mut State, cols: HashSet<usize>) -> (res: Result<
        RelExpr,
        RewriteError,
    >)
        ensures
            result_model(res) == self@.project(old(state)@, cols@).result,
            final(state)@ == old(state)@.at(self@.project(old(state)@, cols@).next_id),
            res matches Ok(plan) ==> cols@.subset_of(plan@.att()),
            !self@.pushes_projection(cols@) ==> res is Ok && res->Ok_0@.att() == cols@,
        decreases self@.spine_weight() + 3,
    {
        let ghost st = state@;
        proof {
            lemma_project_keeps_attributes(self@, st, cols@);
        }
        match self {
            RelExpr::MapCols { input, exprs } => {
                let mut required: HashSet<usize> = HashSet::new();
                add_free_of_assignments(&mut required, &exprs);
                proof {
                    assert(required@ =~= required_cols(assignments_model(exprs@)));
                }
                if is_subset(&cols, &required) {
                    proof {
                        lemma_project_bounds(input@, st, cols@);
                        let narrowed = input@.project(st, cols@);
                        if narrowed.result is Ok {
                            lemma_map_bounds(
                                narrowed.plan(),
                                st.at(narrowed.next_id),
                                assignments_model(exprs@),
                            );
                        }
                    }
                    let narrowed = match (*input).project(state, cols) {
                        Ok(narrowed) => narrowed,
                        Err(error) => {
                            return Err(error);
                        },
                    };
                    narrowed.map(state, exprs)
                } else {
                    Ok(
                        RelExpr::Project {
                            src: Box::new(RelExpr::MapCols { input, exprs }),
                            cols,
                        },
                    )
                }
            },
            other => Ok(RelExpr::Project { src: Box::new(other), cols }),
        }
    }
}

} // verus!
