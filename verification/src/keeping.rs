//! The constructors keep plans hygienic.
//!
//! Each law here says of one constructor: where its arguments are
//! hygienic, do not collide with each other, and hold only identifiers
//! that the session has handed out, the plan it builds is hygienic, and so
//! well formed at every node. The laws also say what the plan introduces
//! and mentions, which is what the next constructor asks of its arguments.
use crate::analysis::{assigned_ids, frees_of, union_of};
use crate::filter::{first_one_sided, lemma_first_one_sided, lemma_select_att, swap_removed};
use crate::hygiene::{
    assignments_hygienic, introduced_in, lemma_assignment_sets, lemma_expr_mentions,
    lemma_hygienic_well_formed, lemma_plan_closed, lemma_plan_mentions, lemma_predicate_free,
    mentioned_in,
};
use crate::ir::{SpecExpr, SpecRel};
use crate::laws::{
    lemma_assigned_ids_swap_removed, lemma_flatmap_keeps_attributes,
    lemma_hoist_keeps_attributes,
};
use crate::rewrite::{
    first_subquery, fresh_id, lemma_first_subquery, lemma_flatmap_bounds, lemma_flatmap_pulls_up,
    lemma_hoist_bounds, lemma_hoist_sum, lemma_map_bounds, lemma_map_hoists,
    lemma_project_bounds, lemma_project_pushes_down, required_cols, sum_of_cols, Rewritten,
};
use crate::state::SpecState;
use crate::weight::{assigned_weight, lemma_assigned_weight_one, lemma_assigned_weight_swap_removed};
use vstd::prelude::*;

verus! {

/// A selection of well-formed predicates over a hygienic plan is
/// hygienic. It introduces what the plan introduces, and mentions what the
/// plan mentions and the predicates refer to.
pub proof fn lemma_select_hygienic(p: SpecRel, predicates: Seq<SpecExpr>)
    requires
        p.hygienic(),
        forall|i: int| 0 <= i < predicates.len() ==> (#[trigger] predicates[i]).well_formed(),
    ensures
        p.select(predicates).hygienic(),
        p.select(predicates).introduced() == p.introduced(),
        p.select(predicates).mentioned() == p.mentioned().union(union_of(frees_of(predicates))),
    decreases p,
{
    match p {
        SpecRel::Select { src, predicates: held } => {
            let all = held + predicates;
            assert forall|i: int| 0 <= i < all.len() implies (#[trigger] all[i]).well_formed() by {
                if i < held.len() {
                    assert(all[i] == held[i]);
                } else {
                    assert(all[i] == predicates[i - held.len()]);
                }
            }
            lemma_select_hygienic(*src, all);
            lemma_predicate_free(all);
            lemma_predicate_free(held);
            lemma_predicate_free(predicates);
            assert forall|c: usize|
                union_of(frees_of(all)).contains(c) <==> union_of(frees_of(held)).contains(c)
                    || union_of(frees_of(predicates)).contains(c) by {
                if union_of(frees_of(all)).contains(c) {
                    let i = choose|i: int|
                        0 <= i < all.len() && (#[trigger] all[i]).free().contains(c);
                    if i < held.len() {
                        assert(held[i].free().contains(c));
                    } else {
                        assert(predicates[i - held.len()].free().contains(c));
                    }
                }
                if union_of(frees_of(held)).contains(c) {
                    let i = choose|i: int|
                        0 <= i < held.len() && (#[trigger] held[i]).free().contains(c);
                    assert(all[i].free().contains(c));
                }
                if union_of(frees_of(predicates)).contains(c) {
                    let i = choose|i: int|
                        0 <= i < predicates.len() && (#[trigger] predicates[i]).free().contains(c);
                    assert(all[i + held.len()].free().contains(c));
                }
            }
            assert(p.select(predicates).mentioned() =~= p.mentioned().union(
                union_of(frees_of(predicates)),
            ));
        },
        _ => {},
    }
}

/// The join of two hygienic plans, neither of which mentions what the
/// other introduces, is hygienic. It introduces what the two plans
/// introduce, and mentions what they mention and the predicates refer to.
pub proof fn lemma_join_hygienic(left: SpecRel, right: SpecRel, predicates: Seq<SpecExpr>)
    requires
        left.hygienic(),
        right.hygienic(),
        left.introduced().disjoint(right.mentioned()),
        right.introduced().disjoint(left.mentioned()),
        forall|i: int| 0 <= i < predicates.len() ==> (#[trigger] predicates[i]).well_formed(),
    ensures
        left.join(right, predicates).hygienic(),
        left.join(right, predicates).introduced() == left.introduced().union(right.introduced()),
        left.join(right, predicates).mentioned().subset_of(
            left.mentioned().union(right.mentioned()).union(union_of(frees_of(predicates))),
        ),
    decreases predicates.len(),
{
    let i = first_one_sided(predicates, left.att(), right.att(), 0);
    lemma_first_one_sided(predicates, left.att(), right.att(), 0);
    lemma_predicate_free(predicates);
    if 0 <= i < predicates.len() {
        let e = predicates[i];
        let rest = swap_removed(predicates, i);
        lemma_predicate_free(rest);
        lemma_predicate_free(seq![e]);
        assert forall|j: int| 0 <= j < rest.len() implies (#[trigger] rest[j]).well_formed() by {
            if j == i {
                assert(rest[j] == predicates[predicates.len() - 1]);
            } else {
                assert(rest[j] == predicates[j]);
            }
        }
        assert forall|c: usize| union_of(frees_of(rest)).contains(c) implies union_of(
            frees_of(predicates),
        ).contains(c) by {
            let j = choose|j: int| 0 <= j < rest.len() && (#[trigger] rest[j]).free().contains(c);
            if j == i {
                assert(predicates[predicates.len() - 1].free().contains(c));
            } else {
                assert(predicates[j].free().contains(c));
            }
        }
        assert forall|c: usize| union_of(frees_of(seq![e])).contains(c) implies e.free().contains(
            c,
        ) by {
            let j = choose|j: int|
                0 <= j < seq![e].len() && (#[trigger] seq![e][j]).free().contains(c);
        }
        assert(seq![e][0].well_formed());
        lemma_hygienic_well_formed(left);
        lemma_hygienic_well_formed(right);
        lemma_plan_mentions(left);
        lemma_plan_mentions(right);
        if e.bound_by(left) {
            lemma_select_hygienic(left, seq![e]);
            lemma_select_att(left, seq![e]);
            lemma_join_hygienic(left.select(seq![e]), right, rest);
        } else {
            lemma_select_hygienic(right, seq![e]);
            lemma_select_att(right, seq![e]);
            lemma_join_hygienic(left, right.select(seq![e]), rest);
        }
    }
}

/// The identifiers from `lo` up to, and not including, `hi`.
pub open spec fn fresh_range(lo: nat, hi: nat) -> Set<usize> {
    Set::new(|c: usize| lo <= c < hi)
}

/// Whether every identifier in `s` is less than `n`.
pub open spec fn all_below(s: Set<usize>, n: nat) -> bool {
    forall|c: usize| s.contains(c) ==> c < n
}

/// Hygienic assignments stay hygienic over another plan, as long as what
/// that plan mentions beyond the first is nothing that they introduce.
pub proof fn lemma_assignments_rebased(
    exprs: Seq<(usize, SpecExpr)>,
    from: Set<usize>,
    to: Set<usize>,
)
    requires
        assignments_hygienic(exprs, from),
        forall|c: usize|
            to.contains(c) ==> from.contains(c) || (!assigned_ids(exprs).contains(c)
                && !introduced_in(exprs).contains(c)),
    ensures
        assignments_hygienic(exprs, to),
{
    lemma_assignment_sets(exprs, from);
    lemma_assignment_sets(exprs, to);
    assert forall|i: int| 0 <= i < exprs.len() implies !to.contains((#[trigger] exprs[i]).0)
        && exprs[i].1.introduced().disjoint(to) by {
        assert(assigned_ids(exprs).contains(exprs[i].0));
        assert forall|c: usize| exprs[i].1.introduced().contains(c) implies !to.contains(c) by {
            assert(introduced_in(exprs).contains(c));
            assert(exprs[i].1.introduced().disjoint(from));
        }
    }
}

/// What a list of one assignment introduces and mentions, and when it is
/// hygienic.
pub proof fn lemma_single_assignment(a: (usize, SpecExpr), below: Set<usize>)
    ensures
        assigned_ids(seq![a]) == set![a.0],
        introduced_in(seq![a]) == a.1.introduced(),
        mentioned_in(seq![a]) == a.1.mentioned(),
        a.1.hygienic() && !below.contains(a.0) && a.1.introduced().disjoint(below)
            && !a.1.mentioned().contains(a.0) ==> assignments_hygienic(seq![a], below),
{
    let s = seq![a];
    lemma_assignment_sets(s, below);
    assert(s[0] == a);
    assert forall|c: usize| assigned_ids(s).contains(c) <==> c == a.0 by {
        if assigned_ids(s).contains(c) {
            let i = choose|i: int| 0 <= i < s.len() && (#[trigger] s[i]).0 == c;
        }
        if c == a.0 {
            assert(s[0].0 == c);
        }
    }
    assert(assigned_ids(s) =~= set![a.0]);
    assert forall|c: usize| introduced_in(s).contains(c) <==> a.1.introduced().contains(c) by {
        if introduced_in(s).contains(c) {
            let i = choose|i: int| 0 <= i < s.len() && (#[trigger] s[i]).1.introduced().contains(c);
        }
        if a.1.introduced().contains(c) {
            assert(s[0].1.introduced().contains(c));
        }
    }
    assert(introduced_in(s) =~= a.1.introduced());
    assert forall|c: usize| mentioned_in(s).contains(c) <==> a.1.mentioned().contains(c) by {
        if mentioned_in(s).contains(c) {
            let i = choose|i: int| 0 <= i < s.len() && (#[trigger] s[i]).1.mentioned().contains(c);
        }
        if a.1.mentioned().contains(c) {
            assert(s[0].1.mentioned().contains(c));
        }
    }
    assert(mentioned_in(s) =~= a.1.mentioned());
}

/// Taking assignment `i` out of a hygienic list leaves a hygienic list,
/// which neither introduces nor mentions the identifier taken out, and
/// mentions nothing that the right-hand side taken out introduces.
pub proof fn lemma_assignments_without(exprs: Seq<(usize, SpecExpr)>, below: Set<usize>, i: int)
    requires
        0 <= i < exprs.len(),
        assignments_hygienic(exprs, below),
    ensures
        assignments_hygienic(swap_removed(exprs, i), below),
        assigned_ids(exprs) == assigned_ids(swap_removed(exprs, i)).insert(exprs[i].0),
        introduced_in(exprs) == introduced_in(swap_removed(exprs, i)).union(
            exprs[i].1.introduced(),
        ),
        mentioned_in(exprs) == mentioned_in(swap_removed(exprs, i)).union(exprs[i].1.mentioned()),
        exprs[i].1.hygienic(),
        !below.contains(exprs[i].0),
        exprs[i].1.introduced().disjoint(below),
        !exprs[i].1.mentioned().contains(exprs[i].0),
        !assigned_ids(swap_removed(exprs, i)).contains(exprs[i].0),
        !mentioned_in(swap_removed(exprs, i)).contains(exprs[i].0),
        exprs[i].1.introduced().disjoint(assigned_ids(swap_removed(exprs, i))),
        exprs[i].1.introduced().disjoint(mentioned_in(swap_removed(exprs, i))),
{
    let rest = swap_removed(exprs, i);
    let n = exprs.len() - 1;
    lemma_assignment_sets(exprs, below);
    lemma_assignment_sets(rest, below);
    lemma_assigned_ids_swap_removed(exprs, i);
    // where an entry of the shorter list comes from
    let from = |j: int| if j == i { n } else { j };
    assert forall|j: int| 0 <= j < rest.len() implies (#[trigger] rest[j]) == exprs[from(j)]
        && from(j) != i && 0 <= from(j) < exprs.len() by {}
    assert forall|j: int| 0 <= j < rest.len() implies (#[trigger] rest[j]).1.hygienic()
        && !below.contains(rest[j].0) && rest[j].1.introduced().disjoint(below)
        && !rest[j].1.mentioned().contains(rest[j].0) by {
        assert(rest[j] == exprs[from(j)]);
    }
    assert forall|j: int, k: int|
        0 <= j < rest.len() && 0 <= k < rest.len() && j != k implies (#[trigger] rest[j]).0 != (
        #[trigger] rest[k]).0 && !rest[k].1.mentioned().contains(rest[j].0)
        && rest[j].1.introduced().disjoint(rest[k].1.mentioned())
        && !rest[j].1.introduced().contains(rest[k].0) by {
        assert(rest[j] == exprs[from(j)]);
        assert(rest[k] == exprs[from(k)]);
        assert(from(j) != from(k));
    }
    assert forall|c: usize|
        introduced_in(exprs).contains(c) <==> introduced_in(rest).contains(c)
            || exprs[i].1.introduced().contains(c) by {
        if introduced_in(exprs).contains(c) {
            let k = choose|k: int|
                0 <= k < exprs.len() && (#[trigger] exprs[k]).1.introduced().contains(c);
            if k != i {
                let j = if k == n { i } else { k };
                assert(rest[j] == exprs[k]);
                assert(rest[j].1.introduced().contains(c));
            }
        }
        if introduced_in(rest).contains(c) {
            let j = choose|j: int|
                0 <= j < rest.len() && (#[trigger] rest[j]).1.introduced().contains(c);
            assert(rest[j] == exprs[from(j)]);
            assert(exprs[from(j)].1.introduced().contains(c));
        }
        if exprs[i].1.introduced().contains(c) {
            assert(introduced_in(exprs).contains(c));
        }
    }
    assert(introduced_in(exprs) =~= introduced_in(rest).union(exprs[i].1.introduced()));
    assert forall|c: usize|
        mentioned_in(exprs).contains(c) <==> mentioned_in(rest).contains(c)
            || exprs[i].1.mentioned().contains(c) by {
        if mentioned_in(exprs).contains(c) {
            let k = choose|k: int|
                0 <= k < exprs.len() && (#[trigger] exprs[k]).1.mentioned().contains(c);
            if k != i {
                let j = if k == n { i } else { k };
                assert(rest[j] == exprs[k]);
                assert(rest[j].1.mentioned().contains(c));
            }
        }
        if mentioned_in(rest).contains(c) {
            let j = choose|j: int|
                0 <= j < rest.len() && (#[trigger] rest[j]).1.mentioned().contains(c);
            assert(rest[j] == exprs[from(j)]);
            assert(exprs[from(j)].1.mentioned().contains(c));
        }
        if exprs[i].1.mentioned().contains(c) {
            assert(mentioned_in(exprs).contains(c));
        }
    }
    assert(mentioned_in(exprs) =~= mentioned_in(rest).union(exprs[i].1.mentioned()));
    if assigned_ids(rest).contains(exprs[i].0) {
        let j = choose|j: int| 0 <= j < rest.len() && (#[trigger] rest[j]).0 == exprs[i].0;
        assert(rest[j] == exprs[from(j)]);
        assert(exprs[from(j)].0 != exprs[i].0);
    }
    if mentioned_in(rest).contains(exprs[i].0) {
        let j = choose|j: int|
            0 <= j < rest.len() && (#[trigger] rest[j]).1.mentioned().contains(exprs[i].0);
        assert(rest[j] == exprs[from(j)]);
        assert(!exprs[from(j)].1.mentioned().contains(exprs[i].0));
    }
    assert forall|c: usize| exprs[i].1.introduced().contains(c) implies !assigned_ids(
        rest,
    ).contains(c) && !mentioned_in(rest).contains(c) by {
        if assigned_ids(rest).contains(c) {
            let j = choose|j: int| 0 <= j < rest.len() && (#[trigger] rest[j]).0 == c;
            assert(rest[j] == exprs[from(j)]);
            assert(!exprs[i].1.introduced().contains(exprs[from(j)].0));
        }
        if mentioned_in(rest).contains(c) {
            let j = choose|j: int|
                0 <= j < rest.len() && (#[trigger] rest[j]).1.mentioned().contains(c);
            assert(rest[j] == exprs[from(j)]);
            assert(exprs[i].1.introduced().disjoint(exprs[from(j)].1.mentioned()));
        }
    }
}

/// A part of a set of identifiers below `n` is below every `m` from `n` on.
pub proof fn lemma_all_below_part(part: Set<usize>, whole: Set<usize>, n: nat, m: nat)
    requires
        part.subset_of(whole),
        all_below(whole, n),
        n <= m,
    ensures
        all_below(part, m),
{
}

/// A plan that mentions only identifiers below `lo` and identifiers
/// handed out from `lo` up to `hi` mentions only identifiers below `hi`.
pub proof fn lemma_all_below_grown(now: Set<usize>, before: Set<usize>, lo: nat, hi: nat)
    requires
        now.subset_of(before.union(fresh_range(lo, hi))),
        all_below(before, lo),
        lo <= hi,
    ensures
        all_below(now, hi),
{
    assert forall|c: usize| now.contains(c) implies c < hi by {
        assert(before.union(fresh_range(lo, hi)).contains(c));
    }
}

/// Whether the plan of `r`, where there is one, is hygienic, introduces
/// nothing but `introduced` and the identifiers handed out since `st`, and
/// mentions nothing but `mentioned` and those identifiers.
pub open spec fn stays_hygienic(
    r: Rewritten,
    st: SpecState,
    introduced: Set<usize>,
    mentioned: Set<usize>,
) -> bool {
    r.result is Ok ==> {
        &&& r.plan().hygienic()
        &&& r.plan().introduced().subset_of(introduced.union(fresh_range(st.next_id, r.next_id)))
        &&& r.plan().mentioned().subset_of(mentioned.union(fresh_range(st.next_id, r.next_id)))
    }
}

/// A step that starts where another has ended: what is within bounds
/// counted from the later counter is within bounds counted from the
/// earlier one.
proof fn lemma_stays_hygienic_after(
    r: Rewritten,
    st: SpecState,
    mid: nat,
    introduced_mid: Set<usize>,
    mentioned_mid: Set<usize>,
    introduced: Set<usize>,
    mentioned: Set<usize>,
)
    requires
        st.next_id <= mid <= r.next_id,
        stays_hygienic(r, st.at(mid), introduced_mid, mentioned_mid),
        introduced_mid.subset_of(introduced.union(fresh_range(st.next_id, mid))),
        mentioned_mid.subset_of(mentioned.union(fresh_range(st.next_id, mid))),
    ensures
        stays_hygienic(r, st, introduced, mentioned),
{
    if r.result is Ok {
        let u = st.next_id;
        let u2 = r.next_id;
        assert forall|c: usize| r.plan().introduced().contains(c) implies introduced.union(
            fresh_range(u, u2),
        ).contains(c) by {
            assert(introduced_mid.union(fresh_range(mid, u2)).contains(c));
            if introduced_mid.contains(c) {
                assert(introduced.union(fresh_range(u, mid)).contains(c));
            }
        }
        assert forall|c: usize| r.plan().mentioned().contains(c) implies mentioned.union(
            fresh_range(u, u2),
        ).contains(c) by {
            assert(mentioned_mid.union(fresh_range(mid, u2)).contains(c));
            if mentioned_mid.contains(c) {
                assert(mentioned.union(fresh_range(u, mid)).contains(c));
            }
        }
    }
}

/// Computed columns keep a plan hygienic, where the assignments are
/// hygienic over the plan and every identifier in play has been handed
/// out before.
pub proof fn lemma_map_hygienic(p: SpecRel, st: SpecState, exprs: Seq<(usize, SpecExpr)>)
    requires
        p.hygienic(),
        assignments_hygienic(exprs, p.mentioned()),
        all_below(p.mentioned(), st.next_id),
        all_below(assigned_ids(exprs), st.next_id),
        all_below(mentioned_in(exprs), st.next_id),
    ensures
        stays_hygienic(
            p.map(st, exprs),
            st,
            p.introduced().union(assigned_ids(exprs)).union(introduced_in(exprs)),
            p.mentioned().union(assigned_ids(exprs)).union(mentioned_in(exprs)),
        ),
    decreases p.spine_weight() + assigned_weight(exprs) + 2,
{
    let i = first_subquery(exprs, 0);
    let u = st.next_id;
    lemma_first_subquery(exprs, 0);
    if exprs.len() == 0 {
    } else if st.hoisting() && i < exprs.len() {
        let rest = swap_removed(exprs, i);
        let id = exprs[i].0;
        let e = exprs[i].1;
        lemma_map_hoists(p, st, exprs);
        lemma_assigned_weight_swap_removed(exprs, i);
        lemma_map_bounds(p, st, rest);
        lemma_assignments_without(exprs, p.mentioned(), i);
        lemma_assignment_sets(exprs, p.mentioned());
        lemma_expr_mentions(e);
        lemma_all_below_part(assigned_ids(rest), assigned_ids(exprs), u, u);
        lemma_all_below_part(mentioned_in(rest), mentioned_in(exprs), u, u);
        lemma_map_hygienic(p, st, rest);
        let below = p.map(st, rest);
        if below.result is Ok {
            let b = below.plan();
            let u1 = below.next_id;
            let result = b.hoist(st.at(u1), id, e);
            lemma_hoist_bounds(b, st.at(u1), id, e);
            assert(assigned_ids(exprs).contains(id));
            lemma_all_below_part(e.mentioned(), mentioned_in(exprs), u, u);
            lemma_all_below_part(e.mentioned(), mentioned_in(exprs), u, u1);
            let held = p.mentioned().union(assigned_ids(rest)).union(mentioned_in(rest));
            assert(all_below(held, u));
            lemma_all_below_grown(b.mentioned(), held, u, u1);
            assert(id < u);
            assert forall|c: usize| b.mentioned().contains(c) implies c != id
                && !e.introduced().contains(c) by {
                assert(held.union(fresh_range(u, u1)).contains(c));
                if e.introduced().contains(c) {
                    assert(e.mentioned().contains(c));
                    assert(c < u);
                    assert(!p.mentioned().contains(c));
                    assert(!assigned_ids(rest).contains(c));
                    assert(!mentioned_in(rest).contains(c));
                }
                if c == id {
                    assert(!p.mentioned().contains(c));
                    assert(!assigned_ids(rest).contains(c));
                    assert(!mentioned_in(rest).contains(c));
                }
            }
            lemma_hoist_hygienic(b, st.at(u1), id, e);
            lemma_stays_hygienic_after(
                result,
                st,
                u1,
                b.introduced().insert(id).union(e.introduced()),
                b.mentioned().insert(id).union(e.mentioned()),
                p.introduced().union(assigned_ids(exprs)).union(introduced_in(exprs)),
                p.mentioned().union(assigned_ids(exprs)).union(mentioned_in(exprs)),
            );
        }
    } else {
    }
}

/// Hoisting keeps a plan hygienic, where the expression is hygienic,
/// the plan mentions neither `id` nor what the expression introduces, the
/// expression does not mention `id`, and every identifier in play has been
/// handed out before.
pub proof fn lemma_hoist_hygienic(p: SpecRel, st: SpecState, id: usize, expr: SpecExpr)
    requires
        p.hygienic(),
        expr.hygienic(),
        !p.mentioned().contains(id),
        expr.introduced().disjoint(p.mentioned()),
        !expr.mentioned().contains(id),
        all_below(p.mentioned(), st.next_id),
        all_below(expr.mentioned(), st.next_id),
        id < st.next_id,
    ensures
        stays_hygienic(
            p.hoist(st, id, expr),
            st,
            p.introduced().insert(id).union(expr.introduced()),
            p.mentioned().insert(id).union(expr.mentioned()),
        ),
    decreases p.spine_weight() + expr.hoist_weight(),
{
    let u = st.next_id;
    lemma_plan_mentions(p);
    lemma_expr_mentions(expr);
    match expr {
        SpecExpr::Subquery { plan } => {
            if plan.att().finite() && plan.att().len() == 1 {
                let c = plan.att().choose();
                let a = (id, SpecExpr::ColRef { id: c });
                let renamed = SpecRel::MapCols { input: plan, exprs: seq![a] };
                lemma_assigned_weight_one(a);
                lemma_plan_mentions(*plan);
                assert(plan.att().contains(c));
                lemma_single_assignment(a, plan.mentioned());
                assert(renamed.hygienic());
                assert(renamed.introduced() =~= plan.introduced().insert(id));
                assert(renamed.mentioned() =~= plan.mentioned().insert(id));
                lemma_flatmap_hygienic(p, st, renamed);
                let result = p.flatmap(st, renamed);
                if result.result is Ok {
                    assert(p.introduced().union(renamed.introduced()) =~= p.introduced().insert(
                        id,
                    ).union(expr.introduced()));
                    assert(p.mentioned().union(renamed.mentioned()) =~= p.mentioned().insert(
                        id,
                    ).union(expr.mentioned()));
                }
            }
        },
        SpecExpr::Plus { left, right } => {
            if u + 2 <= usize::MAX {
                let a = fresh_id(u);
                let b = fresh_id(u + 1);
                assert(a == u && b == u + 1);
                lemma_hoist_sum(p, st, id, *left, *right);
                lemma_expr_mentions(*left);
                lemma_expr_mentions(*right);
                assert(expr.mentioned() == left.mentioned().union(right.mentioned()));
                assert(expr.introduced() == left.introduced().union(right.introduced()));
                lemma_all_below_part(left.mentioned(), expr.mentioned(), u, u);
                lemma_all_below_part(right.mentioned(), expr.mentioned(), u, u);
                lemma_all_below_part(left.mentioned(), expr.mentioned(), u, u + 2);
                lemma_all_below_part(p.mentioned(), p.mentioned(), u, u + 2);
                lemma_hoist_bounds(p, st.advanced(2), a, *left);
                lemma_hoist_hygienic(p, st.advanced(2), a, *left);
                lemma_hoist_keeps_attributes(p, st.advanced(2), a, *left);
                let first = p.hoist(st.advanced(2), a, *left);
                if first.result is Ok {
                    // the plan with the left operand hoisted
                    let f = first.plan();
                    let u1 = first.next_id;
                    let f_introduced = p.introduced().insert(a).union(left.introduced());
                    let f_mentioned = p.mentioned().insert(a).union(left.mentioned());
                    lemma_all_below_grown(f.mentioned(), f_mentioned, u + 2, u1);
                    lemma_all_below_part(right.mentioned(), expr.mentioned(), u, u1);
                    assert forall|c: usize| f.mentioned().contains(c) implies c != b
                        && !right.introduced().contains(c) by {
                        assert(f_mentioned.union(fresh_range(u + 2, u1)).contains(c));
                        if right.introduced().contains(c) {
                            assert(expr.introduced().contains(c));
                            assert(right.mentioned().contains(c));
                        }
                    }
                    lemma_hoist_bounds(f, st.at(u1), b, *right);
                    lemma_hoist_hygienic(f, st.at(u1), b, *right);
                    lemma_hoist_keeps_attributes(f, st.at(u1), b, *right);
                    let second = f.hoist(st.at(u1), b, *right);
                    if second.result is Ok {
                        // the plan with both operands hoisted, and the sum over it
                        let g = second.plan();
                        let u2 = second.next_id;
                        let g_introduced = f.introduced().insert(b).union(right.introduced());
                        let g_mentioned = f.mentioned().insert(b).union(right.mentioned());
                        let sum_a = sum_of_cols(id, a, b);
                        let sum = SpecRel::MapCols { input: Box::new(g), exprs: seq![sum_a] };
                        let cols = p.att().insert(id);
                        lemma_all_below_grown(g.mentioned(), g_mentioned, u1, u2);
                        assert forall|c: usize| g.mentioned().contains(c) implies c != id
                            && p.mentioned().insert(id).union(expr.mentioned()).union(
                            fresh_range(u, u2),
                        ).contains(c) by {
                            assert(g_mentioned.union(fresh_range(u1, u2)).contains(c));
                            if f.mentioned().contains(c) {
                                assert(f_mentioned.union(fresh_range(u + 2, u1)).contains(c));
                            }
                        }
                        assert forall|c: usize| g.introduced().contains(c) implies p.introduced().insert(
                            id,
                        ).union(expr.introduced()).union(fresh_range(u, u2)).contains(c) by {
                            assert(g_introduced.union(fresh_range(u1, u2)).contains(c));
                            if f.introduced().contains(c) {
                                assert(f_introduced.union(fresh_range(u + 2, u1)).contains(c));
                            }
                        }
                        reveal_with_fuel(SpecExpr::mentioned, 3);
                        reveal_with_fuel(SpecExpr::introduced, 3);
                        reveal_with_fuel(SpecExpr::hygienic, 3);
                        reveal_with_fuel(SpecExpr::has_subquery, 2);
                        assert(sum_a.1.mentioned() =~= set![a, b]);
                        assert(sum_a.1.introduced() =~= Set::<usize>::empty());
                        lemma_single_assignment(sum_a, g.mentioned());
                        lemma_assigned_weight_one(sum_a);
                        lemma_plan_mentions(sum);
                        assert(sum.introduced() =~= g.introduced().insert(id));
                        assert(sum.mentioned() =~= g.mentioned().insert(id).union(set![a, b]));
                        assert(cols.subset_of(sum.att()));
                        assert(all_below(sum.mentioned(), u2));
                        assert(sum.spine_weight() == g.spine_weight() + 2);
                        lemma_project_bounds(sum, st.at(u2), cols);
                        lemma_project_hygienic(sum, st.at(u2), cols);
                        lemma_stays_hygienic_after(
                            sum.project(st.at(u2), cols),
                            st,
                            u2,
                            sum.introduced(),
                            sum.mentioned(),
                            p.introduced().insert(id).union(expr.introduced()),
                            p.mentioned().insert(id).union(expr.mentioned()),
                        );
                    }
                }
            }
        },
        SpecExpr::Int { .. } | SpecExpr::ColRef { .. } => {
            let a = (id, expr);
            lemma_single_assignment(a, p.mentioned());
            let result = SpecRel::MapCols { input: Box::new(p), exprs: seq![a] };
            assert(result.introduced() =~= p.introduced().insert(id).union(expr.introduced()));
            assert(result.mentioned() =~= p.mentioned().insert(id).union(expr.mentioned()));
        },
        SpecExpr::Eq { .. } => {},
    }
}

/// The dependent join keeps plans hygienic, where the outer side does
/// not mention what the inner side introduces and every identifier in play
/// has been handed out before.
pub proof fn lemma_flatmap_hygienic(p: SpecRel, st: SpecState, func: SpecRel)
    requires
        p.hygienic(),
        func.hygienic(),
        func.introduced().disjoint(p.mentioned()),
        all_below(p.mentioned(), st.next_id),
        all_below(func.mentioned(), st.next_id),
    ensures
        stays_hygienic(
            p.flatmap(st, func),
            st,
            p.introduced().union(func.introduced()),
            p.mentioned().union(func.mentioned()),
        ),
    decreases func.spine_weight() + 3,
{
    let u = st.next_id;
    lemma_plan_mentions(p);
    lemma_plan_mentions(func);
    if st.decorrelating() && func.free().is_empty() {
        lemma_plan_closed(func);
        let none = Seq::<SpecExpr>::empty();
        lemma_predicate_free(none);
        assert forall|c: usize|
            p.introduced().contains(c) implies !func.mentioned().contains(c) by {
            if func.mentioned().contains(c) {
                assert(func.introduced().union(func.free()).contains(c));
            }
        }
        lemma_join_hygienic(p, func, none);
    } else if st.decorrelating() && func is Project {
        let src = *func->Project_src;
        let cols = func->Project_cols;
        lemma_flatmap_pulls_up(p, st, func);
        lemma_flatmap_bounds(p, st, src);
        lemma_plan_mentions(src);
        assert(func.mentioned() == src.mentioned().union(cols));
        assert(func.introduced() == src.introduced());
        lemma_all_below_part(src.mentioned(), func.mentioned(), u, u);
        lemma_flatmap_hygienic(p, st, src);
        lemma_flatmap_keeps_attributes(p, st, src);
        let lifted = p.flatmap(st, src);
        if lifted.result is Ok {
            let l = lifted.plan();
            let u1 = lifted.next_id;
            let wide = cols.union(p.att());
            lemma_all_below_grown(l.mentioned(), p.mentioned().union(src.mentioned()), u, u1);
            lemma_project_bounds(l, st.at(u1), wide);
            lemma_project_hygienic(l, st.at(u1), wide);
            lemma_stays_hygienic_after(
                l.project(st.at(u1), wide),
                st,
                u1,
                l.introduced(),
                l.mentioned(),
                p.introduced().union(func.introduced()),
                p.mentioned().union(func.mentioned()),
            );
        }
    } else if st.decorrelating() && func is MapCols {
        let input = *func->MapCols_input;
        let exprs = func->MapCols_exprs;
        lemma_flatmap_pulls_up(p, st, func);
        lemma_flatmap_bounds(p, st, input);
        lemma_plan_mentions(input);
        assert(func.mentioned() == input.mentioned().union(assigned_ids(exprs)).union(
            mentioned_in(exprs),
        ));
        assert(func.introduced() == input.introduced().union(assigned_ids(exprs)).union(
            introduced_in(exprs),
        ));
        lemma_all_below_part(input.mentioned(), func.mentioned(), u, u);
        lemma_flatmap_hygienic(p, st, input);
        lemma_assignment_sets(exprs, input.mentioned());
        let lifted = p.flatmap(st, input);
        if lifted.result is Ok {
            let l = lifted.plan();
            let u1 = lifted.next_id;
            lemma_all_below_grown(l.mentioned(), p.mentioned().union(input.mentioned()), u, u1);
            assert forall|c: usize| l.mentioned().contains(c) implies input.mentioned().contains(c)
                || (!assigned_ids(exprs).contains(c) && !introduced_in(exprs).contains(c)) by {
                assert(p.mentioned().union(input.mentioned()).union(fresh_range(u, u1)).contains(
                    c,
                ));
                if !input.mentioned().contains(c) {
                    if assigned_ids(exprs).contains(c) {
                        assert(func.introduced().contains(c));
                        assert(func.mentioned().contains(c));
                    }
                    if introduced_in(exprs).contains(c) {
                        assert(func.introduced().contains(c));
                        assert(func.mentioned().contains(c));
                    }
                }
            }
            lemma_assignments_rebased(exprs, input.mentioned(), l.mentioned());
            assert(all_below(assigned_ids(exprs), u1)) by {
                assert forall|c: usize| assigned_ids(exprs).contains(c) implies c < u1 by {
                    assert(func.mentioned().contains(c));
                }
            }
            assert(all_below(mentioned_in(exprs), u1)) by {
                assert forall|c: usize| mentioned_in(exprs).contains(c) implies c < u1 by {
                    assert(func.mentioned().contains(c));
                }
            }
            lemma_map_bounds(l, st.at(u1), exprs);
            lemma_map_hygienic(l, st.at(u1), exprs);
            lemma_stays_hygienic_after(
                l.map(st.at(u1), exprs),
                st,
                u1,
                l.introduced().union(assigned_ids(exprs)).union(introduced_in(exprs)),
                l.mentioned().union(assigned_ids(exprs)).union(mentioned_in(exprs)),
                p.introduced().union(func.introduced()),
                p.mentioned().union(func.mentioned()),
            );
        }
    } else {
        if st.decorrelating() {
            lemma_flatmap_pulls_up(p, st, func);
        }
    }
}

/// Projection keeps a plan hygienic, where the plan outputs the columns
/// asked for and every identifier in play has been handed out before.
pub proof fn lemma_project_hygienic(p: SpecRel, st: SpecState, cols: Set<usize>)
    requires
        p.hygienic(),
        cols.subset_of(p.att()),
        all_below(p.mentioned(), st.next_id),
    ensures
        stays_hygienic(p.project(st, cols), st, p.introduced(), p.mentioned()),
    decreases p.spine_weight() + 3,
{
    let u = st.next_id;
    lemma_plan_mentions(p);
    lemma_hygienic_well_formed(p);
    if p.pushes_projection(cols) {
        let input = *p->MapCols_input;
        let exprs = p->MapCols_exprs;
        lemma_project_pushes_down(p, st, cols);
        lemma_project_bounds(input, st, cols);
        lemma_plan_mentions(input);
        lemma_assignment_sets(exprs, input.mentioned());
        assert(p.mentioned() == input.mentioned().union(assigned_ids(exprs)).union(
            mentioned_in(exprs),
        ));
        assert(p.introduced() == input.introduced().union(assigned_ids(exprs)).union(
            introduced_in(exprs),
        ));
        assert(p.att() == input.att().union(assigned_ids(exprs)));
        lemma_all_below_part(input.mentioned(), p.mentioned(), u, u);
        assert forall|c: usize| cols.contains(c) implies input.att().contains(c) by {
            assert(required_cols(exprs).contains(c));
            assert(p.att().contains(c));
            assert(!assigned_ids(exprs).contains(c));
        }
        lemma_project_hygienic(input, st, cols);
        let narrowed = input.project(st, cols);
        if narrowed.result is Ok {
            let n = narrowed.plan();
            let u1 = narrowed.next_id;
            lemma_all_below_grown(n.mentioned(), input.mentioned(), u, u1);
            assert forall|c: usize| n.mentioned().contains(c) implies input.mentioned().contains(c)
                || (!assigned_ids(exprs).contains(c) && !introduced_in(exprs).contains(c)) by {
                assert(input.mentioned().union(fresh_range(u, u1)).contains(c));
                if !input.mentioned().contains(c) {
                    if assigned_ids(exprs).contains(c) {
                        assert(p.mentioned().contains(c));
                    }
                    if introduced_in(exprs).contains(c) {
                        assert(p.introduced().contains(c));
                        assert(p.mentioned().contains(c));
                    }
                }
            }
            lemma_assignments_rebased(exprs, input.mentioned(), n.mentioned());
            assert(all_below(assigned_ids(exprs), u1)) by {
                assert forall|c: usize| assigned_ids(exprs).contains(c) implies c < u1 by {
                    assert(p.mentioned().contains(c));
                }
            }
            assert(all_below(mentioned_in(exprs), u1)) by {
                assert forall|c: usize| mentioned_in(exprs).contains(c) implies c < u1 by {
                    assert(p.mentioned().contains(c));
                }
            }
            lemma_map_bounds(n, st.at(u1), exprs);
            lemma_map_hygienic(n, st.at(u1), exprs);
            lemma_stays_hygienic_after(
                n.map(st.at(u1), exprs),
                st,
                u1,
                n.introduced().union(assigned_ids(exprs)).union(introduced_in(exprs)),
                n.mentioned().union(assigned_ids(exprs)).union(mentioned_in(exprs)),
                p.introduced(),
                p.mentioned(),
            );
        }
    } else {
        let node = SpecRel::Project { src: Box::new(p), cols };
        assert(node.mentioned() =~= p.mentioned());
    }
}

} // verus!
