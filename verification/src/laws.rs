//! Laws of the constructors, stated over the mathematical trees.
use crate::analysis::{assigned_frees, assigned_ids};
use crate::filter::{
    first_one_sided, lemma_first_one_sided, lemma_join_is_join, lemma_select_att,
    lemma_select_merge, swap_removed,
};
use crate::ir::{SpecExpr, SpecRel};
use crate::rewrite::{
    first_subquery, fresh_id, lemma_first_subquery, lemma_flatmap_bounds, lemma_hoist_bounds,
    lemma_hoist_sum, lemma_map_bounds, lemma_map_hoists, lemma_project_bounds, required_cols,
    sum_of_cols, RewriteError, Rewritten,
};
use crate::state::SpecState;
use vstd::prelude::*;

verus! {

/// `plan` with `pushed` selected over it, or `plan` itself where nothing
/// was pushed.
pub open spec fn pushed_onto(plan: SpecRel, pushed: Seq<SpecExpr>) -> SpecRel {
    if pushed.len() == 0 {
        plan
    } else {
        plan.select(pushed)
    }
}

/// Whether `joined` is the join of `left` and `right` in which `to_left`
/// and `to_right` are the predicates of `predicates` that went down to the
/// two inputs and `kept` those that stayed: every predicate is in exactly
/// one of the three, each pushed predicate is decided by its input alone,
/// the right input getting only what the left cannot decide, and no kept
/// predicate is decided by one input alone.
pub open spec fn splits_join(
    joined: SpecRel,
    left: SpecRel,
    right: SpecRel,
    predicates: Seq<SpecExpr>,
    to_left: Seq<SpecExpr>,
    to_right: Seq<SpecExpr>,
    kept: Seq<SpecExpr>,
) -> bool {
    &&& joined == SpecRel::Join {
        left: Box::new(pushed_onto(left, to_left)),
        right: Box::new(pushed_onto(right, to_right)),
        predicates: kept,
    }
    &&& to_left.to_multiset().add(to_right.to_multiset()).add(kept.to_multiset())
        == predicates.to_multiset()
    &&& forall|i: int| 0 <= i < to_left.len() ==> (#[trigger] to_left[i]).bound_by(left)
    &&& forall|i: int|
        0 <= i < to_right.len() ==> (#[trigger] to_right[i]).bound_by(right) && !to_right[i].bound_by(
            left,
        )
    &&& forall|i: int|
        0 <= i < kept.len() ==> !(#[trigger] kept[i]).bound_by(left) && !kept[i].bound_by(right)
}

/// Taking entry `i` out of a list and putting it back gives the entries
/// of the list.
pub proof fn lemma_swap_removed_multiset<A>(s: Seq<A>, i: int)
    requires
        0 <= i < s.len(),
    ensures
        swap_removed(s, i).to_multiset().insert(s[i]) == s.to_multiset(),
{
    broadcast use vstd::seq_lib::group_to_multiset_ensures;

    let d = s.drop_last();
    let last = s.last();
    assert(s =~= d.push(last));
    if i == s.len() - 1 {
        assert(swap_removed(s, i) =~= d);
    } else {
        let u = d.update(i, last);
        assert(swap_removed(s, i) =~= u);
        assert(u.remove(i) =~= d.remove(i));
        assert(u.remove(i).to_multiset() == u.to_multiset().remove(u[i]));
        assert(d.remove(i).to_multiset() == d.to_multiset().remove(d[i]));
        assert(u.contains(u[i]));
        assert(d.contains(d[i]));
        assert(u.to_multiset().count(last) > 0);
        assert(d.to_multiset().count(s[i]) > 0);
        assert(u.to_multiset() =~= u.to_multiset().remove(last).insert(last));
        assert(d.to_multiset() =~= d.to_multiset().remove(s[i]).insert(s[i]));
        assert(u.to_multiset().insert(s[i]) =~= d.to_multiset().insert(last));
    }
    assert(swap_removed(s, i).to_multiset().insert(s[i]) =~= s.to_multiset());
}

/// Join pushdown. The join of two plans is a join node. Each predicate
/// that the left input alone can decide has become a selection over the
/// left input, each other predicate that the right input alone can decide a
/// selection over the right input, and the join node keeps exactly the
/// predicates that neither input can decide alone.
pub proof fn lemma_join_pushdown(left: SpecRel, right: SpecRel, predicates: Seq<SpecExpr>)
    ensures
        exists|to_left: Seq<SpecExpr>, to_right: Seq<SpecExpr>, kept: Seq<SpecExpr>|
            splits_join(
                left.join(right, predicates),
                left,
                right,
                predicates,
                to_left,
                to_right,
                kept,
            ),
    decreases predicates.len(),
{
    broadcast use vstd::seq_lib::group_to_multiset_ensures;

    let i = first_one_sided(predicates, left.att(), right.att(), 0);
    lemma_first_one_sided(predicates, left.att(), right.att(), 0);
    let none = Seq::<SpecExpr>::empty();
    if 0 <= i < predicates.len() {
        let p = predicates[i];
        let rest = swap_removed(predicates, i);
        lemma_swap_removed_multiset(predicates, i);
        if p.bound_by(left) {
            let l2 = left.select(seq![p]);
            lemma_select_att(left, seq![p]);
            lemma_join_pushdown(l2, right, rest);
            let (a, b, k) = choose|a: Seq<SpecExpr>, b: Seq<SpecExpr>, k: Seq<SpecExpr>|
                splits_join(l2.join(right, rest), l2, right, rest, a, b, k);
            let a2 = seq![p] + a;
            assert(pushed_onto(l2, a) == pushed_onto(left, a2)) by {
                if a.len() == 0 {
                    assert(a2 =~= seq![p]);
                } else {
                    lemma_select_merge(left, seq![p], a);
                }
            }
            assert(a2.to_multiset() =~= a.to_multiset().insert(p)) by {
                vstd::seq_lib::lemma_multiset_commutative(seq![p], a);
                assert(seq![p] =~= none.push(p));
            }
            assert(a2.to_multiset().add(b.to_multiset()).add(k.to_multiset())
                =~= a.to_multiset().add(b.to_multiset()).add(k.to_multiset()).insert(p));
            assert forall|j: int| 0 <= j < a2.len() implies (#[trigger] a2[j]).bound_by(left) by {
                if j > 0 {
                    assert(a2[j] == a[j - 1]);
                }
            }
            assert(splits_join(left.join(right, predicates), left, right, predicates, a2, b, k));
        } else {
            let r2 = right.select(seq![p]);
            lemma_select_att(right, seq![p]);
            lemma_join_pushdown(left, r2, rest);
            let (a, b, k) = choose|a: Seq<SpecExpr>, b: Seq<SpecExpr>, k: Seq<SpecExpr>|
                splits_join(left.join(r2, rest), left, r2, rest, a, b, k);
            let b2 = seq![p] + b;
            assert(pushed_onto(r2, b) == pushed_onto(right, b2)) by {
                if b.len() == 0 {
                    assert(b2 =~= seq![p]);
                } else {
                    lemma_select_merge(right, seq![p], b);
                }
            }
            assert(b2.to_multiset() =~= b.to_multiset().insert(p)) by {
                vstd::seq_lib::lemma_multiset_commutative(seq![p], b);
                assert(seq![p] =~= none.push(p));
            }
            assert(a.to_multiset().add(b2.to_multiset()).add(k.to_multiset())
                =~= a.to_multiset().add(b.to_multiset()).add(k.to_multiset()).insert(p));
            assert forall|j: int| 0 <= j < b2.len() implies (#[trigger] b2[j]).bound_by(right)
                && !b2[j].bound_by(left) by {
                if j > 0 {
                    assert(b2[j] == b[j - 1]);
                }
            }
            assert(splits_join(left.join(r2, rest), left, r2, rest, a, b, k));
            assert(splits_join(left.join(right, predicates), left, right, predicates, a, b2, k));
        }
    } else {
        assert(none.to_multiset().add(none.to_multiset()).add(predicates.to_multiset())
            =~= predicates.to_multiset());
        assert(splits_join(
            left.join(right, predicates),
            left,
            right,
            predicates,
            none,
            none,
            predicates,
        ));
    }
}

/// Whether `e` refers to a column of `left` and to a column of `right`.
pub open spec fn two_sided(e: SpecExpr, left: SpecRel, right: SpecRel) -> bool {
    &&& exists|c: usize| e.free().contains(c) && left.att().contains(c)
    &&& exists|c: usize| e.free().contains(c) && right.att().contains(c)
}

/// Join conditions. Where every predicate refers only to columns of the
/// two inputs, each predicate that stays on the join node refers to a
/// column of the left input and to a column of the right input.
pub proof fn lemma_join_keeps_two_sided(left: SpecRel, right: SpecRel, predicates: Seq<SpecExpr>)
    requires
        forall|i: int|
            0 <= i < predicates.len() ==> (#[trigger] predicates[i]).free().subset_of(
                left.att().union(right.att()),
            ),
    ensures
        left.join(right, predicates) is Join,
        forall|i: int|
            0 <= i < left.join(right, predicates)->Join_predicates.len() ==> two_sided(
                #[trigger] left.join(right, predicates)->Join_predicates[i],
                left,
                right,
            ),
{
    broadcast use vstd::seq_lib::group_to_multiset_ensures;

    lemma_join_pushdown(left, right, predicates);
    let (a, b, kept) = choose|a: Seq<SpecExpr>, b: Seq<SpecExpr>, k: Seq<SpecExpr>|
        splits_join(left.join(right, predicates), left, right, predicates, a, b, k);
    assert forall|i: int| 0 <= i < kept.len() implies two_sided(
        #[trigger] kept[i],
        left,
        right,
    ) by {
        let e = kept[i];
        assert(kept.contains(e));
        assert(kept.to_multiset().count(e) > 0);
        assert(predicates.to_multiset().count(e) > 0);
        assert(predicates.contains(e));
        let j = choose|j: int| 0 <= j < predicates.len() && predicates[j] == e;
        assert(predicates[j].free().subset_of(left.att().union(right.att())));
        assert(!e.free().subset_of(left.att()));
        assert(!e.free().subset_of(right.att()));
        let c = choose|c: usize| e.free().contains(c) && !left.att().contains(c);
        assert(right.att().contains(c));
        let d = choose|d: usize| e.free().contains(d) && !right.att().contains(d);
        assert(left.att().contains(d));
    }
}

/// Decorrelation. With the decorrelation rule on, the dependent join
/// with an inner side that has no free variables is the ordinary join
/// without predicates: a join node, never a dependent-join node.
pub proof fn lemma_uncorrelated_flatmap_is_join(outer: SpecRel, st: SpecState, inner: SpecRel)
    requires
        st.decorrelating(),
        inner.free() == Set::<usize>::empty(),
    ensures
        outer.flatmap(st, inner) == Rewritten::done(outer.join(inner, Seq::empty()), st),
        outer.flatmap(st, inner).plan() is Join,
        outer.flatmap(st, inner).plan().att() == outer.att().union(inner.att()),
{
    lemma_join_is_join(outer, inner, Seq::empty());
}

/// With the decorrelation rule off, the dependent join is always a
/// dependent-join node over its two arguments.
pub proof fn lemma_flatmap_without_decorrelation(outer: SpecRel, st: SpecState, inner: SpecRel)
    requires
        !st.decorrelating(),
    ensures
        outer.flatmap(st, inner) == Rewritten::done(
            SpecRel::FlatMap { input: Box::new(outer), func: Box::new(inner) },
            st,
        ),
{
}

/// Hoist arity. Hoisting a subquery whose plan does not output exactly
/// one column fails with the arity error and hands out no identifier.
pub proof fn lemma_hoist_arity(p: SpecRel, st: SpecState, id: usize, plan: SpecRel)
    requires
        !(plan.att().finite() && plan.att().len() == 1),
    ensures
        p.hoist(st, id, SpecExpr::Subquery { plan: Box::new(plan) }) == Rewritten::failed(
            RewriteError::Arity,
            st,
        ),
{
}

/// A projection that is not pushed below a computed-column node outputs
/// exactly the columns asked for.
pub proof fn lemma_project_plain(p: SpecRel, st: SpecState, cols: Set<usize>)
    requires
        !p.pushes_projection(cols),
    ensures
        p.project(st, cols) == Rewritten::done(SpecRel::Project { src: Box::new(p), cols }, st),
        p.project(st, cols).plan().att() == cols,
{
}

/// Computed columns without hoisting output the columns of the plan and
/// the identifiers they introduce.
pub proof fn lemma_map_plain(p: SpecRel, st: SpecState, exprs: Seq<(usize, SpecExpr)>)
    requires
        !st.hoisting() || first_subquery(exprs, 0) >= exprs.len(),
    ensures
        p.map(st, exprs).result is Ok,
        p.map(st, exprs).next_id == st.next_id,
        exprs.len() > 0 ==> p.map(st, exprs).plan() == (SpecRel::MapCols {
            input: Box::new(p),
            exprs,
        }),
        exprs.len() == 0 ==> p.map(st, exprs).plan() == p,
        p.map(st, exprs).plan().att() == p.att().union(assigned_ids(exprs)),
{
    if exprs.len() == 0 {
        assert(assigned_ids(exprs) =~= Set::<usize>::empty());
        assert(p.att().union(Set::<usize>::empty()) =~= p.att());
    }
}

/// The identifiers of a list are those of the list without entry `i`
/// and the identifier of entry `i`.
pub proof fn lemma_assigned_ids_swap_removed(exprs: Seq<(usize, SpecExpr)>, i: int)
    requires
        0 <= i < exprs.len(),
    ensures
        assigned_ids(exprs) == assigned_ids(swap_removed(exprs, i)).insert(exprs[i].0),
{
    let rest = swap_removed(exprs, i);
    let n = exprs.len() - 1;
    assert forall|c: usize|
        assigned_ids(exprs).contains(c) <==> assigned_ids(rest).insert(exprs[i].0).contains(
            c,
        ) by {
        if assigned_ids(exprs).contains(c) {
            let j = choose|j: int| 0 <= j < exprs.len() && (#[trigger] exprs[j]).0 == c;
            if j == i {
            } else if j == n {
                assert(rest[i].0 == c);
            } else {
                assert(rest[j].0 == c);
            }
        }
        if assigned_ids(rest).contains(c) {
            let j = choose|j: int| 0 <= j < rest.len() && (#[trigger] rest[j]).0 == c;
            if j == i {
                assert(exprs[n].0 == c);
            } else {
                assert(exprs[j].0 == c);
            }
        }
        if c == exprs[i].0 {
            assert(exprs[i].0 == c);
        }
    }
    assert(assigned_ids(exprs) =~= assigned_ids(rest).insert(exprs[i].0));
}

/// Computed columns lose nothing: where they succeed, the result outputs
/// every column of the plan and every identifier that the assignments
/// introduce.
pub proof fn lemma_map_keeps_attributes(p: SpecRel, st: SpecState, exprs: Seq<(usize, SpecExpr)>)
    ensures
        p.map(st, exprs).result is Ok ==> p.att().union(assigned_ids(exprs)).subset_of(
            p.map(st, exprs).plan().att(),
        ),
    decreases p.spine_weight() + crate::weight::assigned_weight(exprs) + 2,
{
    let i = first_subquery(exprs, 0);
    if exprs.len() == 0 {
        assert(assigned_ids(exprs) =~= Set::<usize>::empty());
    } else if st.hoisting() && i < exprs.len() {
        let rest = swap_removed(exprs, i);
        lemma_first_subquery(exprs, 0);
        crate::weight::lemma_assigned_weight_swap_removed(exprs, i);
        lemma_assigned_ids_swap_removed(exprs, i);
        lemma_map_keeps_attributes(p, st, rest);
        lemma_map_bounds(p, st, rest);
        let below = p.map(st, rest);
        if below.fits(p.spine_weight() + crate::weight::assigned_weight(rest) + 1) {
            lemma_hoist_keeps_attributes(
                below.plan(),
                st.at(below.next_id),
                exprs[i].0,
                exprs[i].1,
            );
        }
    } else {
    }
}

/// Hoisting loses nothing: where it succeeds, the result outputs every
/// column of the plan, and the column `id`.
pub proof fn lemma_hoist_keeps_attributes(p: SpecRel, st: SpecState, id: usize, expr: SpecExpr)
    ensures
        p.hoist(st, id, expr).result is Ok ==> p.att().insert(id).subset_of(
            p.hoist(st, id, expr).plan().att(),
        ),
    decreases p.spine_weight() + expr.hoist_weight(),
{
    match expr {
        SpecExpr::Subquery { plan } => {
            if plan.att().finite() && plan.att().len() == 1 {
                let a = (id, SpecExpr::ColRef { id: plan.att().choose() });
                let renamed = SpecRel::MapCols { input: plan, exprs: seq![a] };
                crate::weight::lemma_assigned_weight_one(a);
                lemma_flatmap_keeps_attributes(p, st, renamed);
                assert(seq![a][0].0 == id);
                assert(assigned_ids(seq![a]).contains(id));
                assert(renamed.att().contains(id));
            }
        },
        SpecExpr::Plus { left, right } => {
            let left_id = fresh_id(st.next_id);
            let right_id = fresh_id(st.next_id + 1);
            if st.next_id + 2 <= usize::MAX {
                lemma_hoist_bounds(p, st.advanced(2), left_id, *left);
                let first = p.hoist(st.advanced(2), left_id, *left);
                if first.fits(p.spine_weight() + left.hoist_weight()) {
                    lemma_hoist_bounds(first.plan(), st.at(first.next_id), right_id, *right);
                    let second = first.plan().hoist(st.at(first.next_id), right_id, *right);
                    if second.fits(p.spine_weight() + left.hoist_weight() + right.hoist_weight()) {
                        let sum = SpecRel::MapCols {
                            input: Box::new(second.plan()),
                            exprs: seq![sum_of_cols(id, left_id, right_id)],
                        };
                        crate::weight::lemma_assigned_weight_one(
                            sum_of_cols(id, left_id, right_id),
                        );
                        reveal_with_fuel(SpecExpr::has_subquery, 2);
                        lemma_project_keeps_attributes(
                            sum,
                            st.at(second.next_id),
                            p.att().insert(id),
                        );
                    }
                }
            }
        },
        SpecExpr::Int { .. } | SpecExpr::ColRef { .. } => {
            assert(seq![(id, expr)][0].0 == id);
            assert(assigned_ids(seq![(id, expr)]).contains(id));
        },
        SpecExpr::Eq { .. } => {},
    }
}

/// The dependent join loses nothing: where it succeeds, the result
/// outputs every column of both sides.
pub proof fn lemma_flatmap_keeps_attributes(p: SpecRel, st: SpecState, func: SpecRel)
    ensures
        p.flatmap(st, func).result is Ok ==> p.att().union(func.att()).subset_of(
            p.flatmap(st, func).plan().att(),
        ),
    decreases func.spine_weight() + 3,
{
    if st.decorrelating() && func.free().is_empty() {
        lemma_join_is_join(p, func, Seq::empty());
    } else if st.decorrelating() && func is Project {
        lemma_flatmap_keeps_attributes(p, st, *func->Project_src);
        lemma_flatmap_bounds(p, st, *func->Project_src);
        let lifted = p.flatmap(st, *func->Project_src);
        if lifted.fits(func->Project_src.spine_weight()) {
            lemma_project_keeps_attributes(
                lifted.plan(),
                st.at(lifted.next_id),
                func->Project_cols.union(p.att()),
            );
        }
    } else if st.decorrelating() && func is MapCols {
        lemma_flatmap_keeps_attributes(p, st, *func->MapCols_input);
        lemma_flatmap_bounds(p, st, *func->MapCols_input);
        let lifted = p.flatmap(st, *func->MapCols_input);
        if lifted.fits(func->MapCols_input.spine_weight()) {
            lemma_map_keeps_attributes(lifted.plan(), st.at(lifted.next_id), func->MapCols_exprs);
        }
    } else {
    }
}

/// Projection loses nothing that was asked for: where it succeeds, the
/// result outputs every column of `cols`.
pub proof fn lemma_project_keeps_attributes(p: SpecRel, st: SpecState, cols: Set<usize>)
    ensures
        p.project(st, cols).result is Ok ==> cols.subset_of(p.project(st, cols).plan().att()),
    decreases p.spine_weight() + 3,
{
    if p.pushes_projection(cols) {
        lemma_project_keeps_attributes(*p->MapCols_input, st, cols);
        lemma_project_bounds(*p->MapCols_input, st, cols);
        let narrowed = p->MapCols_input.project(st, cols);
        if narrowed.fits(p->MapCols_input.spine_weight() + 1) {
            lemma_map_keeps_attributes(narrowed.plan(), st.at(narrowed.next_id), p->MapCols_exprs);
        }
    } else {
    }
}

/// Whether hoisting `e` introduces nothing but the identifier it is
/// hoisted under: `e` is a sum, a literal or a column reference. A bare
/// subquery also leaves the column of its plan in the result.
pub open spec fn hoists_cleanly(e: SpecExpr) -> bool {
    e is Plus || e is Int || e is ColRef
}

/// Hoisting a sum, a literal or a column reference under an identifier
/// that the session has handed out before introduces exactly that
/// identifier: where it succeeds, the result outputs the columns of the
/// plan and `id`, and nothing else.
pub proof fn lemma_hoist_exact_attributes(p: SpecRel, st: SpecState, id: usize, expr: SpecExpr)
    requires
        hoists_cleanly(expr),
        id < st.next_id,
        p.hoist(st, id, expr).result is Ok,
    ensures
        p.hoist(st, id, expr).plan().att() == p.att().insert(id),
{
    match expr {
        SpecExpr::Plus { left, right } => {
            let left_id = fresh_id(st.next_id);
            let right_id = fresh_id(st.next_id + 1);
            lemma_hoist_sum(p, st, id, *left, *right);
            let first = p.hoist(st.advanced(2), left_id, *left);
            let second = first.plan().hoist(st.at(first.next_id), right_id, *right);
            let a = sum_of_cols(id, left_id, right_id);
            let sum = SpecRel::MapCols { input: Box::new(second.plan()), exprs: seq![a] };
            let cols = p.att().insert(id);
            reveal_with_fuel(SpecExpr::free, 2);
            assert(!required_cols(seq![a]).contains(id)) by {
                if required_cols(seq![a]).contains(id) {
                    let i = choose|i: int|
                        0 <= i < assigned_frees(seq![a]).len() && (#[trigger] assigned_frees(
                            seq![a],
                        )[i]).contains(id);
                    assert(assigned_frees(seq![a])[i] == a.1.free());
                }
            }
            assert(cols.contains(id));
            assert(!sum.pushes_projection(cols));
        },
        _ => {
            assert(seq![(id, expr)][0].0 == id);
            assert(assigned_ids(seq![(id, expr)]) =~= set![id]);
            assert(p.att().union(set![id]) =~= p.att().insert(id));
        },
    }
}

/// Attributes of computed columns. Where every assignment that holds a
/// subquery is a sum, and every identifier assigned to has been handed out
/// by the session before, the computed columns introduce exactly their
/// identifiers: where they succeed, the result outputs the columns of the
/// plan and the identifiers assigned to, and nothing else.
pub proof fn lemma_map_exact_attributes(p: SpecRel, st: SpecState, exprs: Seq<(usize, SpecExpr)>)
    requires
        forall|i: int|
            0 <= i < exprs.len() && (#[trigger] exprs[i]).1.has_subquery() ==> exprs[i].1 is Plus,
        forall|i: int| 0 <= i < exprs.len() ==> (#[trigger] exprs[i]).0 < st.next_id,
        p.map(st, exprs).result is Ok,
    ensures
        p.map(st, exprs).plan().att() == p.att().union(assigned_ids(exprs)),
    decreases exprs.len(),
{
    let i = first_subquery(exprs, 0);
    lemma_first_subquery(exprs, 0);
    if exprs.len() == 0 || !st.hoisting() || i >= exprs.len() {
        lemma_map_plain(p, st, exprs);
    } else {
        let rest = swap_removed(exprs, i);
        lemma_map_hoists(p, st, exprs);
        lemma_map_bounds(p, st, rest);
        lemma_assigned_ids_swap_removed(exprs, i);
        let below = p.map(st, rest);
        assert forall|j: int| 0 <= j < rest.len() implies ((#[trigger] rest[j]).1.has_subquery()
            ==> rest[j].1 is Plus) && rest[j].0 < st.next_id by {
            if j == i {
                assert(rest[j] == exprs[exprs.len() - 1]);
            } else {
                assert(rest[j] == exprs[j]);
            }
        }
        lemma_map_exact_attributes(p, st, rest);
        lemma_hoist_exact_attributes(
            below.plan(),
            st.at(below.next_id),
            exprs[i].0,
            exprs[i].1,
        );
        assert(p.att().union(assigned_ids(rest)).insert(exprs[i].0) =~= p.att().union(
            assigned_ids(exprs),
        ));
    }
}

} // verus!
