//! Attribute sets, free variables and subquery detection.
//!
//! The definitions are given on the mathematical trees ([`SpecExpr`],
//! [`SpecRel`]); the executable methods compute them on the owned trees and
//! are proved to agree.
use crate::colset::{copy_of, difference, from_vec, is_subset, union_into};
use crate::ir::{
    assignments_model, exprs_model, lemma_assignments_model, lemma_exprs_model, Expr, RelExpr,
    SpecExpr, SpecRel,
};
use std::collections::HashSet;
use vstd::prelude::*;

verus! {

/// The union of the sets in `sets`.
pub open spec fn union_of(sets: Seq<Set<usize>>) -> Set<usize> {
    Set::new(|c: usize| exists|i: int| 0 <= i < sets.len() && (#[trigger] sets[i]).contains(c))
}

/// The identifiers that a list of assignments introduces.
pub open spec fn assigned_ids(exprs: Seq<(usize, SpecExpr)>) -> Set<usize> {
    Set::new(|c: usize| exists|i: int| 0 <= i < exprs.len() && (#[trigger] exprs[i]).0 == c)
}

/// Whether some assignment in the list holds a subquery.
pub open spec fn any_subquery(exprs: Seq<(usize, SpecExpr)>) -> bool {
    exists|i: int| 0 <= i < exprs.len() && (#[trigger] exprs[i]).1.has_subquery()
}

impl SpecExpr {
    /// The columns the expression refers to. A subquery contributes the free
    /// variables of its plan, not the plan's attributes.
    pub open spec fn free(self) -> Set<usize>
        decreases self,
    {
        match self {
            SpecExpr::ColRef { id } => set![id],
            SpecExpr::Int { .. } => Set::empty(),
            SpecExpr::Eq { left, right } => left.free().union(right.free()),
            SpecExpr::Plus { left, right } => left.free().union(right.free()),
            SpecExpr::Subquery { plan } => plan.free(),
        }
    }

    /// Whether a subquery occurs anywhere in the expression.
    pub open spec fn has_subquery(self) -> bool
        decreases self,
    {
        match self {
            SpecExpr::ColRef { .. } => false,
            SpecExpr::Int { .. } => false,
            SpecExpr::Eq { left, right } => left.has_subquery() || right.has_subquery(),
            SpecExpr::Plus { left, right } => left.has_subquery() || right.has_subquery(),
            SpecExpr::Subquery { .. } => true,
        }
    }

    /// Whether every column the expression refers to is an attribute of `rel`.
    pub open spec fn bound_by(self, rel: SpecRel) -> bool {
        self.free().subset_of(rel.att())
    }
}

/// The free-variable sets of a list of expressions, position by position.
pub open spec fn frees_of(es: Seq<SpecExpr>) -> Seq<Set<usize>>
    decreases es,
{
    Seq::new(
        es.len(),
        |i: int|
            if 0 <= i < es.len() {
                es[i].free()
            } else {
                Set::empty()
            },
    )
}


/// The free-variable sets of the right-hand sides of a list of assignments.
pub open spec fn assigned_frees(exprs: Seq<(usize, SpecExpr)>) -> Seq<Set<usize>>
    decreases exprs,
{
    Seq::new(
        exprs.len(),
        |i: int|
            if 0 <= i < exprs.len() {
                exprs[i].1.free()
            } else {
                Set::empty()
            },
    )
}


impl SpecRel {
    /// The attribute set: the columns that the plan outputs.
    pub open spec fn att(self) -> Set<usize>
        decreases self,
    {
        match self {
            SpecRel::Scan { column_names, .. } => column_names.to_set(),
            SpecRel::Select { src, .. } => src.att(),
            SpecRel::Join { left, right, .. } => left.att().union(right.att()),
            SpecRel::Project { cols, .. } => cols,
            SpecRel::MapCols { input, exprs } => input.att().union(assigned_ids(exprs)),
            SpecRel::FlatMap { input, func } => input.att().union(func.att()),
        }
    }

    /// The free-variable set: the columns referred to inside the plan that
    /// its own inputs do not supply.
    pub open spec fn free(self) -> Set<usize>
        decreases self,
    {
        match self {
            SpecRel::Scan { .. } => Set::empty(),
            SpecRel::Select { src, predicates } => src.free().union(
                union_of(frees_of(predicates)),
            ).difference(src.att()),
            SpecRel::Join { left, right, predicates } => left.free().union(right.free()).union(
                union_of(frees_of(predicates)),
            ).difference(left.att().union(right.att())),
            SpecRel::Project { src, .. } => src.free(),
            SpecRel::MapCols { input, exprs } => input.free().union(
                union_of(assigned_frees(exprs)),
            ).difference(input.att()),
            SpecRel::FlatMap { input, func } => input.free().union(func.free()).difference(
                input.att(),
            ),
        }
    }

    /// Whether a subquery occurs in an assignment of a computed-column node
    /// reachable through the inputs of the plan's operators.
    pub open spec fn has_subquery(self) -> bool
        decreases self,
    {
        match self {
            SpecRel::Scan { .. } => false,
            SpecRel::Select { src, .. } => src.has_subquery(),
            SpecRel::Join { left, right, .. } => left.has_subquery() || right.has_subquery(),
            SpecRel::Project { src, .. } => src.has_subquery(),
            SpecRel::MapCols { input, exprs } => input.has_subquery() || any_subquery(exprs),
            SpecRel::FlatMap { input, func } => input.has_subquery() || func.has_subquery(),
        }
    }
}

/// The union of the first `n + 1` sets is the union of the first `n` with set `n`.
pub proof fn lemma_union_of_step(sets: Seq<Set<usize>>, n: int)
    requires
        0 <= n < sets.len(),
    ensures
        union_of(sets.take(n + 1)) == union_of(sets.take(n)).union(sets[n]),
        union_of(sets.take(0)) == Set::<usize>::empty(),
        union_of(sets.take(sets.len() as int)) == union_of(sets),
{
    let a = union_of(sets.take(n + 1));
    let b = union_of(sets.take(n)).union(sets[n]);
    assert forall|c: usize| a.contains(c) <==> b.contains(c) by {
        if a.contains(c) {
            let t = sets.take(n + 1);
            let i = choose|i: int| 0 <= i < t.len() && (#[trigger] t[i]).contains(c);
            if i < n {
                assert(sets.take(n)[i].contains(c));
            }
        }
        if union_of(sets.take(n)).contains(c) {
            let t = sets.take(n);
            let i = choose|i: int| 0 <= i < t.len() && (#[trigger] t[i]).contains(c);
            assert(sets.take(n + 1)[i].contains(c));
        }
        if sets[n].contains(c) {
            assert(sets.take(n + 1)[n].contains(c));
        }
    }
    assert(a =~= b);
    assert(union_of(sets.take(0)) =~= Set::<usize>::empty());
    assert(sets.take(sets.len() as int) =~= sets);
}

/// The identifiers of the first `n + 1` assignments are those of the
/// first `n` and the identifier of assignment `n`.
pub proof fn lemma_assigned_ids_step(exprs: Seq<(usize, SpecExpr)>, n: int)
    requires
        0 <= n < exprs.len(),
    ensures
        assigned_ids(exprs.take(n + 1)) == assigned_ids(exprs.take(n)).insert(exprs[n].0),
{
    let a = assigned_ids(exprs.take(n + 1));
    let b = assigned_ids(exprs.take(n)).insert(exprs[n].0);
    assert forall|c: usize| a.contains(c) <==> b.contains(c) by {
        if a.contains(c) {
            let t = exprs.take(n + 1);
            let k = choose|k: int| 0 <= k < t.len() && (#[trigger] t[k]).0 == c;
            if k < n {
                assert(exprs.take(n)[k].0 == c);
            }
        }
        if assigned_ids(exprs.take(n)).contains(c) {
            let t = exprs.take(n);
            let k = choose|k: int| 0 <= k < t.len() && (#[trigger] t[k]).0 == c;
            assert(exprs.take(n + 1)[k].0 == c);
        }
        if c == exprs[n].0 {
            assert(exprs.take(n + 1)[n].0 == c);
        }
    }
    assert(a =~= b);
}

impl Expr {
    /// A reference to column `id`.
    pub fn col_ref(id: usize) -> (e: Expr)
        ensures
            e@ == (SpecExpr::ColRef { id }),
    {
        Expr::ColRef { id }
    }

    /// The integer literal `val`.
    pub fn int_lit(val: i64) -> (e: Expr)
        ensures
            e@ == (SpecExpr::Int { val }),
    {
        Expr::Int { val }
    }

    /// The comparison `self = other`.
    pub fn eq(self, other: Expr) -> (e: Expr)
        ensures
            e@ == (SpecExpr::Eq { left: Box::new(self@), right: Box::new(other@) }),
    {
        Expr::Eq { left: Box::new(self), right: Box::new(other) }
    }

    /// The sum `self + other`.
    pub fn plus(self, other: Expr) -> (e: Expr)
        ensures
            e@ == (SpecExpr::Plus { left: Box::new(self@), right: Box::new(other@) }),
    {
        Expr::Plus { left: Box::new(self), right: Box::new(other) }
    }

    /// Computes the free-variable set of the expression.
    pub fn free(&self) -> (out: HashSet<usize>)
        ensures
            out@ == self@.free(),
        decreases self,
    {
        match self {
            Expr::ColRef { id } => {
                let mut out: HashSet<usize> = HashSet::new();
                out.insert(*id);
                assert(out@ =~= set![*id]);
                out
            },
            Expr::Int { .. } => HashSet::new(),
            Expr::Eq { left, right } => {
                let mut out = left.free();
                let r = right.free();
                union_into(&mut out, &r);
                out
            },
            Expr::Plus { left, right } => {
                let mut out = left.free();
                let r = right.free();
                union_into(&mut out, &r);
                out
            },
            Expr::Subquery { expr } => expr.free(),
        }
    }

    /// Whether every column the expression refers to is an attribute of `rel`.
    pub fn bound_by(&self, rel: &RelExpr) -> (b: bool)
        ensures
            b == self@.bound_by(rel@),
    {
        let f = self.free();
        let a = rel.att();
        is_subset(&f, &a)
    }

    /// Whether a subquery occurs anywhere in the expression.
    pub fn has_subquery(&self) -> (b: bool)
        ensures
            b == self@.has_subquery(),
        decreases self,
    {
        match self {
            Expr::ColRef { .. } => false,
            Expr::Int { .. } => false,
            Expr::Eq { left, right } => left.has_subquery() || right.has_subquery(),
            Expr::Plus { left, right } => left.has_subquery() || right.has_subquery(),
            Expr::Subquery { .. } => true,
        }
    }
}

/// Adds to `out` the free variables of every expression in `preds`.
fn add_free_of_predicates(out: &mut HashSet<usize>, preds: &Vec<Expr>)
    ensures
        final(out)@ == old(out)@.union(union_of(frees_of(exprs_model(preds@)))),
    decreases preds,
{
    let ghost start = out@;
    let ghost sets = frees_of(exprs_model(preds@));
    let mut i: usize = 0;
    proof {
        lemma_exprs_model(preds@);
        if sets.len() > 0 {
            lemma_union_of_step(sets, 0);
        } else {
            assert(union_of(sets.take(0)) =~= Set::<usize>::empty());
        }
        assert(start.union(Set::empty()) =~= start);
    }
    while i < preds.len()
        invariant
            i <= preds.len(),
            sets.len() == preds.len(),
            forall|j: int| 0 <= j < preds.len() ==> sets[j] == #[trigger] preds@[j]@.free(),
            out@ == start.union(union_of(sets.take(i as int))),
        decreases preds.len() - i,
    {
        let f = preds[i].free();
        union_into(out, &f);
        proof {
            lemma_union_of_step(sets, i as int);
            assert(out@ =~= start.union(union_of(sets.take(i + 1))));
        }
        i += 1;
    }
    proof {
        assert(sets.take(sets.len() as int) =~= sets);
    }
}

/// Adds to `out` the free variables of every right-hand side in `exprs`.
pub(crate) fn add_free_of_assignments(out: &mut HashSet<usize>, exprs: &Vec<(usize, Expr)>)
    ensures
        final(out)@ == old(out)@.union(union_of(assigned_frees(assignments_model(exprs@)))),
    decreases exprs,
{
    let ghost start = out@;
    let ghost sets = assigned_frees(assignments_model(exprs@));
    let mut i: usize = 0;
    proof {
        lemma_assignments_model(exprs@);
        if sets.len() > 0 {
            lemma_union_of_step(sets, 0);
        } else {
            assert(union_of(sets.take(0)) =~= Set::<usize>::empty());
        }
        assert(start.union(Set::empty()) =~= start);
    }
    while i < exprs.len()
        invariant
            i <= exprs.len(),
            sets.len() == exprs.len(),
            forall|j: int| 0 <= j < exprs.len() ==> sets[j] == #[trigger] exprs@[j].1@.free(),
            out@ == start.union(union_of(sets.take(i as int))),
        decreases exprs.len() - i,
    {
        let f = exprs[i].1.free();
        union_into(out, &f);
        proof {
            lemma_union_of_step(sets, i as int);
            assert(out@ =~= start.union(union_of(sets.take(i + 1))));
        }
        i += 1;
    }
    proof {
        assert(sets.take(sets.len() as int) =~= sets);
    }
}

/// Adds to `out` the identifiers that the assignments in `exprs` introduce.
fn add_assigned_ids(out: &mut HashSet<usize>, exprs: &Vec<(usize, Expr)>)
    ensures
        final(out)@ == old(out)@.union(assigned_ids(assignments_model(exprs@))),
{
    let ghost start = out@;
    let ghost all = assignments_model(exprs@);
    let mut i: usize = 0;
    proof {
        lemma_assignments_model(exprs@);
        assert(assigned_ids(all.take(0)) =~= Set::empty());
        assert(start.union(Set::empty()) =~= start);
    }
    while i < exprs.len()
        invariant
            i <= exprs.len(),
            all.len() == exprs.len(),
            forall|j: int| 0 <= j < exprs.len() ==> (#[trigger] all[j]).0 == exprs@[j].0,
            out@ == start.union(assigned_ids(all.take(i as int))),
        decreases exprs.len() - i,
    {
        out.insert(exprs[i].0);
        proof {
            lemma_assigned_ids_step(all, i as int);
            assert(out@ =~= start.union(assigned_ids(all.take(i + 1))));
        }
        i += 1;
    }
    proof {
        assert(all.take(all.len() as int) =~= all);
    }
}

impl RelExpr {
    /// A scan of table `table_name` that outputs the columns `column_names`.
    pub fn scan(table_name: String, column_names: Vec<usize>) -> (r: RelExpr)
        ensures
            r@ == (SpecRel::Scan { table_name: table_name@, column_names: column_names@ }),
    {
        RelExpr::Scan { table_name, column_names }
    }

    /// Computes the attribute set of the plan.
    pub fn att(&self) -> (out: HashSet<usize>)
        ensures
            out@ == self@.att(),
        decreases self,
    {
        match self {
            RelExpr::Scan { column_names, .. } => from_vec(column_names),
            RelExpr::Select { src, .. } => src.att(),
            RelExpr::Join { left, right, .. } => {
                let mut out = left.att();
                let r = right.att();
                union_into(&mut out, &r);
                out
            },
            RelExpr::Project { cols, .. } => copy_of(cols),
            RelExpr::MapCols { input, exprs } => {
                let mut out = input.att();
                add_assigned_ids(&mut out, exprs);
                out
            },
            RelExpr::FlatMap { input, func } => {
                let mut out = input.att();
                let r = func.att();
                union_into(&mut out, &r);
                out
            },
        }
    }

    /// Computes the free-variable set of the plan.
    pub fn free(&self) -> (out: HashSet<usize>)
        ensures
            out@ == self@.free(),
        decreases self,
    {
        match self {
            RelExpr::Scan { .. } => HashSet::new(),
            RelExpr::Select { src, predicates } => {
                let mut all = src.free();
                add_free_of_predicates(&mut all, predicates);
                let bound = src.att();
                difference(&all, &bound)
            },
            RelExpr::Join { left, right, predicates } => {
                let mut all = left.free();
                let r = right.free();
                union_into(&mut all, &r);
                add_free_of_predicates(&mut all, predicates);
                let mut bound = left.att();
                let ra = right.att();
                union_into(&mut bound, &ra);
                difference(&all, &bound)
            },
            RelExpr::Project { src, .. } => src.free(),
            RelExpr::MapCols { input, exprs } => {
                let mut all = input.free();
                add_free_of_assignments(&mut all, exprs);
                let bound = input.att();
                difference(&all, &bound)
            },
            RelExpr::FlatMap { input, func } => {
                let mut all = input.free();
                let f = func.free();
                union_into(&mut all, &f);
                let bound = input.att();
                difference(&all, &bound)
            },
        }
    }

    /// Whether a subquery occurs in an assignment of a computed-column node
    /// reachable through the inputs of the plan's operators.
    pub fn has_subquery(&self) -> (b: bool)
        ensures
            b == self@.has_subquery(),
        decreases self,
    {
        match self {
            RelExpr::Scan { .. } => false,
            RelExpr::Select { src, .. } => src.has_subquery(),
            RelExpr::Join { left, right, .. } => left.has_subquery() || right.has_subquery(),
            RelExpr::Project { src, .. } => src.has_subquery(),
            RelExpr::MapCols { input, exprs } => {
                if input.has_subquery() {
                    return true;
                }
                let mut i: usize = 0;
                proof {
                    lemma_assignments_model(exprs@);
                }
                while i < exprs.len()
                    invariant
                        i <= exprs.len(),
                        self@->MapCols_exprs.len() == exprs.len(),
                        forall|j: int|
                            0 <= j < exprs.len() ==> (#[trigger] self@->MapCols_exprs[j]).1
                                == exprs@[j].1@,
                        forall|j: int|
                            0 <= j < i ==> !(#[trigger] self@->MapCols_exprs[j]).1.has_subquery(),
                        self@ is MapCols,
                    decreases exprs.len() - i,
                {
                    if exprs[i].1.has_subquery() {
                        assert(self@->MapCols_exprs[i as int].1.has_subquery());
                        assert(any_subquery(self@->MapCols_exprs));
                        return true;
                    }
                    i += 1;
                }
                false
            },
            RelExpr::FlatMap { input, func } => input.has_subquery() || func.has_subquery(),
        }
    }
}

} // verus!
