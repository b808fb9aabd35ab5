//! Selection and join: merging of nested selections and pushdown of join
//! predicates that one input alone can decide.
use crate::colset::is_subset;
use crate::ir::{exprs_model, lemma_exprs_model, Expr, RelExpr, SpecExpr, SpecRel};
use vstd::prelude::*;

verus! {

/// `s` without entry `i`, the last entry having taken its place.
pub open spec fn swap_removed<A>(s: Seq<A>, i: int) -> Seq<A> {
    s.update(i, s.last()).drop_last()
}

/// Whether the columns in `free` all come from `left`, or all from `right`.
pub open spec fn one_sided(free: Set<usize>, left: Set<usize>, right: Set<usize>) -> bool {
    free.subset_of(left) || free.subset_of(right)
}

/// The first position at or after `from` whose predicate one input alone
/// can decide, or the length of the list where there is none.
pub open spec fn first_one_sided(
    preds: Seq<SpecExpr>,
    left: Set<usize>,
    right: Set<usize>,
    from: int,
) -> int
    decreases preds.len() - from,
{
    if from < 0 || from >= preds.len() {
        preds.len() as int
    } else if one_sided(preds[from].free(), left, right) {
        from
    } else {
        first_one_sided(preds, left, right, from + 1)
    }
}

impl SpecRel {
    /// The selection of `predicates` over the plan. A selection directly
    /// over a selection is merged with it: the new predicates go behind
    /// those already there.
    pub open spec fn select(self, predicates: Seq<SpecExpr>) -> SpecRel
        decreases self,
    {
        match self {
            SpecRel::Select { src, predicates: held } => src.select(held + predicates),
            _ => SpecRel::Select { src: Box::new(self), predicates },
        }
    }

    /// The join of the plan with `other` under `predicates`. The first
    /// predicate that one input alone can decide leaves the list, the last
    /// predicate taking its place, and becomes a selection over that input,
    /// the left one where both can decide it; then the rest is looked at
    /// again. What is left when no such predicate remains stays on the join.
    pub open spec fn join(self, other: SpecRel, predicates: Seq<SpecExpr>) -> SpecRel
        decreases predicates.len(),
    {
        let i = first_one_sided(predicates, self.att(), other.att(), 0);
        if 0 <= i < predicates.len() {
            if predicates[i].bound_by(self) {
                self.select(seq![predicates[i]]).join(other, swap_removed(predicates, i))
            } else {
                self.join(other.select(seq![predicates[i]]), swap_removed(predicates, i))
            }
        } else {
            SpecRel::Join { left: Box::new(self), right: Box::new(other), predicates }
        }
    }

    /// The plan below the selections at its top.
    pub open spec fn unselected(self) -> SpecRel
        decreases self,
    {
        match self {
            SpecRel::Select { src, .. } => src.unselected(),
            _ => self,
        }
    }

    /// The predicates of the selections at the top of the plan, innermost first.
    pub open spec fn selected(self) -> Seq<SpecExpr>
        decreases self,
    {
        match self {
            SpecRel::Select { src, predicates } => src.selected() + predicates,
            _ => Seq::empty(),
        }
    }
}

/// What `first_one_sided` finds: nothing before the position it returns can
/// be decided by one input alone, and the predicate at that position can.
pub proof fn lemma_first_one_sided(
    preds: Seq<SpecExpr>,
    left: Set<usize>,
    right: Set<usize>,
    from: int,
)
    requires
        0 <= from <= preds.len(),
    ensures
        from <= first_one_sided(preds, left, right, from) <= preds.len(),
        forall|j: int|
            from <= j < first_one_sided(preds, left, right, from) ==> !one_sided(
                (#[trigger] preds[j]).free(),
                left,
                right,
            ),
        first_one_sided(preds, left, right, from) < preds.len() ==> one_sided(
            preds[first_one_sided(preds, left, right, from)].free(),
            left,
            right,
        ),
    decreases preds.len() - from,
{
    if from < preds.len() && !one_sided(preds[from].free(), left, right) {
        lemma_first_one_sided(preds, left, right, from + 1);
    }
}

/// A selection keeps the attributes of its input.
pub proof fn lemma_select_att(p: SpecRel, predicates: Seq<SpecExpr>)
    ensures
        p.select(predicates).att() == p.att(),
    decreases p,
{
    match p {
        SpecRel::Select { src, predicates: held } => {
            lemma_select_att(*src, held + predicates);
        },
        _ => {},
    }
}

/// A selection is a single selection node over the plan below the
/// selections of its input, and holds their predicates followed by the new
/// ones: no selection ever sits directly on a selection.
pub proof fn lemma_select_shape(p: SpecRel, predicates: Seq<SpecExpr>)
    ensures
        p.select(predicates) == (SpecRel::Select {
            src: Box::new(p.unselected()),
            predicates: p.selected() + predicates,
        }),
        !(p.unselected() is Select),
    decreases p,
{
    match p {
        SpecRel::Select { src, predicates: held } => {
            lemma_select_shape(*src, held + predicates);
            lemma_select_shape(*src, held);
            assert(src.selected() + (held + predicates) =~= (src.selected() + held) + predicates);
        },
        _ => {
            assert(Seq::<SpecExpr>::empty() + predicates =~= predicates);
        },
    }
}

/// Selecting twice is selecting once with the two predicate lists joined.
pub proof fn lemma_select_merge(p: SpecRel, first: Seq<SpecExpr>, second: Seq<SpecExpr>)
    ensures
        p.select(first).select(second) == p.select(first + second),
{
    lemma_select_shape(p, first);
    lemma_select_shape(p, first + second);
    let once = p.select(first);
    assert(once.select(second) == p.unselected().select((p.selected() + first) + second));
    lemma_select_shape(p.unselected(), (p.selected() + first) + second);
    assert(p.unselected().unselected() == p.unselected()) by {
        lemma_unselected_fixed(p);
    }
    assert(p.unselected().selected() == Seq::<SpecExpr>::empty());
    assert(Seq::<SpecExpr>::empty() + ((p.selected() + first) + second) =~= p.selected() + (first
        + second));
}

/// A plan that is no selection is its own base.
proof fn lemma_unselected_fixed(p: SpecRel)
    ensures
        p.unselected().unselected() == p.unselected(),
        p.unselected().selected() == Seq::<SpecExpr>::empty(),
    decreases p,
{
    match p {
        SpecRel::Select { src, .. } => {
            lemma_unselected_fixed(*src);
        },
        _ => {},
    }
}

/// A join is a join node, whatever was pushed down, and has the
/// attributes of its two inputs together.
pub proof fn lemma_join_is_join(left: SpecRel, right: SpecRel, predicates: Seq<SpecExpr>)
    ensures
        left.join(right, predicates) is Join,
        left.join(right, predicates).att() == left.att().union(right.att()),
    decreases predicates.len(),
{
    let i = first_one_sided(predicates, left.att(), right.att(), 0);
    if 0 <= i < predicates.len() {
        if predicates[i].bound_by(left) {
            lemma_select_att(left, seq![predicates[i]]);
            lemma_join_is_join(
                left.select(seq![predicates[i]]),
                right,
                swap_removed(predicates, i),
            );
        } else {
            lemma_select_att(right, seq![predicates[i]]);
            lemma_join_is_join(
                left,
                right.select(seq![predicates[i]]),
                swap_removed(predicates, i),
            );
        }
    }
}

/// The model of two lists put together is the two models put together.
pub proof fn lemma_exprs_model_add(a: Seq<Expr>, b: Seq<Expr>)
    ensures
        exprs_model(a + b) == exprs_model(a) + exprs_model(b),
{
    lemma_exprs_model(a);
    lemma_exprs_model(b);
    lemma_exprs_model(a + b);
    assert(exprs_model(a + b) =~= exprs_model(a) + exprs_model(b));
}

/// The model of a list without entry `i` is the model without entry `i`.
pub proof fn lemma_exprs_model_swap_removed(a: Seq<Expr>, i: int)
    requires
        0 <= i < a.len(),
    ensures
        exprs_model(swap_removed(a, i)) == swap_removed(exprs_model(a), i),
{
    lemma_exprs_model(a);
    lemma_exprs_model(swap_removed(a, i));
    assert(exprs_model(swap_removed(a, i)) =~= swap_removed(exprs_model(a), i));
}

impl RelExpr {
    /// Selects the rows of the plan that meet every predicate in
    /// `predicates`. Where the plan is itself a selection the two are
    /// merged, so that the result is one selection over a plan that is none.
    pub fn select(self, predicates: Vec<Expr>) -> (r: RelExpr)
        ensures
            r@ == self@.select(exprs_model(predicates@)),
            r@ is Select,
            !(*r@->Select_src is Select),
            r@.att() == self@.att(),
        decreases self,
    {
        proof {
            lemma_select_shape(self@, exprs_model(predicates@));
            lemma_select_att(self@, exprs_model(predicates@));
        }
        let mut predicates = predicates;
        match self {
            RelExpr::Select { src, predicates: held } => {
                let mut held = held;
                proof {
                    lemma_exprs_model_add(held@, predicates@);
                }
                held.append(&mut predicates);
                (*src).select(held)
            },
            other => RelExpr::Select { src: Box::new(other), predicates },
        }
    }

    /// Joins the plan with `other` under `predicates`, pushing each
    /// predicate that one input alone can decide down to a selection over
    /// that input.
    pub fn join(self, other: RelExpr, predicates: Vec<Expr>) -> (r: RelExpr)
        ensures
            r@ == self@.join(other@, exprs_model(predicates@)),
            r@ is Join,
            r@.att() == self@.att().union(other@.att()),
        decreases predicates.len(),
    {
        proof {
            lemma_join_is_join(self@, other@, exprs_model(predicates@));
        }
        let mut rest = predicates;
        let left_att = self.att();
        let right_att = other.att();
        let ghost preds = exprs_model(rest@);
        proof {
            lemma_exprs_model(rest@);
        }
        let mut i: usize = 0;
        while i < rest.len()
            invariant
                i <= rest.len(),
                rest@ == predicates@,
                preds == exprs_model(rest@),
                preds.len() == rest.len(),
                forall|j: int| 0 <= j < rest.len() ==> (#[trigger] preds[j]) == rest@[j]@,
                left_att@ == self@.att(),
                right_att@ == other@.att(),
                first_one_sided(preds, self@.att(), other@.att(), 0) == first_one_sided(
                    preds,
                    self@.att(),
                    other@.att(),
                    i as int,
                ),
            decreases rest.len() - i,
        {
            let free = rest[i].free();
            let to_left = is_subset(&free, &left_att);
            if to_left || is_subset(&free, &right_att) {
                proof {
                    lemma_exprs_model_swap_removed(rest@, i as int);
                    assert(preds[i as int].bound_by(self@) == to_left);
                }
                let predicate = rest.swap_remove(i);
                let mut pushed: Vec<Expr> = Vec::new();
                pushed.push(predicate);
                proof {
                    lemma_exprs_model(pushed@);
                    assert(exprs_model(pushed@) =~= seq![preds[i as int]]);
                }
                if to_left {
                    return self.select(pushed).join(other, rest);
                } else {
                    return self.join(other.select(pushed), rest);
                }
            }
            i += 1;
        }
        RelExpr::Join { left: Box::new(self), right: Box::new(other), predicates: rest }
    }
}

} // verus!
