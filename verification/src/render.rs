//! The nested textual form of expressions and plans.
//!
//! Each operator is written on a line of its own as an arrow and the
//! operator's name, with what it carries, and its inputs follow two
//! columns further in. Column sets are written in ascending order, so the
//! text of a plan depends on nothing but the plan.
use crate::ir::{
    assignments_model, exprs_model, lemma_assignments_model, lemma_exprs_model, Expr, RelExpr,
    SpecExpr, SpecRel,
};
use crate::text::{
    ascending, decimal, id_list, push_id, push_id_list, push_signed, push_spaces, signed_decimal,
    sorted_members, spaces,
};
use vstd::prelude::*;
use vstd::string::StringExecFns;

verus! {

/// The text of a list of predicates, separated by ` && `.
pub open spec fn render_predicates(predicates: Seq<SpecExpr>, indent: nat) -> Seq<char>
    decreases predicates,
{
    if predicates.len() == 0 {
        Seq::empty()
    } else if predicates.len() == 1 {
        predicates[0].render(indent)
    } else {
        render_predicates(predicates.drop_last(), indent) + " && "@ + predicates.last().render(
            indent,
        )
    }
}

/// The text of a list of assignments, one on each line.
pub open spec fn render_assignments(exprs: Seq<(usize, SpecExpr)>, indent: nat) -> Seq<char>
    decreases exprs,
{
    if exprs.len() == 0 {
        Seq::empty()
    } else {
        render_assignments(exprs.drop_last(), indent) + spaces(indent) + "    @"@ + decimal(
            exprs.last().0 as nat,
        ) + " <- "@ + exprs.last().1.render(indent) + ",\n"@
    }
}

impl SpecExpr {
    /// The text of the expression. A subquery's plan is written on lines
    /// of its own, six columns further in than `indent`.
    pub open spec fn render(self, indent: nat) -> Seq<char>
        decreases self,
    {
        match self {
            SpecExpr::ColRef { id } => "@"@ + decimal(id as nat),
            SpecExpr::Int { val } => signed_decimal(val as int),
            SpecExpr::Eq { left, right } => left.render(indent) + "="@ + right.render(indent),
            SpecExpr::Plus { left, right } => left.render(indent) + "+"@ + right.render(indent),
            SpecExpr::Subquery { plan } => "λ.(\n"@ + plan.render(indent + 6) + spaces(indent + 4)
                + ")"@,
        }
    }
}

impl SpecRel {
    /// The text of the plan, its root operator `indent` columns in.
    pub open spec fn render(self, indent: nat) -> Seq<char>
        decreases self,
    {
        match self {
            SpecRel::Scan { table_name, column_names } => spaces(indent) + "-> scan(\""@
                + table_name + "\", ["@ + id_list(column_names) + "])\n"@,
            SpecRel::Select { src, predicates } => spaces(indent) + "-> select("@
                + render_predicates(predicates, indent) + ")\n"@ + src.render(indent + 2),
            SpecRel::Join { left, right, predicates } => spaces(indent) + "-> join("@
                + render_predicates(predicates, indent) + ")\n"@ + left.render(indent + 2)
                + right.render(indent + 2),
            SpecRel::Project { src, cols } => spaces(indent) + "-> project({"@ + id_list(
                ascending(cols),
            ) + "})\n"@ + src.render(indent + 2),
            SpecRel::MapCols { input, exprs } => spaces(indent) + "-> map(\n"@
                + render_assignments(exprs, indent) + spaces(indent + 2) + ")\n"@ + input.render(
                indent + 2,
            ),
            SpecRel::FlatMap { input, func } => spaces(indent) + "-> flatmap\n"@ + input.render(
                indent + 2,
            ) + spaces(indent) + "  λ.{"@ + id_list(ascending(func.free())) + "}\n"@
                + func.render(indent + 2),
        }
    }
}

/// A run of spaces that is `extra` longer than the run `pad`.
fn deeper(pad: &String, extra: usize) -> (p: String)
    requires
        pad@ == spaces(pad@.len()),
    ensures
        p@ == spaces(pad@.len() + extra as nat),
{
    let mut p = pad.clone();
    push_spaces(&mut p, extra);
    assert(p@ =~= spaces(pad@.len() + extra as nat));
    p
}

/// Appends the text of `predicates`, separated by ` && `.
fn print_predicates(predicates: &Vec<Expr>, pad: &String, out: &mut String)
    requires
        pad@ == spaces(pad@.len()),
    ensures
        final(out)@ == old(out)@ + render_predicates(exprs_model(predicates@), pad@.len()),
    decreases predicates,
{
    let ghost all = exprs_model(predicates@);
    proof {
        lemma_exprs_model(predicates@);
        assert(out@ =~= old(out)@ + render_predicates(all.take(0), pad@.len()));
    }
    let mut i: usize = 0;
    while i < predicates.len()
        invariant
            i <= predicates.len(),
            pad@ == spaces(pad@.len()),
            all == exprs_model(predicates@),
            all.len() == predicates.len(),
            forall|j: int| 0 <= j < predicates.len() ==> (#[trigger] all[j]) == predicates@[j]@,
            out@ == old(out)@ + render_predicates(all.take(i as int), pad@.len()),
        decreases predicates.len() - i,
    {
        if i > 0 {
            out.append(" && ");
        }
        predicates[i].print_padded(pad, out);
        proof {
            let t = all.take(i + 1);
            assert(t.drop_last() =~= all.take(i as int));
            assert(t.last() == all[i as int]);
            if i == 0 {
                assert(render_predicates(all.take(0), pad@.len()) =~= Seq::<char>::empty());
                assert(t[0] == all[0]);
            }
            assert(out@ =~= old(out)@ + render_predicates(t, pad@.len()));
        }
        i += 1;
    }
    proof {
        assert(all.take(all.len() as int) =~= all);
    }
}

/// Appends the text of `exprs`, one assignment on each line.
fn print_assignments(exprs: &Vec<(usize, Expr)>, pad: &String, out: &mut String)
    requires
        pad@ == spaces(pad@.len()),
    ensures
        final(out)@ == old(out)@ + render_assignments(assignments_model(exprs@), pad@.len()),
    decreases exprs,
{
    let ghost all = assignments_model(exprs@);
    proof {
        lemma_assignments_model(exprs@);
        assert(out@ =~= old(out)@ + render_assignments(all.take(0), pad@.len()));
    }
    let mut i: usize = 0;
    while i < exprs.len()
        invariant
            i <= exprs.len(),
            pad@ == spaces(pad@.len()),
            all == assignments_model(exprs@),
            all.len() == exprs.len(),
            forall|j: int|
                0 <= j < exprs.len() ==> (#[trigger] all[j]) == (exprs@[j].0, exprs@[j].1@),
            out@ == old(out)@ + render_assignments(all.take(i as int), pad@.len()),
        decreases exprs.len() - i,
    {
        out.append(pad.as_str());
        out.append("    @");
        push_id(out, exprs[i].0);
        out.append(" <- ");
        exprs[i].1.print_padded(pad, out);
        out.append(",\n");
        proof {
            let t = all.take(i + 1);
            assert(t.drop_last() =~= all.take(i as int));
            assert(t.last() == all[i as int]);
            assert(out@ =~= old(out)@ + render_assignments(t, pad@.len()));
        }
        i += 1;
    }
    proof {
        assert(all.take(all.len() as int) =~= all);
    }
}

impl Expr {
    /// Appends the text of the expression to `out`. The plans of its
    /// subqueries are written as if the expression stood `indent` columns in.
    pub fn print(&self, indent: usize, out: &mut String)
        ensures
            final(out)@ == old(out)@ + self@.render(indent as nat),
    {
        let mut pad = String::new();
        push_spaces(&mut pad, indent);
        assert(pad@ =~= spaces(indent as nat));
        self.print_padded(&pad, out);
    }

    /// Appends the text of the expression, where `pad` is the run of spaces
    /// that stands for the indentation.
    pub(crate) fn print_padded(&self, pad: &String, out: &mut String)
        requires
            pad@ == spaces(pad@.len()),
        ensures
            final(out)@ == old(out)@ + self@.render(pad@.len()),
        decreases self,
    {
        match self {
            Expr::ColRef { id } => {
                out.append("@");
                push_id(out, *id);
                assert(out@ =~= old(out)@ + self@.render(pad@.len()));
            },
            Expr::Int { val } => {
                push_signed(out, *val);
            },
            Expr::Eq { left, right } => {
                left.print_padded(pad, out);
                out.append("=");
                right.print_padded(pad, out);
                assert(out@ =~= old(out)@ + self@.render(pad@.len()));
            },
            Expr::Plus { left, right } => {
                left.print_padded(pad, out);
                out.append("+");
                right.print_padded(pad, out);
                assert(out@ =~= old(out)@ + self@.render(pad@.len()));
            },
            Expr::Subquery { expr } => {
                out.append("λ.(\n");
                let inner = deeper(pad, 6);
                expr.print_padded(&inner, out);
                let close = deeper(pad, 4);
                out.append(close.as_str());
                out.append(")");
                assert(out@ =~= old(out)@ + self@.render(pad@.len()));
            },
        }
    }
}

impl RelExpr {
    /// Appends the text of the plan to `out`, its root operator `indent`
    /// columns in and each input two columns further in than its operator.
    pub fn print(&self, indent: usize, out: &mut String)
        ensures
            final(out)@ == old(out)@ + self@.render(indent as nat),
    {
        let mut pad = String::new();
        push_spaces(&mut pad, indent);
        assert(pad@ =~= spaces(indent as nat));
        self.print_padded(&pad, out);
    }

    /// Appends the text of the plan, where `pad` is the run of spaces that
    /// stands for the indentation.
    pub(crate) fn print_padded(&self, pad: &String, out: &mut String)
        requires
            pad@ == spaces(pad@.len()),
        ensures
            final(out)@ == old(out)@ + self@.render(pad@.len()),
        decreases self,
    {
        let inner = deeper(pad, 2);
        out.append(pad.as_str());
        match self {
            RelExpr::Scan { table_name, column_names } => {
                out.append("-> scan(\"");
                out.append(table_name.as_str());
                out.append("\", [");
                push_id_list(out, column_names);
                out.append("])\n");
                assert(out@ =~= old(out)@ + self@.render(pad@.len()));
            },
            RelExpr::Select { src, predicates } => {
                out.append("-> select(");
                print_predicates(predicates, pad, out);
                out.append(")\n");
                src.print_padded(&inner, out);
                assert(out@ =~= old(out)@ + self@.render(pad@.len()));
            },
            RelExpr::Join { left, right, predicates } => {
                out.append("-> join(");
                print_predicates(predicates, pad, out);
                out.append(")\n");
                left.print_padded(&inner, out);
                right.print_padded(&inner, out);
                assert(out@ =~= old(out)@ + self@.render(pad@.len()));
            },
            RelExpr::Project { src, cols } => {
                out.append("-> project({");
                let ordered = sorted_members(cols);
                push_id_list(out, &ordered);
                out.append("})\n");
                src.print_padded(&inner, out);
                assert(out@ =~= old(out)@ + self@.render(pad@.len()));
            },
            RelExpr::MapCols { input, exprs } => {
                out.append("-> map(\n");
                print_assignments(exprs, pad, out);
                out.append(inner.as_str());
                out.append(")\n");
                input.print_padded(&inner, out);
                assert(out@ =~= old(out)@ + self@.render(pad@.len()));
            },
            RelExpr::FlatMap { input, func } => {
                out.append("-> flatmap\n");
                input.print_padded(&inner, out);
                out.append(pad.as_str());
                out.append("  λ.{");
                let free = func.free();
                let ordered = sorted_members(&free);
                push_id_list(out, &ordered);
                out.append("}\n");
                func.print_padded(&inner, out);
                assert(out@ =~= old(out)@ + self@.render(pad@.len()));
            },
        }
    }
}

} // verus!
