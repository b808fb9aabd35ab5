use relplan::ir::{Expr, RelExpr};
use std::collections::HashSet;

fn cols(ids: &[usize]) -> HashSet<usize> {
    ids.iter().copied().collect()
}

fn scan(name: &str, ids: &[usize]) -> RelExpr {
    RelExpr::scan(name.to_string(), ids.to_vec())
}

fn col(id: usize) -> Expr {
    Expr::col_ref(id)
}

fn lit(val: i64) -> Expr {
    Expr::int_lit(val)
}

fn text_of(plan: &RelExpr, indent: usize) -> String {
    let mut out = String::new();
    plan.print(indent, &mut out);
    out
}

fn text_of_expr(expr: &Expr, indent: usize) -> String {
    let mut out = String::new();
    expr.print(indent, &mut out);
    out
}

#[test]
fn numbers_are_written_in_decimal() {
    assert_eq!(text_of_expr(&lit(0), 0), "0");
    assert_eq!(text_of_expr(&lit(7), 0), "7");
    assert_eq!(text_of_expr(&lit(10), 0), "10");
    assert_eq!(text_of_expr(&lit(1234567890), 0), "1234567890");
    assert_eq!(text_of_expr(&lit(-1), 0), "-1");
    assert_eq!(text_of_expr(&lit(-305), 0), "-305");
    assert_eq!(text_of_expr(&lit(i64::MAX), 0), "9223372036854775807");
    assert_eq!(text_of_expr(&lit(i64::MIN), 0), "-9223372036854775808");
    assert_eq!(text_of_expr(&col(0), 0), "@0");
    assert_eq!(text_of_expr(&col(4096), 0), "@4096");
    assert_eq!(text_of_expr(&col(usize::MAX), 0), format!("@{}", usize::MAX));
}

#[test]
fn operators_are_written_between_their_operands() {
    assert_eq!(text_of_expr(&col(1).eq(lit(2)), 0), "@1=2");
    assert_eq!(text_of_expr(&col(1).plus(lit(2)), 3), "@1+2");
    assert_eq!(text_of_expr(&col(1).plus(lit(2)).eq(col(3).plus(col(4))), 0), "@1+2=@3+@4");
}

#[test]
fn print_appends_to_what_is_there() {
    let mut out = String::from("plan:\n");
    scan("a", &[0]).print(0, &mut out);
    assert_eq!(out, "plan:\n-> scan(\"a\", [0])\n");
}

#[test]
fn a_subquery_is_written_on_lines_of_its_own() {
    let expr = Expr::Subquery { expr: Box::new(scan("x", &[2, 3])) };
    assert_eq!(text_of_expr(&expr, 0), "λ.(\n      -> scan(\"x\", [2, 3])\n    )");
    assert_eq!(text_of_expr(&expr, 2), "λ.(\n        -> scan(\"x\", [2, 3])\n      )");
}

#[test]
fn a_scan_shows_its_table_and_columns() {
    assert_eq!(text_of(&scan("a", &[0, 1]), 0), "-> scan(\"a\", [0, 1])\n");
    assert_eq!(text_of(&scan("orders", &[]), 0), "-> scan(\"orders\", [])\n");
    assert_eq!(text_of(&scan("a", &[12]), 4), "    -> scan(\"a\", [12])\n");
}

#[test]
fn a_selection_shows_its_predicates() {
    let plan = RelExpr::Select {
        src: Box::new(scan("a", &[0, 1])),
        predicates: vec![col(0).eq(lit(1)), col(1).eq(lit(2)), col(0).eq(col(1))],
    };
    assert_eq!(
        text_of(&plan, 0),
        "-> select(@0=1 && @1=2 && @0=@1)\n  -> scan(\"a\", [0, 1])\n"
    );
    let none = RelExpr::Select { src: Box::new(scan("a", &[0, 1])), predicates: vec![] };
    assert_eq!(text_of(&none, 1), " -> select()\n   -> scan(\"a\", [0, 1])\n");
}

#[test]
fn a_join_shows_both_inputs() {
    let plan = RelExpr::Join {
        left: Box::new(scan("a", &[0, 1])),
        right: Box::new(scan("x", &[2, 3])),
        predicates: vec![col(0).eq(col(2))],
    };
    assert_eq!(
        text_of(&plan, 0),
        "-> join(@0=@2)\n  -> scan(\"a\", [0, 1])\n  -> scan(\"x\", [2, 3])\n"
    );
}

#[test]
fn a_projection_shows_its_columns_in_ascending_order() {
    let plan = RelExpr::Project {
        src: Box::new(scan("a", &[30, 4, 17, 100, 2])),
        cols: cols(&[30, 4, 17, 100, 2]),
    };
    assert_eq!(
        text_of(&plan, 0),
        "-> project({2, 4, 17, 30, 100})\n  -> scan(\"a\", [30, 4, 17, 100, 2])\n"
    );
    let none = RelExpr::Project { src: Box::new(scan("a", &[0])), cols: cols(&[]) };
    assert_eq!(text_of(&none, 0), "-> project({})\n  -> scan(\"a\", [0])\n");
}

#[test]
fn computed_columns_show_one_assignment_per_line() {
    let plan = RelExpr::MapCols {
        input: Box::new(scan("a", &[0, 1])),
        exprs: vec![(5, col(0).plus(col(1))), (6, lit(3))],
    };
    assert_eq!(
        text_of(&plan, 0),
        "-> map(\n    @5 <- @0+@1,\n    @6 <- 3,\n  )\n  -> scan(\"a\", [0, 1])\n"
    );
    assert_eq!(
        text_of(&plan, 2),
        "  -> map(\n      @5 <- @0+@1,\n      @6 <- 3,\n    )\n    -> scan(\"a\", [0, 1])\n"
    );
}

#[test]
fn a_dependent_join_shows_the_free_variables_of_its_inner_side() {
    let inner = RelExpr::Select {
        src: Box::new(scan("x", &[2, 3])),
        predicates: vec![col(2).eq(col(1)), col(3).eq(col(0))],
    };
    let plan = RelExpr::FlatMap { input: Box::new(scan("a", &[0, 1])), func: Box::new(inner) };
    assert_eq!(
        text_of(&plan, 0),
        "-> flatmap\n  -> scan(\"a\", [0, 1])\n  λ.{0, 1}\n  -> select(@2=@1 && @3=@0)\n    -> scan(\"x\", [2, 3])\n"
    );
}

#[test]
fn a_rewritten_plan_is_written_as_a_nested_tree() {
    let plan = RelExpr::Project {
        src: Box::new(RelExpr::MapCols {
            input: Box::new(RelExpr::Join {
                left: Box::new(RelExpr::MapCols {
                    input: Box::new(scan("a", &[0, 1])),
                    exprs: vec![(6, lit(4))],
                }),
                right: Box::new(RelExpr::Project {
                    src: Box::new(scan("x", &[2, 3])),
                    cols: cols(&[2]),
                }),
                predicates: vec![],
            }),
            exprs: vec![(5, col(6).plus(col(2)))],
        }),
        cols: cols(&[0, 1, 5]),
    };
    let expected = "\
-> project({0, 1, 5})
  -> map(
      @5 <- @6+@2,
    )
    -> join()
      -> map(
          @6 <- 4,
        )
        -> scan(\"a\", [0, 1])
      -> project({2})
        -> scan(\"x\", [2, 3])
";
    assert_eq!(text_of(&plan, 0), expected);
}

#[test]
fn a_subquery_in_an_assignment_is_indented_below_it() {
    let plan = RelExpr::MapCols {
        input: Box::new(scan("a", &[0, 1])),
        exprs: vec![(5, lit(4).plus(Expr::Subquery { expr: Box::new(scan("x", &[2])) }))],
    };
    let expected = "\
-> map(
    @5 <- 4+λ.(
      -> scan(\"x\", [2])
    ),
  )
  -> scan(\"a\", [0, 1])
";
    assert_eq!(text_of(&plan, 0), expected);
}
