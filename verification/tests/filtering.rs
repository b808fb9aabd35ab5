use relplan::ir::{Expr, RelExpr};

fn scan(name: &str, ids: &[usize]) -> RelExpr {
    RelExpr::scan(name.to_string(), ids.to_vec())
}

fn col(id: usize) -> Expr {
    Expr::col_ref(id)
}

fn lit(val: i64) -> Expr {
    Expr::int_lit(val)
}

#[test]
fn select_over_a_scan_builds_a_node() {
    let plan = scan("a", &[0, 1]).select(vec![col(0).eq(lit(1))]);
    let expected = RelExpr::Select {
        src: Box::new(scan("a", &[0, 1])),
        predicates: vec![col(0).eq(lit(1))],
    };
    assert_eq!(plan, expected);
}

#[test]
fn select_twice_is_select_once() {
    let first = vec![col(0).eq(lit(1)), col(1).eq(lit(2))];
    let second = vec![col(0).eq(col(1))];
    let twice = scan("a", &[0, 1]).select(first).select(second);
    let once =
        scan("a", &[0, 1]).select(vec![col(0).eq(lit(1)), col(1).eq(lit(2)), col(0).eq(col(1))]);
    assert_eq!(twice, once);
    let expected = RelExpr::Select {
        src: Box::new(scan("a", &[0, 1])),
        predicates: vec![col(0).eq(lit(1)), col(1).eq(lit(2)), col(0).eq(col(1))],
    };
    assert_eq!(twice, expected);
}

#[test]
fn select_flattens_selections_built_by_hand() {
    let nested = RelExpr::Select {
        src: Box::new(RelExpr::Select {
            src: Box::new(scan("a", &[0, 1])),
            predicates: vec![col(0).eq(lit(1))],
        }),
        predicates: vec![col(1).eq(lit(2))],
    };
    let plan = nested.select(vec![col(0).eq(col(1))]);
    let expected = RelExpr::Select {
        src: Box::new(scan("a", &[0, 1])),
        predicates: vec![col(0).eq(lit(1)), col(1).eq(lit(2)), col(0).eq(col(1))],
    };
    assert_eq!(plan, expected);
}

#[test]
fn select_of_nothing_still_builds_a_node() {
    let plan = scan("a", &[0, 1]).select(vec![]);
    let expected = RelExpr::Select { src: Box::new(scan("a", &[0, 1])), predicates: vec![] };
    assert_eq!(plan, expected);
}

#[test]
fn join_without_predicates_is_a_cross_join() {
    let plan = scan("a", &[0, 1]).join(scan("x", &[2, 3]), vec![]);
    let expected = RelExpr::Join {
        left: Box::new(scan("a", &[0, 1])),
        right: Box::new(scan("x", &[2, 3])),
        predicates: vec![],
    };
    assert_eq!(plan, expected);
}

#[test]
fn join_keeps_predicates_over_both_inputs() {
    let plan = scan("a", &[0, 1]).join(scan("x", &[2, 3]), vec![col(0).eq(col(2))]);
    let expected = RelExpr::Join {
        left: Box::new(scan("a", &[0, 1])),
        right: Box::new(scan("x", &[2, 3])),
        predicates: vec![col(0).eq(col(2))],
    };
    assert_eq!(plan, expected);
}

#[test]
fn join_keeps_predicates_over_outer_columns() {
    let plan = scan("a", &[0, 1]).join(scan("x", &[2, 3]), vec![col(9).eq(lit(1))]);
    let expected = RelExpr::Join {
        left: Box::new(scan("a", &[0, 1])),
        right: Box::new(scan("x", &[2, 3])),
        predicates: vec![col(9).eq(lit(1))],
    };
    assert_eq!(plan, expected);
}

#[test]
fn join_pushes_a_constant_predicate_to_the_left() {
    let plan = scan("a", &[0, 1]).join(scan("x", &[2, 3]), vec![lit(1).eq(lit(1))]);
    let expected = RelExpr::Join {
        left: Box::new(RelExpr::Select {
            src: Box::new(scan("a", &[0, 1])),
            predicates: vec![lit(1).eq(lit(1))],
        }),
        right: Box::new(scan("x", &[2, 3])),
        predicates: vec![],
    };
    assert_eq!(plan, expected);
}

#[test]
fn join_moves_the_last_predicate_into_the_gap() {
    let on_a = || col(0).eq(lit(10));
    let across = || col(0).eq(col(2));
    let crossing = || col(1).eq(col(3));
    let on_x = || col(3).eq(lit(30));
    let plan = scan("a", &[0, 1]).join(scan("x", &[2, 3]), vec![on_a(), across(), crossing(), on_x()]);
    let expected = RelExpr::Join {
        left: Box::new(RelExpr::Select {
            src: Box::new(scan("a", &[0, 1])),
            predicates: vec![on_a()],
        }),
        right: Box::new(RelExpr::Select {
            src: Box::new(scan("x", &[2, 3])),
            predicates: vec![on_x()],
        }),
        predicates: vec![crossing(), across()],
    };
    assert_eq!(plan, expected);
}

#[test]
fn join_rescans_after_each_push() {
    let l = |v: i64| col(0).eq(lit(v));
    let r = |v: i64| col(2).eq(lit(v));
    let both = || col(1).eq(col(3));
    let plan =
        scan("a", &[0, 1]).join(scan("x", &[2, 3]), vec![both(), r(1), l(2), r(3), l(4)]);
    let expected = RelExpr::Join {
        left: Box::new(RelExpr::Select {
            src: Box::new(scan("a", &[0, 1])),
            predicates: vec![l(4), l(2)],
        }),
        right: Box::new(RelExpr::Select {
            src: Box::new(scan("x", &[2, 3])),
            predicates: vec![r(1), r(3)],
        }),
        predicates: vec![both()],
    };
    assert_eq!(plan, expected);
}

#[test]
fn join_merges_pushed_predicates_into_a_selection_that_is_there() {
    let left = scan("a", &[0, 1]).select(vec![col(1).eq(lit(5))]);
    let plan = left.join(scan("x", &[2, 3]), vec![col(0).eq(lit(10))]);
    let expected = RelExpr::Join {
        left: Box::new(RelExpr::Select {
            src: Box::new(scan("a", &[0, 1])),
            predicates: vec![col(1).eq(lit(5)), col(0).eq(lit(10))],
        }),
        right: Box::new(scan("x", &[2, 3])),
        predicates: vec![],
    };
    assert_eq!(plan, expected);
}
