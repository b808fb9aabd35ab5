use relplan::ir::{Expr, RelExpr};
use relplan::rewrite::RewriteError;
use relplan::state::{Rule, State};
use std::collections::HashSet;

fn cols(ids: &[usize]) -> HashSet<usize> {
    ids.iter().copied().collect()
}

fn scan(name: &str, ids: &[usize]) -> RelExpr {
    RelExpr::scan(name.to_string(), ids.to_vec())
}

fn col(id: usize) -> Expr {
    Expr::col_ref(id)
}

fn lit(val: i64) -> Expr {
    Expr::int_lit(val)
}

fn subquery(plan: RelExpr) -> Expr {
    Expr::Subquery { expr: Box::new(plan) }
}

fn session(first_id: usize, rules: &[Rule]) -> State {
    let mut state = State::starting_at(first_id);
    for rule in rules {
        state.enable(*rule);
    }
    state
}

fn one_column_of_x() -> RelExpr {
    RelExpr::Project { src: Box::new(scan("x", &[2, 3])), cols: cols(&[2]) }
}

fn correlated_select() -> RelExpr {
    RelExpr::Select { src: Box::new(scan("x", &[2, 3])), predicates: vec![col(2).eq(col(0))] }
}

#[test]
fn map_of_nothing_returns_the_plan() {
    let mut state = session(10, &[Rule::Hoist, Rule::Decorrelate]);
    let plan = scan("a", &[0, 1]).map(&mut state, vec![]);
    assert_eq!(plan, Ok(scan("a", &[0, 1])));
    assert_eq!(state.next(), 10);
}

#[test]
fn map_without_subquery_builds_a_node() {
    let mut state = session(10, &[Rule::Hoist, Rule::Decorrelate]);
    let plan = scan("a", &[0, 1]).map(&mut state, vec![(4, col(0).plus(lit(1))), (5, lit(-7))]);
    let expected = RelExpr::MapCols {
        input: Box::new(scan("a", &[0, 1])),
        exprs: vec![(4, col(0).plus(lit(1))), (5, lit(-7))],
    };
    assert_eq!(plan, Ok(expected));
    assert_eq!(state.next(), 10);
}

#[test]
fn map_with_hoisting_off_keeps_the_subquery() {
    let mut state = session(10, &[Rule::Decorrelate]);
    let plan = scan("a", &[0, 1]).map(&mut state, vec![(4, subquery(one_column_of_x()))]);
    let expected = RelExpr::MapCols {
        input: Box::new(scan("a", &[0, 1])),
        exprs: vec![(4, subquery(one_column_of_x()))],
    };
    assert_eq!(plan, Ok(expected));
}

#[test]
fn map_maps_the_rest_before_it_hoists() {
    let mut state = session(10, &[Rule::Hoist, Rule::Decorrelate]);
    let plan = scan("a", &[0, 1])
        .map(&mut state, vec![(5, subquery(one_column_of_x())), (6, lit(1)), (7, lit(2))])
        .unwrap();
    let expected = RelExpr::Join {
        left: Box::new(RelExpr::MapCols {
            input: Box::new(scan("a", &[0, 1])),
            exprs: vec![(7, lit(2)), (6, lit(1))],
        }),
        right: Box::new(RelExpr::MapCols {
            input: Box::new(one_column_of_x()),
            exprs: vec![(5, col(2))],
        }),
        predicates: vec![],
    };
    assert_eq!(plan, expected);
    assert_eq!(plan.att(), cols(&[0, 1, 2, 5, 6, 7]));
}

#[test]
fn map_hoists_two_subqueries_in_turn() {
    let mut state = session(10, &[Rule::Hoist, Rule::Decorrelate]);
    let y = RelExpr::Project { src: Box::new(scan("y", &[8, 9])), cols: cols(&[8]) };
    let plan = scan("a", &[0, 1])
        .map(&mut state, vec![(5, subquery(one_column_of_x())), (6, subquery(y))])
        .unwrap();
    let first = RelExpr::Join {
        left: Box::new(scan("a", &[0, 1])),
        right: Box::new(RelExpr::MapCols {
            input: Box::new(RelExpr::Project {
                src: Box::new(scan("y", &[8, 9])),
                cols: cols(&[8]),
            }),
            exprs: vec![(6, col(8))],
        }),
        predicates: vec![],
    };
    let expected = RelExpr::Join {
        left: Box::new(first),
        right: Box::new(RelExpr::MapCols {
            input: Box::new(one_column_of_x()),
            exprs: vec![(5, col(2))],
        }),
        predicates: vec![],
    };
    assert_eq!(plan, expected);
}

#[test]
fn map_fails_on_a_comparison_with_a_subquery() {
    let mut state = session(10, &[Rule::Hoist, Rule::Decorrelate]);
    let plan =
        scan("a", &[0, 1]).map(&mut state, vec![(4, subquery(one_column_of_x()).eq(lit(1)))]);
    assert_eq!(plan, Err(RewriteError::Unsupported));
}

#[test]
fn hoist_of_a_literal_is_a_computed_column() {
    let mut state = session(10, &[Rule::Hoist, Rule::Decorrelate]);
    let plan = scan("a", &[0, 1]).hoist(&mut state, 4, lit(3));
    let expected =
        RelExpr::MapCols { input: Box::new(scan("a", &[0, 1])), exprs: vec![(4, lit(3))] };
    assert_eq!(plan, Ok(expected));
    assert_eq!(state.next(), 10);
}

#[test]
fn hoist_of_a_column_is_a_computed_column() {
    let mut state = session(10, &[]);
    let plan = scan("a", &[0, 1]).hoist(&mut state, 4, col(1));
    let expected =
        RelExpr::MapCols { input: Box::new(scan("a", &[0, 1])), exprs: vec![(4, col(1))] };
    assert_eq!(plan, Ok(expected));
}

#[test]
fn hoist_of_a_comparison_is_not_supported() {
    let mut state = session(10, &[Rule::Hoist, Rule::Decorrelate]);
    let plan = scan("a", &[0, 1]).hoist(&mut state, 4, col(0).eq(col(1)));
    assert_eq!(plan, Err(RewriteError::Unsupported));
    assert_eq!(state.next(), 10);
}

#[test]
fn hoist_of_a_sum_takes_two_identifiers_and_projects_them_away() {
    let mut state = session(10, &[Rule::Hoist, Rule::Decorrelate]);
    let plan = scan("a", &[0, 1])
        .hoist(&mut state, 9, lit(3).plus(subquery(one_column_of_x())))
        .unwrap();
    let left_hoisted =
        RelExpr::MapCols { input: Box::new(scan("a", &[0, 1])), exprs: vec![(10, lit(3))] };
    let right_hoisted = RelExpr::Join {
        left: Box::new(left_hoisted),
        right: Box::new(RelExpr::MapCols {
            input: Box::new(one_column_of_x()),
            exprs: vec![(11, col(2))],
        }),
        predicates: vec![],
    };
    let expected = RelExpr::Project {
        src: Box::new(RelExpr::MapCols {
            input: Box::new(right_hoisted),
            exprs: vec![(9, col(10).plus(col(11)))],
        }),
        cols: cols(&[0, 1, 9]),
    };
    assert_eq!(plan, expected);
    assert_eq!(plan.att(), cols(&[0, 1, 9]));
    assert_eq!(state.next(), 12);
}

#[test]
fn hoist_of_a_sum_without_subquery_still_takes_identifiers() {
    let mut state = session(20, &[]);
    let plan = scan("a", &[0, 1]).hoist(&mut state, 9, col(0).plus(col(1))).unwrap();
    let expected = RelExpr::Project {
        src: Box::new(RelExpr::MapCols {
            input: Box::new(RelExpr::MapCols {
                input: Box::new(RelExpr::MapCols {
                    input: Box::new(scan("a", &[0, 1])),
                    exprs: vec![(20, col(0))],
                }),
                exprs: vec![(21, col(1))],
            }),
            exprs: vec![(9, col(20).plus(col(21)))],
        }),
        cols: cols(&[0, 1, 9]),
    };
    assert_eq!(plan, expected);
    assert_eq!(state.next(), 22);
}

#[test]
fn hoist_of_a_sum_fails_when_identifiers_run_out() {
    let mut state = session(usize::MAX - 1, &[Rule::Hoist, Rule::Decorrelate]);
    let plan = scan("a", &[0, 1]).hoist(&mut state, 9, lit(3).plus(lit(4)));
    assert_eq!(plan, Err(RewriteError::IdsExhausted));
    assert_eq!(state.next(), usize::MAX - 1);
}

#[test]
fn hoist_of_a_sum_uses_the_last_two_identifiers() {
    let mut state = session(usize::MAX - 2, &[Rule::Hoist, Rule::Decorrelate]);
    let plan = scan("a", &[0, 1]).hoist(&mut state, 9, lit(3).plus(lit(4))).unwrap();
    assert_eq!(plan.att(), cols(&[0, 1, 9]));
    assert_eq!(state.peek(), usize::MAX);
}

#[test]
fn hoist_of_a_sum_passes_on_the_error_of_an_operand() {
    let mut state = session(10, &[Rule::Hoist, Rule::Decorrelate]);
    let wide = subquery(scan("x", &[2, 3]));
    let plan = scan("a", &[0, 1]).hoist(&mut state, 9, lit(3).plus(wide));
    assert_eq!(plan, Err(RewriteError::Arity));
    let plan = scan("a", &[0, 1]).hoist(&mut state, 9, col(0).eq(lit(1)).plus(lit(2)));
    assert_eq!(plan, Err(RewriteError::Unsupported));
}

#[test]
fn flatmap_with_decorrelation_off_builds_a_node() {
    let mut state = session(10, &[Rule::Hoist]);
    let plan = scan("a", &[0, 1]).flatmap(&mut state, scan("x", &[2, 3]));
    let expected = RelExpr::FlatMap {
        input: Box::new(scan("a", &[0, 1])),
        func: Box::new(scan("x", &[2, 3])),
    };
    assert_eq!(plan, Ok(expected));
}

#[test]
fn flatmap_of_an_uncorrelated_plan_is_a_join() {
    let mut state = session(10, &[Rule::Decorrelate]);
    let plan = scan("a", &[0, 1]).flatmap(&mut state, one_column_of_x());
    let expected = RelExpr::Join {
        left: Box::new(scan("a", &[0, 1])),
        right: Box::new(one_column_of_x()),
        predicates: vec![],
    };
    assert_eq!(plan, Ok(expected));
}

#[test]
fn flatmap_of_a_correlated_selection_stays_dependent() {
    let mut state = session(10, &[Rule::Decorrelate]);
    let plan = scan("a", &[0, 1]).flatmap(&mut state, correlated_select());
    let expected = RelExpr::FlatMap {
        input: Box::new(scan("a", &[0, 1])),
        func: Box::new(correlated_select()),
    };
    assert_eq!(plan, Ok(expected));
}

#[test]
fn flatmap_pulls_a_projection_up() {
    let mut state = session(10, &[Rule::Decorrelate]);
    let inner = RelExpr::Project { src: Box::new(correlated_select()), cols: cols(&[2]) };
    let plan = scan("a", &[0, 1]).flatmap(&mut state, inner).unwrap();
    let expected = RelExpr::Project {
        src: Box::new(RelExpr::FlatMap {
            input: Box::new(scan("a", &[0, 1])),
            func: Box::new(correlated_select()),
        }),
        cols: cols(&[0, 1, 2]),
    };
    assert_eq!(plan, expected);
    assert_eq!(plan.att(), cols(&[0, 1, 2]));
}

#[test]
fn flatmap_pulls_computed_columns_up() {
    let mut state = session(10, &[Rule::Decorrelate]);
    let inner = RelExpr::MapCols {
        input: Box::new(scan("x", &[2, 3])),
        exprs: vec![(4, col(2).plus(col(0)))],
    };
    let plan = scan("a", &[0, 1]).flatmap(&mut state, inner).unwrap();
    let expected = RelExpr::MapCols {
        input: Box::new(RelExpr::Join {
            left: Box::new(scan("a", &[0, 1])),
            right: Box::new(scan("x", &[2, 3])),
            predicates: vec![],
        }),
        exprs: vec![(4, col(2).plus(col(0)))],
    };
    assert_eq!(plan, expected);
    assert_eq!(plan.att(), cols(&[0, 1, 2, 3, 4]));
}

#[test]
fn flatmap_hoists_what_it_pulls_up() {
    let mut state = session(10, &[Rule::Decorrelate, Rule::Hoist]);
    let inner = RelExpr::MapCols {
        input: Box::new(correlated_select()),
        exprs: vec![(4, subquery(scan("y", &[8, 9])))],
    };
    let plan = scan("a", &[0, 1]).flatmap(&mut state, inner);
    assert_eq!(plan, Err(RewriteError::Arity));
}

#[test]
fn project_builds_a_node() {
    let mut state = session(10, &[Rule::Hoist, Rule::Decorrelate]);
    let plan = scan("a", &[0, 1]).project(&mut state, cols(&[1])).unwrap();
    let expected = RelExpr::Project { src: Box::new(scan("a", &[0, 1])), cols: cols(&[1]) };
    assert_eq!(plan, expected);
    assert_eq!(plan.att(), cols(&[1]));
}

#[test]
fn project_is_pushed_below_computed_columns_that_need_its_columns() {
    let mut state = session(10, &[]);
    let source = RelExpr::MapCols { input: Box::new(scan("t", &[0])), exprs: vec![(1, col(0))] };
    let plan = source.project(&mut state, cols(&[0])).unwrap();
    let expected = RelExpr::MapCols {
        input: Box::new(RelExpr::Project { src: Box::new(scan("t", &[0])), cols: cols(&[0]) }),
        exprs: vec![(1, col(0))],
    };
    assert_eq!(plan, expected);
    assert_eq!(plan.att(), cols(&[0, 1]));
}

#[test]
fn project_of_nothing_is_pushed_below_computed_columns() {
    let mut state = session(10, &[]);
    let source = RelExpr::MapCols { input: Box::new(scan("t", &[0])), exprs: vec![(1, lit(5))] };
    let plan = source.project(&mut state, cols(&[])).unwrap();
    let expected = RelExpr::MapCols {
        input: Box::new(RelExpr::Project { src: Box::new(scan("t", &[0])), cols: cols(&[]) }),
        exprs: vec![(1, lit(5))],
    };
    assert_eq!(plan, expected);
}

#[test]
fn project_stays_above_computed_columns_that_do_not_need_its_columns() {
    let mut state = session(10, &[]);
    let source = RelExpr::MapCols { input: Box::new(scan("t", &[0])), exprs: vec![(1, col(0))] };
    let plan = source.project(&mut state, cols(&[0, 1])).unwrap();
    let expected = RelExpr::Project {
        src: Box::new(RelExpr::MapCols {
            input: Box::new(scan("t", &[0])),
            exprs: vec![(1, col(0))],
        }),
        cols: cols(&[0, 1]),
    };
    assert_eq!(plan, expected);
}

#[test]
fn project_hoists_the_subqueries_it_maps_again() {
    let mut state = session(10, &[Rule::Hoist, Rule::Decorrelate]);
    let source = RelExpr::MapCols {
        input: Box::new(scan("a", &[0, 1])),
        exprs: vec![(4, subquery(RelExpr::Project {
            src: Box::new(correlated_select()),
            cols: cols(&[2]),
        }))],
    };
    let plan = source.project(&mut state, cols(&[0])).unwrap();
    let below = RelExpr::Project { src: Box::new(scan("a", &[0, 1])), cols: cols(&[0]) };
    let expected = RelExpr::MapCols {
        input: Box::new(RelExpr::Project {
            src: Box::new(RelExpr::FlatMap {
                input: Box::new(below),
                func: Box::new(correlated_select()),
            }),
            cols: cols(&[0, 2]),
        }),
        exprs: vec![(4, col(2))],
    };
    assert_eq!(plan, expected);
}

#[test]
fn flatmap_pushes_the_projection_it_pulled_up_down_again() {
    let mut state = session(10, &[Rule::Decorrelate]);
    let inner = RelExpr::Project {
        src: Box::new(RelExpr::MapCols {
            input: Box::new(correlated_select()),
            exprs: vec![(4, col(0))],
        }),
        cols: cols(&[]),
    };
    let plan = scan("a", &[0, 1]).flatmap(&mut state, inner).unwrap();
    let expected = RelExpr::Project {
        src: Box::new(RelExpr::MapCols {
            input: Box::new(RelExpr::FlatMap {
                input: Box::new(scan("a", &[0, 1])),
                func: Box::new(correlated_select()),
            }),
            exprs: vec![(4, col(0))],
        }),
        cols: cols(&[0, 1]),
    };
    assert_eq!(plan, expected);
    let narrow = RelExpr::Project {
        src: Box::new(RelExpr::MapCols {
            input: Box::new(correlated_select()),
            exprs: vec![(4, col(0))],
        }),
        cols: cols(&[]),
    };
    let plan = scan("a", &[0]).flatmap(&mut state, narrow).unwrap();
    let expected = RelExpr::MapCols {
        input: Box::new(RelExpr::Project {
            src: Box::new(RelExpr::FlatMap {
                input: Box::new(scan("a", &[0])),
                func: Box::new(correlated_select()),
            }),
            cols: cols(&[0]),
        }),
        exprs: vec![(4, col(0))],
    };
    assert_eq!(plan, expected);
    assert_eq!(plan.att(), cols(&[0, 4]));
}
