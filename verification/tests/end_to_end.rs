use relplan::ir::{Expr, RelExpr};
use relplan::rewrite::RewriteError;
use relplan::state::{Rule, State};
use std::collections::HashSet;

fn cols(ids: &[usize]) -> HashSet<usize> {
    ids.iter().copied().collect()
}

fn scan(name: &str, ids: &[usize]) -> RelExpr {
    RelExpr::scan(name.to_string(), ids.to_vec())
}

fn col(id: usize) -> Expr {
    Expr::col_ref(id)
}

fn lit(val: i64) -> Expr {
    Expr::int_lit(val)
}

fn subquery(plan: RelExpr) -> Expr {
    Expr::Subquery { expr: Box::new(plan) }
}

fn full_session() -> State {
    let mut state = State::new();
    state.enable(Rule::Hoist);
    state.enable(Rule::Decorrelate);
    state
}

fn count_nodes(plan: &RelExpr, joins: &mut usize, flatmaps: &mut usize) {
    match plan {
        RelExpr::Scan { .. } => {}
        RelExpr::Select { src, .. } => count_nodes(src, joins, flatmaps),
        RelExpr::Join { left, right, .. } => {
            *joins += 1;
            count_nodes(left, joins, flatmaps);
            count_nodes(right, joins, flatmaps);
        }
        RelExpr::Project { src, .. } => count_nodes(src, joins, flatmaps),
        RelExpr::MapCols { input, .. } => count_nodes(input, joins, flatmaps),
        RelExpr::FlatMap { input, func } => {
            *flatmaps += 1;
            count_nodes(input, joins, flatmaps);
            count_nodes(func, joins, flatmaps);
        }
    }
}

#[test]
fn correlated_sum_subquery_is_hoisted_and_decorrelated() {
    let mut state = full_session();
    let a = state.next();
    let b = state.next();
    let x = state.next();
    let y = state.next();
    let t = state.next();
    let s = state.next();
    assert_eq!((a, b, x, y, t, s), (0, 1, 2, 3, 4, 5));

    let inner = scan("x", &[x, y])
        .project(&mut state, cols(&[x]))
        .unwrap()
        .map(&mut state, vec![(t, col(x).plus(col(a)))])
        .unwrap()
        .project(&mut state, cols(&[t]))
        .unwrap();
    let plan = scan("a", &[a, b])
        .map(&mut state, vec![(s, lit(4).plus(subquery(inner)))])
        .unwrap();

    let expected = RelExpr::Project {
        src: Box::new(RelExpr::MapCols {
            input: Box::new(RelExpr::MapCols {
                input: Box::new(RelExpr::Project {
                    src: Box::new(RelExpr::MapCols {
                        input: Box::new(RelExpr::Join {
                            left: Box::new(RelExpr::MapCols {
                                input: Box::new(scan("a", &[0, 1])),
                                exprs: vec![(6, lit(4))],
                            }),
                            right: Box::new(RelExpr::Project {
                                src: Box::new(scan("x", &[2, 3])),
                                cols: cols(&[2]),
                            }),
                            predicates: vec![],
                        }),
                        exprs: vec![(4, col(2).plus(col(0)))],
                    }),
                    cols: cols(&[4, 0, 1, 6]),
                }),
                exprs: vec![(7, col(4))],
            }),
            exprs: vec![(5, col(6).plus(col(7)))],
        }),
        cols: cols(&[0, 1, 5]),
    };
    assert_eq!(plan, expected);
    assert_eq!(plan.att(), cols(&[a, b, s]));
    let mut joins = 0;
    let mut flatmaps = 0;
    count_nodes(&plan, &mut joins, &mut flatmaps);
    assert_eq!(joins, 1);
    assert_eq!(flatmaps, 0);
    assert_eq!(state.next(), 8);
}

#[test]
fn join_pushes_single_sided_predicates_down() {
    let plan = scan("a", &[0, 1]).join(
        scan("x", &[2, 3]),
        vec![col(0).eq(lit(100)), col(1).eq(lit(200))],
    );
    let expected = RelExpr::Join {
        left: Box::new(RelExpr::Select {
            src: Box::new(scan("a", &[0, 1])),
            predicates: vec![col(0).eq(lit(100)), col(1).eq(lit(200))],
        }),
        right: Box::new(scan("x", &[2, 3])),
        predicates: vec![],
    };
    assert_eq!(plan, expected);
}

#[test]
fn join_pushes_one_predicate_to_each_side() {
    let plan = scan("a", &[0, 1]).join(
        scan("x", &[2, 3]),
        vec![col(0).eq(lit(100)), col(2).eq(lit(200))],
    );
    let expected = RelExpr::Join {
        left: Box::new(RelExpr::Select {
            src: Box::new(scan("a", &[0, 1])),
            predicates: vec![col(0).eq(lit(100))],
        }),
        right: Box::new(RelExpr::Select {
            src: Box::new(scan("x", &[2, 3])),
            predicates: vec![col(2).eq(lit(200))],
        }),
        predicates: vec![],
    };
    assert_eq!(plan, expected);
}

#[test]
fn hoisting_a_subquery_of_wrong_arity_fails() {
    let mut state = full_session();
    let two = subquery(scan("x", &[2, 3]));
    assert_eq!(scan("a", &[0, 1]).hoist(&mut state, 9, two), Err(RewriteError::Arity));
    let none = subquery(scan("x", &[]));
    assert_eq!(scan("a", &[0, 1]).hoist(&mut state, 9, none), Err(RewriteError::Arity));
}

fn assert_disjoint(plan: &RelExpr) {
    let att = plan.att();
    let free = plan.free();
    assert!(att.is_disjoint(&free), "a column is both attribute and free in {:?}", plan);
    match plan {
        RelExpr::Scan { .. } => {}
        RelExpr::Select { src, .. } => assert_disjoint(src),
        RelExpr::Join { left, right, .. } => {
            assert!(left.att().is_disjoint(&right.att()));
            assert_disjoint(left);
            assert_disjoint(right);
        }
        RelExpr::Project { src, .. } => assert_disjoint(src),
        RelExpr::MapCols { input, .. } => assert_disjoint(input),
        RelExpr::FlatMap { input, func } => {
            assert_disjoint(input);
            assert_disjoint(func);
        }
    }
}

#[test]
fn attributes_and_free_variables_are_disjoint_at_every_node() {
    let mut state = full_session();
    for _ in 0..6 {
        state.next();
    }
    let inner = scan("x", &[2, 3])
        .project(&mut state, cols(&[2]))
        .unwrap()
        .map(&mut state, vec![(4, col(2).plus(col(0)))])
        .unwrap()
        .project(&mut state, cols(&[4]))
        .unwrap();
    assert_disjoint(&inner);
    assert_eq!(inner.free(), cols(&[0]));
    let plan = scan("a", &[0, 1])
        .select(vec![col(0).eq(lit(1))])
        .join(scan("b", &[8, 9]), vec![col(1).eq(col(8)), col(9).eq(lit(2))])
        .map(&mut state, vec![(5, lit(4).plus(subquery(inner)))])
        .unwrap();
    assert_disjoint(&plan);
    assert_eq!(plan.free(), cols(&[]));
    assert_eq!(plan.att(), cols(&[0, 1, 5, 8, 9]));
}
