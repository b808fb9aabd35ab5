use relplan::ir::{Expr, RelExpr};
use relplan::state::{Rule, State};
use std::collections::HashSet;

fn cols(ids: &[usize]) -> HashSet<usize> {
    ids.iter().copied().collect()
}

fn scan(name: &str, ids: &[usize]) -> RelExpr {
    RelExpr::scan(name.to_string(), ids.to_vec())
}

fn col(id: usize) -> Expr {
    Expr::col_ref(id)
}

fn lit(val: i64) -> Expr {
    Expr::int_lit(val)
}

fn subquery(plan: RelExpr) -> Expr {
    Expr::Subquery { expr: Box::new(plan) }
}

fn correlated() -> RelExpr {
    RelExpr::Select { src: Box::new(scan("x", &[2, 3])), predicates: vec![col(2).eq(col(0))] }
}

#[test]
fn constructors_build_the_variants() {
    assert_eq!(col(3), Expr::ColRef { id: 3 });
    assert_eq!(lit(-4), Expr::Int { val: -4 });
    assert_eq!(
        col(1).eq(lit(2)),
        Expr::Eq { left: Box::new(Expr::ColRef { id: 1 }), right: Box::new(Expr::Int { val: 2 }) }
    );
    assert_eq!(
        col(1).plus(lit(2)),
        Expr::Plus {
            left: Box::new(Expr::ColRef { id: 1 }),
            right: Box::new(Expr::Int { val: 2 }),
        }
    );
    assert_eq!(
        scan("t", &[4, 5]),
        RelExpr::Scan { table_name: "t".to_string(), column_names: vec![4, 5] }
    );
}

#[test]
fn free_of_expressions() {
    assert_eq!(col(3).free(), cols(&[3]));
    assert_eq!(lit(3).free(), cols(&[]));
    assert_eq!(col(1).eq(col(2)).free(), cols(&[1, 2]));
    assert_eq!(col(1).plus(col(1)).plus(lit(7)).free(), cols(&[1]));
}

#[test]
fn free_of_a_subquery_is_the_free_set_of_its_plan() {
    assert_eq!(subquery(scan("x", &[2, 3])).free(), cols(&[]));
    assert_eq!(subquery(correlated()).free(), cols(&[0]));
    assert_eq!(col(9).plus(subquery(correlated())).free(), cols(&[0, 9]));
}

#[test]
fn has_subquery_of_expressions() {
    assert!(!col(1).has_subquery());
    assert!(!lit(1).has_subquery());
    assert!(!col(1).eq(lit(2)).has_subquery());
    assert!(subquery(scan("x", &[2])).has_subquery());
    assert!(lit(1).plus(col(2).eq(subquery(scan("x", &[2])))).has_subquery());
}

#[test]
fn bound_by_compares_free_variables_with_attributes() {
    let a = scan("a", &[0, 1]);
    assert!(col(0).bound_by(&a));
    assert!(col(0).eq(col(1)).bound_by(&a));
    assert!(lit(5).bound_by(&a));
    assert!(!col(2).bound_by(&a));
    assert!(!col(0).eq(col(2)).bound_by(&a));
    assert!(lit(5).bound_by(&scan("e", &[])));
}

#[test]
fn att_of_each_operator() {
    let a = scan("a", &[0, 1]);
    assert_eq!(a.att(), cols(&[0, 1]));
    assert_eq!(scan("d", &[7, 7, 8]).att(), cols(&[7, 8]));
    assert_eq!(correlated().att(), cols(&[2, 3]));
    let join = RelExpr::Join {
        left: Box::new(scan("a", &[0, 1])),
        right: Box::new(scan("x", &[2, 3])),
        predicates: vec![col(0).eq(col(2))],
    };
    assert_eq!(join.att(), cols(&[0, 1, 2, 3]));
    let project = RelExpr::Project { src: Box::new(scan("a", &[0, 1])), cols: cols(&[1]) };
    assert_eq!(project.att(), cols(&[1]));
    let map = RelExpr::MapCols {
        input: Box::new(scan("a", &[0, 1])),
        exprs: vec![(5, col(0)), (6, lit(1))],
    };
    assert_eq!(map.att(), cols(&[0, 1, 5, 6]));
    let flatmap =
        RelExpr::FlatMap { input: Box::new(scan("a", &[0, 1])), func: Box::new(correlated()) };
    assert_eq!(flatmap.att(), cols(&[0, 1, 2, 3]));
}

#[test]
fn free_of_each_operator() {
    assert_eq!(scan("a", &[0, 1]).free(), cols(&[]));
    assert_eq!(correlated().free(), cols(&[0]));
    let join = RelExpr::Join {
        left: Box::new(scan("a", &[0, 1])),
        right: Box::new(correlated()),
        predicates: vec![col(1).eq(col(9))],
    };
    assert_eq!(join.free(), cols(&[9]));
    let project = RelExpr::Project { src: Box::new(correlated()), cols: cols(&[2]) };
    assert_eq!(project.free(), cols(&[0]));
    let map = RelExpr::MapCols {
        input: Box::new(scan("x", &[2, 3])),
        exprs: vec![(4, col(2).plus(col(0))), (5, col(4))],
    };
    assert_eq!(map.free(), cols(&[0, 4]));
    let flatmap =
        RelExpr::FlatMap { input: Box::new(scan("a", &[0, 1])), func: Box::new(correlated()) };
    assert_eq!(flatmap.free(), cols(&[]));
    let open = RelExpr::FlatMap { input: Box::new(scan("b", &[7])), func: Box::new(correlated()) };
    assert_eq!(open.free(), cols(&[0]));
}

#[test]
fn has_subquery_of_plans_looks_at_computed_columns() {
    let with = RelExpr::MapCols {
        input: Box::new(scan("a", &[0, 1])),
        exprs: vec![(4, lit(1)), (5, subquery(scan("x", &[2])))],
    };
    assert!(with.has_subquery());
    let without =
        RelExpr::MapCols { input: Box::new(scan("a", &[0, 1])), exprs: vec![(4, lit(1))] };
    assert!(!without.has_subquery());
    assert!(!scan("a", &[0, 1]).has_subquery());
    let in_predicate = RelExpr::Select {
        src: Box::new(scan("a", &[0, 1])),
        predicates: vec![col(0).eq(subquery(scan("x", &[2])))],
    };
    assert!(!in_predicate.has_subquery());
    let nested = RelExpr::Join {
        left: Box::new(scan("a", &[0, 1])),
        right: Box::new(RelExpr::Project { src: Box::new(with), cols: cols(&[5]) }),
        predicates: vec![],
    };
    assert!(nested.has_subquery());
    let inner = RelExpr::FlatMap {
        input: Box::new(scan("a", &[0, 1])),
        func: Box::new(RelExpr::MapCols {
            input: Box::new(scan("x", &[2])),
            exprs: vec![(5, subquery(scan("y", &[3])))],
        }),
    };
    assert!(inner.has_subquery());
}

#[test]
fn identifiers_come_in_order_and_differ() {
    let mut state = State::new();
    let first = state.next();
    let second = state.next();
    let third = state.next();
    assert_eq!((first, second, third), (0, 1, 2));
    assert_eq!(state.peek(), 3);
    let mut other = State::starting_at(40);
    assert_eq!(other.next(), 40);
    assert_eq!(other.next(), 41);
}

#[test]
fn rules_are_off_until_enabled() {
    let mut state = State::new();
    assert!(!state.enabled(Rule::Hoist));
    assert!(!state.enabled(Rule::Decorrelate));
    state.enable(Rule::Hoist);
    assert!(state.enabled(Rule::Hoist));
    assert!(!state.enabled(Rule::Decorrelate));
    state.enable(Rule::Hoist);
    assert!(state.enabled(Rule::Hoist));
    state.enable(Rule::Decorrelate);
    assert!(state.enabled(Rule::Hoist));
    assert!(state.enabled(Rule::Decorrelate));
    assert_eq!(state.next(), 0);
}

#[test]
fn a_clone_is_equal_and_independent() {
    let plan = RelExpr::MapCols {
        input: Box::new(RelExpr::Join {
            left: Box::new(RelExpr::Project {
                src: Box::new(scan("a", &[0, 1])),
                cols: cols(&[0]),
            }),
            right: Box::new(RelExpr::FlatMap {
                input: Box::new(scan("b", &[7])),
                func: Box::new(correlated()),
            }),
            predicates: vec![col(0).eq(col(7))],
        }),
        exprs: vec![(5, lit(4).plus(subquery(correlated()))), (6, col(0))],
    };
    let copy = plan.clone();
    assert_eq!(copy, plan);
    let extended = copy.select(vec![col(5).eq(lit(1))]);
    assert_eq!(extended, RelExpr::Select { src: Box::new(plan), predicates: vec![col(5).eq(lit(1))] });
    let expr = col(1).plus(subquery(scan("x", &[2]))).eq(lit(-3));
    assert_eq!(expr.clone(), expr);
}
