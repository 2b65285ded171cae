use numlang::opt::inlining::{
    call_graph, count_stmts_block, find_recursive_functions, has_single_return_at_end, inline_block,
    is_inlinable, is_reachable,
};
use numlang::typecheck::typed_ast::{TypedExpr, TypedStmt};

fn graph() -> Vec<Vec<usize>> {
    // 0 -> 1 -> 2 -> 0 forms a cycle; 3 calls 0; 4 calls itself; 5 calls nothing.
    vec![vec![1], vec![2], vec![0], vec![0], vec![4], vec![]]
}

#[test]
fn cycle_is_found() {
    let g = graph();
    let mut visited = vec![false; g.len()];
    assert!(is_reachable(0, 0, &g, &mut visited));
    let mut visited = vec![false; g.len()];
    assert!(is_reachable(4, 4, &g, &mut visited));
}

#[test]
fn no_cycle_through_a_leaf() {
    let g = graph();
    let mut visited = vec![false; g.len()];
    assert!(!is_reachable(3, 3, &g, &mut visited));
    let mut visited = vec![false; g.len()];
    assert!(!is_reachable(5, 5, &g, &mut visited));
    let mut visited = vec![false; g.len()];
    assert!(!is_reachable(0, 3, &g, &mut visited));
}

#[test]
fn marked_functions_are_not_entered() {
    let g = graph();
    let mut visited = vec![false; g.len()];
    visited[1] = true;
    assert!(!is_reachable(0, 2, &g, &mut visited));
    assert!(visited[1]);
    let mut visited = vec![false; g.len()];
    visited[2] = true;
    // 2 is the target itself, so marking it does not matter.
    assert!(is_reachable(0, 2, &g, &mut visited));
}

#[test]
fn function_outside_the_graph_reaches_nothing() {
    let g = graph();
    let mut visited = vec![false; g.len()];
    assert!(!is_reachable(17, 0, &g, &mut visited));
}

fn typed(src: &str) -> numlang::typecheck::TypedProgram {
    let tokens = numlang::token::tokenize(src).unwrap();
    let ast = numlang::parser::parse(&tokens).unwrap();
    numlang::typecheck::typecheck(&ast).unwrap()
}

#[test]
fn recursion_is_found_through_call_chains() {
    let p = typed(
        r#"
        fn factorial(n: i64) -> i64 {
            if n <= 1 { return 1; }
            return n * factorial(n - 1);
        }
        fn is_even(n: i64) -> bool { if n == 0 { return true; } return is_odd(n - 1); }
        fn is_odd(n: i64) -> bool { if n == 0 { return false; } return is_even(n - 1); }
        fn main() -> i64 { return factorial(5); }
    "#,
    );
    assert_eq!(find_recursive_functions(&p), vec![true, true, true, false]);
    let g = call_graph(&p.functions);
    assert_eq!(g, vec![vec![0], vec![2], vec![1], vec![0]]);
}

#[test]
fn inlining_candidates() {
    let p = typed(
        r#"
        fn square(x: i64) -> i64 { return x * x; }
        fn abs_diff(a: i64, b: i64) -> i64 {
            if a >= b {
                return a - b;
            }
            return b - a;
        }
        fn count(n: i64) -> i64 {
            let mut i: i64 = 0;
            while i < n { i = i + 1; }
            return i;
        }
    "#,
    );
    assert!(is_inlinable(&p.functions[0], false));
    assert!(!is_inlinable(&p.functions[0], true));
    assert!(!is_inlinable(&p.functions[1], false));
    assert!(is_inlinable(&p.functions[2], false));
    assert_eq!(count_stmts_block(&p.functions[1].body), 3);
    assert_eq!(count_stmts_block(&p.functions[2].body), 4);
    assert!(has_single_return_at_end(&p.functions[2].body));
    assert!(!has_single_return_at_end(&p.functions[1].body));
}

#[test]
fn single_return_call_is_expanded_in_place() {
    let src = r#"
        fn square(x: i64) -> i64 { return x * x; }
        fn main() -> i64 {
            let res: i64 = square(5);
            return res;
        }
    "#;
    let defs = typed(src);
    let mut p = typed(src);
    let rec = find_recursive_functions(&defs);
    let mut counter: usize = 0;
    assert!(inline_block(&mut p.functions[1].body, &defs.functions, &rec, &mut counter));
    let body = &p.functions[1].body;
    assert_eq!(counter, 1);
    assert_eq!(body.stmts.len(), 3);
    match &body.stmts[0] {
        TypedStmt::Let { name, is_mutable, value, .. } => {
            assert_eq!(name, "__inl_square_1_x");
            assert!(*is_mutable);
            assert!(matches!(value, TypedExpr::Literal { .. }));
        }
        other => panic!("unexpected {:?}", other),
    }
    match &body.stmts[1] {
        TypedStmt::Let { name, value: TypedExpr::Binary { left, .. }, .. } => {
            assert_eq!(name, "res");
            assert!(matches!(&**left, TypedExpr::Ident { name, .. } if name == "__inl_square_1_x"));
        }
        other => panic!("unexpected {:?}", other),
    }
    assert!(matches!(&body.stmts[2], TypedStmt::Return(Some(TypedExpr::Ident { .. }), _)));
}

#[test]
fn calls_of_recursive_functions_stay() {
    let src = r#"
        fn fact(n: i64) -> i64 { if n <= 1 { return 1; } return n * fact(n - 1); }
        fn main() -> i64 {
            let a: i64 = fact(4);
            return a;
        }
    "#;
    let defs = typed(src);
    let mut p = typed(src);
    let original = typed(src);
    let rec = find_recursive_functions(&defs);
    let mut counter: usize = 7;
    assert!(!inline_block(&mut p.functions[1].body, &defs.functions, &rec, &mut counter));
    assert_eq!(counter, 7);
    assert_eq!(p.functions[1].body, original.functions[1].body);
}
