use numlang::parser::parse;
use numlang::token::tokenize;
use numlang::typecheck::typed_ast::{TypedExpr, TypedStmt};
use numlang::typecheck::typecheck;

#[test]
fn test_constant_index_bce() {
    let src = r#"
        fn main() -> f64 {
            let mut arr: [f64; 5] = [1.0, 2.0, 3.0, 4.0, 5.0];
            arr[2] = 10.0;
            return arr[2];
        }
    "#;

    let tokens = tokenize(src).unwrap();
    let ast = parse(&tokens).unwrap();
    let typed = typecheck(&ast).unwrap();

    let func = &typed.functions[0];
    // Statement 1 is IndexAssign
    match &func.body.stmts[1] {
        TypedStmt::IndexAssign { is_safe, .. } => {
            assert!(is_safe, "Constant index within bounds must have is_safe = true");
        }
        other => panic!("Expected IndexAssign, got {:?}", other),
    }

    // Statement 2 is Return(Some(TypedExpr::Index))
    match &func.body.stmts[2] {
        TypedStmt::Return(Some(TypedExpr::Index { is_safe, .. }), _) => {
            assert!(is_safe, "Constant read index within bounds must have is_safe = true");
        }
        other => panic!("Expected Return with Index, got {:?}", other),
    }
}

#[test]
fn test_loop_induction_variable_bce() {
    let src = r#"
        fn main() {
            let mut arr: [f64; 10] = [0.0, 0.0, 0.0, 0.0, 0.0, 0.0, 0.0, 0.0, 0.0, 0.0];
            let mut i: i64 = 0;
            while i < 10 {
                arr[i] = 42.0;
                let v: f64 = arr[i];
                i = i + 1;
            }
        }
    "#;

    let tokens = tokenize(src).unwrap();
    let ast = parse(&tokens).unwrap();
    let typed = typecheck(&ast).unwrap();

    let func = &typed.functions[0];
    // Statement 2 is While loop
    match &func.body.stmts[2] {
        TypedStmt::While { body, .. } => {
            // body stmt 0 is arr[i] = 42.0
            match &body.stmts[0] {
                TypedStmt::IndexAssign { is_safe, .. } => {
                    assert!(is_safe, "Loop induction index arr[i] within bound 10 must be is_safe = true");
                }
                other => panic!("Expected IndexAssign, got {:?}", other),
            }

            // body stmt 1 is let v = arr[i]
            match &body.stmts[1] {
                TypedStmt::Let { value, .. } => match value {
                    TypedExpr::Index { is_safe, .. } => {
                        assert!(is_safe, "Loop induction read arr[i] within bound 10 must be is_safe = true");
                    }
                    other => panic!("Expected Index expr, got {:?}", other),
                },
                other => panic!("Expected Let stmt, got {:?}", other),
            }
        }
        other => panic!("Expected While stmt, got {:?}", other),
    }
}

#[test]
fn test_unbounded_index_retains_checks() {
    let src = r#"
        fn main() {
            let mut arr: [f64; 10] = [0.0, 0.0, 0.0, 0.0, 0.0, 0.0, 0.0, 0.0, 0.0, 0.0];
            let mut i: i64 = 0;
            while i < 20 {
                arr[i] = 42.0;
                i = i + 1;
            }
        }
    "#;

    let tokens = tokenize(src).unwrap();
    let ast = parse(&tokens).unwrap();
    let typed = typecheck(&ast).unwrap();

    let func = &typed.functions[0];
    match &func.body.stmts[2] {
        TypedStmt::While { body, .. } => {
            match &body.stmts[0] {
                TypedStmt::IndexAssign { is_safe, .. } => {
                    assert!(!is_safe, "Loop induction bound 20 exceeding array length 10 must NOT be is_safe");
                }
                other => panic!("Expected IndexAssign, got {:?}", other),
            }
        }
        other => panic!("Expected While stmt, got {:?}", other),
    }
}

fn returned_index_is_safe(src: &str) -> bool {
    let typed = typecheck(&parse(&tokenize(src).unwrap()).unwrap()).unwrap();
    let stmts = &typed.functions[0].body.stmts;
    match stmts.last().unwrap() {
        TypedStmt::Return(Some(TypedExpr::Index { is_safe, .. }), _) => *is_safe,
        other => panic!("Expected Return with Index, got {:?}", other),
    }
}

#[test]
fn remainder_of_possibly_negative_value_keeps_its_check() {
    // `x % 3` is in [-2, 2] when nothing is known of the sign of `x`.
    assert!(!returned_index_is_safe(
        "fn f(x: i64) -> f64 { let arr: [f64; 3] = [1.0, 2.0, 3.0]; return arr[x % 3]; }"
    ));
}

#[test]
fn remainder_of_non_negative_value_is_in_bounds() {
    assert!(returned_index_is_safe(
        "fn f() -> f64 { let arr: [f64; 3] = [1.0, 2.0, 3.0]; let i: i64 = 7; return arr[i % 3]; }"
    ));
}
