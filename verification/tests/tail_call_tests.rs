use numlang::opt::recursion::try_lower_tail_calls;
use numlang::parser::parse;
use numlang::token::tokenize;
use numlang::typecheck::typecheck;
use numlang::typecheck::typed_ast::{TypedExpr, TypedLiteral, TypedProgram, TypedStmt};

fn typed(source: &str) -> TypedProgram {
    let ast = parse(&tokenize(source).unwrap()).unwrap();
    typecheck(&ast).unwrap()
}

#[test]
fn self_tail_call_becomes_a_loop() {
    let program = typed(
        "fn gcd(a: i64, b: i64) -> i64 { if b == 0 { return a; } return gcd(b, a % b); }",
    );
    let block = try_lower_tail_calls(&program.functions[0]).unwrap();
    assert_eq!(block.stmts.len(), 4);
    match &block.stmts[0] {
        TypedStmt::Let { name, is_mutable, value, .. } => {
            assert_eq!(name, "__tco_p_gcd_a");
            assert!(*is_mutable);
            assert!(matches!(value, TypedExpr::Ident { name, .. } if name == "a"));
        }
        _ => panic!("expected the shadow of the first parameter"),
    }
    assert!(matches!(&block.stmts[1], TypedStmt::Let { name, .. } if name == "__tco_p_gcd_b"));
    match &block.stmts[2] {
        TypedStmt::While { condition, body, .. } => {
            assert!(matches!(condition, TypedExpr::Literal { lit: TypedLiteral::Bool(true), .. }));
            // if, two temporaries, two shadow updates
            assert_eq!(body.stmts.len(), 5);
            match &body.stmts[0] {
                TypedStmt::If { condition, .. } => {
                    assert!(matches!(condition, TypedExpr::Binary { left, .. }
                        if matches!(&**left, TypedExpr::Ident { name, .. } if name == "__tco_p_gcd_b")));
                }
                _ => panic!("expected the base case"),
            }
            assert!(matches!(&body.stmts[1], TypedStmt::Let { name, .. } if name.starts_with("__tco_arg_0_")));
            assert!(matches!(&body.stmts[2], TypedStmt::Let { name, .. } if name.starts_with("__tco_arg_1_")));
            assert!(matches!(&body.stmts[3], TypedStmt::Assign { name, .. } if name == "__tco_p_gcd_a"));
            assert!(matches!(&body.stmts[4], TypedStmt::Assign { name, .. } if name == "__tco_p_gcd_b"));
        }
        _ => panic!("expected the loop"),
    }
    assert!(matches!(&block.stmts[3],
        TypedStmt::Return(Some(TypedExpr::Ident { name, .. }), _) if name == "__tco_p_gcd_a"));
}

#[test]
fn function_without_tail_call_is_not_lowered() {
    let program = typed("fn inc(a: i64) -> i64 { return a + 1; }");
    assert!(try_lower_tail_calls(&program.functions[0]).is_none());
}

#[test]
fn function_without_parameters_is_not_lowered() {
    let program = typed("fn spin() -> i64 { return spin(); }");
    assert!(try_lower_tail_calls(&program.functions[0]).is_none());
}

#[test]
fn shadowing_let_is_not_renamed() {
    let program = typed(
        "fn f(n: i64) -> i64 { if n > 0 { let n: i64 = 3; return f(n); } else { return 0; } }",
    );
    let block = try_lower_tail_calls(&program.functions[0]).unwrap();
    match &block.stmts[1] {
        TypedStmt::While { body, .. } => match &body.stmts[0] {
            TypedStmt::If { condition, then_branch, .. } => {
                assert!(matches!(condition, TypedExpr::Binary { left, .. }
                    if matches!(&**left, TypedExpr::Ident { name, .. } if name == "__tco_p_f_n")));
                match &then_branch.stmts[1] {
                    TypedStmt::Let { value, .. } => {
                        assert!(matches!(value, TypedExpr::Ident { name, .. } if name == "n"));
                    }
                    _ => panic!("expected the temporary of the argument"),
                }
                assert!(matches!(&then_branch.stmts[2], TypedStmt::Assign { name, .. } if name == "__tco_p_f_n"));
            }
            _ => panic!("expected the branch"),
        },
        _ => panic!("expected the loop"),
    }
}

#[test]
fn fibonacci_recurrence_becomes_a_loop() {
    let program = typed(
        "fn fib(n: i64) -> i64 { if n <= 1 { return n; } else { return fib(n - 1) + fib(n - 2); } }",
    );
    let block = numlang::opt::recursion::try_lower_binary_recurrence_tree(&program.functions[0]).unwrap();
    assert_eq!(block.stmts.len(), 4);
    assert!(matches!(&block.stmts[0], TypedStmt::Let { name, value: TypedExpr::Ident { name: p, .. }, .. }
        if name == "__rec_cur_n" && p == "n"));
    assert!(matches!(&block.stmts[1], TypedStmt::Let { name, value: TypedExpr::Literal { lit: TypedLiteral::Int(0, _), .. }, .. }
        if name == "__rec_sum_n"));
    match &block.stmts[2] {
        TypedStmt::While { body, .. } => {
            assert_eq!(body.stmts.len(), 2);
            match &body.stmts[0] {
                TypedStmt::Assign { name, value: TypedExpr::Binary { right, .. }, .. } => {
                    assert_eq!(name, "__rec_sum_n");
                    assert!(matches!(&**right, TypedExpr::Call { callee, args, .. } if callee == "fib" && args.len() == 1));
                }
                _ => panic!("expected the accumulation"),
            }
        }
        _ => panic!("expected the loop"),
    }
    assert!(matches!(&block.stmts[3], TypedStmt::Return(Some(TypedExpr::Binary { .. }), _)));
}

#[test]
fn other_shapes_are_not_recurrences() {
    let program = typed(
        "fn fib(n: i64) -> i64 { if n <= 1 { return n; } else { return fib(n - 1) + fib(n - 3); } }",
    );
    assert!(numlang::opt::recursion::try_lower_binary_recurrence_tree(&program.functions[0]).is_none());
    let program = typed("fn f(n: i32) -> i32 { if n <= 1 { return n; } else { return f(n - 1) + f(n - 2); } }");
    assert!(numlang::opt::recursion::try_lower_binary_recurrence_tree(&program.functions[0]).is_none());
}
