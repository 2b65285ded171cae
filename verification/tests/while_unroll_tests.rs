use numlang::opt::optimize_program;
use numlang::opt::while_unroll;
use numlang::parser::parse;
use numlang::token::tokenize;
use numlang::typecheck::typecheck;
use numlang::typecheck::typed_ast::{TypedExpr, TypedLiteral, TypedProgram, TypedStmt};

fn optimized(source: &str) -> TypedProgram {
    let ast = parse(&tokenize(source).unwrap()).unwrap();
    let mut program = typecheck(&ast).unwrap();
    optimize_program(&mut program);
    program
}

fn unrolled(source: &str) -> TypedProgram {
    let ast = parse(&tokenize(source).unwrap()).unwrap();
    let mut program = typecheck(&ast).unwrap();
    while_unroll::optimize_program(&mut program);
    program
}

fn body_of<'a>(program: &'a TypedProgram, name: &str) -> &'a Vec<TypedStmt> {
    &program.functions.iter().find(|f| f.name == name).unwrap().body.stmts
}

fn has_while(stmts: &[TypedStmt]) -> bool {
    stmts.iter().any(|s| matches!(s, TypedStmt::While { .. }))
}

fn returns_int(stmts: &[TypedStmt]) -> Option<i64> {
    match stmts.last() {
        Some(TypedStmt::Return(Some(TypedExpr::Literal { lit: TypedLiteral::Int(v, _), .. }), _)) => Some(*v),
        _ => None,
    }
}

#[test]
fn test_bounded_while_div2_unrolling() {
    let source = r#"
        fn exp_steps() -> i64 {
            let mut e: i64 = 13;
            let mut acc: i64 = 0;
            while e > 0 {
                acc = acc + (e & 1);
                e = e / 2;
            }
            return acc;
        }
        fn main() -> i64 {
            return exp_steps();
        }
    "#;
    let program = optimized(source);
    let stmts = body_of(&program, "exp_steps");
    assert!(!has_while(stmts), "Expected while loop to be completely unrolled");
}

#[test]
fn test_nested_matrix_loop_unrolling() {
    let source = r#"
        fn mat_dot() -> i64 {
            let a: [i64; 4] = [1, 2, 3, 4];
            let b: [i64; 4] = [5, 6, 7, 8];
            let mut sum: i64 = 0;
            let mut k: i64 = 0;
            while k < 4 {
                sum = sum + a[k] * b[k];
                k = k + 1;
            }
            return sum;
        }
        fn main() -> i64 {
            return mat_dot();
        }
    "#;
    let program = optimized(source);
    let stmts = body_of(&program, "mat_dot");
    assert!(!has_while(stmts), "Expected loop k < 4 to be unrolled");
}

#[test]
fn test_dead_branch_elimination_in_unrolled_loop() {
    let source = r#"
        fn dead_branch_test() -> i64 {
            let mut e: i64 = 4;
            let mut res: i64 = 0;
            while e > 0 {
                if e % 2 == 1 {
                    res = res + 100;
                } else {
                    res = res + 1;
                }
                e = e / 2;
            }
            return res;
        }
        fn main() -> i64 {
            return dead_branch_test();
        }
    "#;
    let program = optimized(source);
    let stmts = body_of(&program, "dead_branch_test");
    let has_if = stmts.iter().any(|s| matches!(s, TypedStmt::If { .. }));
    assert!(!has_while(stmts), "Expected while loop to be unrolled");
    assert!(!has_if, "Expected all branches with constant conditions to be eliminated");
}

#[test]
fn unrolled_sum_folds_to_its_value() {
    let source = r#"
        fn sum4() -> i64 {
            let mut i: i64 = 0;
            let mut acc: i64 = 0;
            while i < 4 {
                acc = acc + i;
                i = i + 1;
            }
            return acc;
        }
    "#;
    let program = unrolled(source);
    let stmts = body_of(&program, "sum4");
    assert!(!has_while(stmts));
    assert_eq!(returns_int(stmts), Some(6));
    // two lets, one assignment of `acc` per iteration, the return
    assert_eq!(stmts.len(), 7);
}

#[test]
fn dead_branch_result_is_known() {
    let source = r#"
        fn f() -> i64 {
            let mut e: i64 = 4;
            let mut res: i64 = 0;
            while e > 0 {
                if e % 2 == 1 {
                    res = res + 100;
                } else {
                    res = res + 1;
                }
                e = e / 2;
            }
            return res;
        }
    "#;
    let program = unrolled(source);
    // e = 4, 2, 1: two even steps, one odd
    assert_eq!(returns_int(body_of(&program, "f")), Some(102));
}

#[test]
fn loop_with_unknown_start_stays() {
    let source = r#"
        fn f(n: i64) -> i64 {
            let mut i: i64 = n;
            let mut acc: i64 = 0;
            while i < 4 {
                acc = acc + i;
                i = i + 1;
            }
            return acc;
        }
    "#;
    let program = unrolled(source);
    assert!(has_while(body_of(&program, "f")));
}

#[test]
fn sixteen_iterations_unroll_seventeen_do_not() {
    let sixteen = r#"
        fn f() -> i64 {
            let mut i: i64 = 0;
            let mut acc: i64 = 0;
            while i < 16 {
                acc = acc + i;
                i = i + 1;
            }
            return acc;
        }
    "#;
    let program = unrolled(sixteen);
    let stmts = body_of(&program, "f");
    assert!(!has_while(stmts));
    assert_eq!(returns_int(stmts), Some(120));

    let seventeen = r#"
        fn f() -> i64 {
            let mut i: i64 = 0;
            let mut acc: i64 = 0;
            while i < 17 {
                acc = acc + i;
                i = i + 1;
            }
            return acc;
        }
    "#;
    let program = unrolled(seventeen);
    assert!(has_while(body_of(&program, "f")));
}

#[test]
fn counter_read_after_loop_gets_its_final_value() {
    let source = r#"
        fn f() -> i64 {
            let mut i: i64 = 1;
            while i < 100 {
                i = i * 2;
            }
            return i;
        }
    "#;
    let program = unrolled(source);
    let stmts = body_of(&program, "f");
    // the step `i * 2` is not one of the unrolled steps: the loop stays
    assert!(has_while(stmts));

    let source = r#"
        fn g() -> i64 {
            let mut i: i64 = 0;
            while i < 10 {
                i = i + 3;
            }
            return i;
        }
    "#;
    let program = unrolled(source);
    let stmts = body_of(&program, "g");
    assert!(!has_while(stmts));
    assert_eq!(returns_int(stmts), Some(12));
}

#[test]
fn loop_with_break_stays() {
    let source = r#"
        fn f() -> i64 {
            let mut i: i64 = 0;
            let mut acc: i64 = 0;
            while i < 4 {
                if acc > 2 {
                    break;
                }
                acc = acc + i;
                i = i + 1;
            }
            return acc;
        }
    "#;
    let program = unrolled(source);
    assert!(has_while(body_of(&program, "f")));
}
