use numlang::parser::parse;
use numlang::token::tokenize;
use numlang::typecheck::{typecheck, Type, TypeError};

#[test]
fn test_typecheck_valid_program() {
    let src = r#"
        fn add(a: f64, b: f64) -> f64 {
            let sum = a + b;
            return sum;
        }

        fn main() {
            let mut x: f64 = 10.5;
            x = add(x, 2.5);
        }
    "#;

    let tokens = tokenize(src).unwrap();
    let ast = parse(&tokens).unwrap();
    let typed = typecheck(&ast).unwrap();

    assert_eq!(typed.functions.len(), 2);
    assert_eq!(typed.functions[0].return_ty, Type::F64);
    assert_eq!(typed.functions[1].return_ty, Type::Void);
}

#[test]
fn test_strict_rejection_of_mixed_arithmetic() {
    let src = r#"
        fn mixed() {
            let a: f64 = 10.5;
            let b: i64 = 5;
            let c = a + b;
        }
    "#;

    let tokens = tokenize(src).unwrap();
    let ast = parse(&tokens).unwrap();
    let res = typecheck(&ast);

    match res {
        Err(TypeError::InvalidBinaryOperands { left, right, .. }) => {
            assert_eq!(left, Type::F64);
            assert_eq!(right, Type::I64);
        }
        _ => panic!("Expected InvalidBinaryOperands error, got {:?}", res),
    }
}

#[test]
fn test_immutability_enforcement() {
    let src = r#"
        fn mutate_immutable() {
            let x = 42;
            x = 100;
        }
    "#;

    let tokens = tokenize(src).unwrap();
    let ast = parse(&tokens).unwrap();
    let res = typecheck(&ast);

    match res {
        Err(TypeError::CannotMutateImmutable { name, .. }) => {
            assert_eq!(name, "x");
        }
        _ => panic!("Expected CannotMutateImmutable error, got {:?}", res),
    }
}

#[test]
fn test_mutability_success() {
    let src = r#"
        fn mutate_mutable() {
            let mut x: i64 = 42;
            x = 100;
        }
    "#;

    let tokens = tokenize(src).unwrap();
    let ast = parse(&tokens).unwrap();
    assert!(typecheck(&ast).is_ok());
}

#[test]
fn test_undeclared_variable() {
    let src = r#"
        fn bad_var() {
            let y = x + 1;
        }
    "#;

    let tokens = tokenize(src).unwrap();
    let ast = parse(&tokens).unwrap();
    let res = typecheck(&ast);

    match res {
        Err(TypeError::UndeclaredVariable { name, .. }) => {
            assert_eq!(name, "x");
        }
        _ => panic!("Expected UndeclaredVariable error, got {:?}", res),
    }
}

#[test]
fn test_block_scoping_and_shadowing() {
    let src = r#"
        fn scoping() {
            let x: i64 = 10;
            if true {
                let x: f64 = 3.14;
                let y = x + 1.0;
            }
            let z = x + 5;
        }
    "#;

    let tokens = tokenize(src).unwrap();
    let ast = parse(&tokens).unwrap();
    assert!(typecheck(&ast).is_ok());
}

#[test]
fn test_function_arity_mismatch() {
    let src = r#"
        fn calc(a: i64, b: i64) -> i64 {
            return a + b;
        }

        fn run() {
            let res = calc(10);
        }
    "#;

    let tokens = tokenize(src).unwrap();
    let ast = parse(&tokens).unwrap();
    let res = typecheck(&ast);

    match res {
        Err(TypeError::ArityMismatch { name, expected, found, .. }) => {
            assert_eq!(name, "calc");
            assert_eq!(expected, 2);
            assert_eq!(found, 1);
        }
        _ => panic!("Expected ArityMismatch error, got {:?}", res),
    }
}

#[test]
fn test_function_return_mismatch() {
    let src = r#"
        fn get_int() -> i64 {
            return 3.14;
        }
    "#;

    let tokens = tokenize(src).unwrap();
    let ast = parse(&tokens).unwrap();
    let res = typecheck(&ast);

    match res {
        Err(TypeError::InvalidReturn { expected, found, .. }) => {
            assert_eq!(expected, Type::I64);
            assert_eq!(found, Type::F64);
        }
        _ => panic!("Expected InvalidReturn error, got {:?}", res),
    }
}

#[test]
fn test_condition_must_be_bool() {
    let src = r#"
        fn loop_bad() {
            while 42 {
                let x = 1;
            }
        }
    "#;

    let tokens = tokenize(src).unwrap();
    let ast = parse(&tokens).unwrap();
    let res = typecheck(&ast);

    match res {
        Err(TypeError::InvalidConditionType { found, .. }) => {
            assert_eq!(found, Type::I64);
        }
        _ => panic!("Expected InvalidConditionType error, got {:?}", res),
    }
}

fn check(src: &str) -> Result<numlang::typecheck::TypedProgram, TypeError> {
    let tokens = tokenize(src).unwrap();
    let ast = parse(&tokens).unwrap();
    typecheck(&ast)
}

#[test]
fn first_error_in_order_is_reported() {
    // Two errors: the undeclared variable comes first in the body.
    let err = check("fn f() { let a: i64 = q; let b: i64 = true; }").unwrap_err();
    assert_eq!(
        err,
        TypeError::UndeclaredVariable { name: "q".to_string(), span: numlang::span::Span { start: 22, end: 23 } }
    );
}

#[test]
fn signature_errors_come_before_body_errors() {
    let err = check("fn f() { let a: i64 = q; } fn g(x: int) { }").unwrap_err();
    assert_eq!(
        err,
        TypeError::UnknownType { name: "int".to_string(), span: numlang::span::Span { start: 32, end: 33 } }
    );
}

#[test]
fn let_type_mismatch_reports_value_span() {
    let err = check("fn f() { let a: i64 = true; }").unwrap_err();
    assert_eq!(
        err,
        TypeError::TypeMismatch {
            expected: Type::I64,
            found: Type::Bool,
            span: numlang::span::Span { start: 22, end: 26 },
        }
    );
}

#[test]
fn duplicate_function_and_parameter_names() {
    let err = check("fn f() { } fn f() { }").unwrap_err();
    assert!(matches!(err, TypeError::DuplicateDeclaration { ref name, .. } if name == "f"));
    let err = check("fn g(a: i64, a: i64) { }").unwrap_err();
    assert!(matches!(err, TypeError::DuplicateDeclaration { ref name, .. } if name == "a"));
}

#[test]
fn array_errors() {
    let err = check("fn f() { let a: [i64; 2] = [1, true]; }").unwrap_err();
    assert!(matches!(err, TypeError::ArrayElementMismatch { expected: Type::I64, found: Type::Bool, .. }));
    let err = check("fn f() { let a: [i64; 2] = [1, 2]; let b: i64 = a[5]; }").unwrap_err();
    assert!(matches!(err, TypeError::IndexOutOfBounds { index: 5, len: 2, .. }));
    let err = check("fn f() { let b: i64 = 3; let c: i64 = b[0]; }").unwrap_err();
    assert!(matches!(err, TypeError::CannotIndexNonArray { found: Type::I64, .. }));
}

#[test]
fn call_and_break_errors() {
    let err = check("fn f() { nope(1); }").unwrap_err();
    assert!(matches!(err, TypeError::UndeclaredFunction { ref name, .. } if name == "nope"));
    let err = check("fn g(a: i64) -> i64 { return a; } fn f() { g(true); }").unwrap_err();
    assert!(matches!(err, TypeError::TypeMismatch { expected: Type::I64, found: Type::Bool, .. }));
    let err = check("fn f() { break; }").unwrap_err();
    assert!(matches!(err, TypeError::BreakOutsideLoop { .. }));
}
