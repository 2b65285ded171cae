use numlang::ir::format_ir;
use numlang::ir::lower::lower_to_ir;
use numlang::parser::parse;
use numlang::token::tokenize;
use numlang::typecheck::{typecheck, TypeError};

#[test]
fn test_bitwise_typecheck_rejection_for_floats() {
    let cases = [
        "fn test_and() { let x = 1.5 & 2.5; }",
        "fn test_or() { let x = 1.0 | 2.0; }",
        "fn test_xor() { let x = 1.0 ^ 2.0; }",
        "fn test_shl() { let x = 1.0 << 2; }",
        "fn test_shr() { let x = 1.0 >> 2; }",
    ];

    for src in cases {
        let tokens = tokenize(src).unwrap();
        let ast = parse(&tokens).unwrap();
        let res = typecheck(&ast);
        assert!(
            matches!(res, Err(TypeError::InvalidBinaryOperands { .. })),
            "Expected InvalidBinaryOperands for: {}",
            src
        );
    }
}

#[test]
fn test_bitwise_ir_lowering() {
    let src = r#"
        fn bit_ops(a: i64, b: i64) -> i64 {
            let x: i64 = a & b;
            let y: i64 = a | b;
            let z: i64 = a ^ b;
            let s1: i64 = a << 2;
            let s2: i64 = a >> 1;
            return x + y + z + s1 + s2;
        }
    "#;

    let tokens = tokenize(src).unwrap();
    let ast = parse(&tokens).unwrap();
    let typed = typecheck(&ast).unwrap();
    let ir = lower_to_ir(&typed);

    let formatted = format_ir(&ir);
    assert!(formatted.contains("i64.band"));
    assert!(formatted.contains("i64.bor"));
    assert!(formatted.contains("i64.bxor"));
    assert!(formatted.contains("i64.shl"));
    assert!(formatted.contains("i64.shr"));
}
