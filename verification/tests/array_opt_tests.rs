use numlang::opt::array_opt::optimize_arrays;
use numlang::parser::parse;
use numlang::token::tokenize;
use numlang::typecheck::typecheck;
use numlang::typecheck::typed_ast::{TypedExpr, TypedLiteral, TypedProgram, TypedStmt};

fn optimized(source: &str) -> TypedProgram {
    let ast = parse(&tokenize(source).unwrap()).unwrap();
    let mut program = typecheck(&ast).unwrap();
    optimize_arrays(&mut program);
    program
}

fn returned_int(program: &TypedProgram) -> Option<i64> {
    let body = &program.functions[0].body;
    match body.stmts.last() {
        Some(TypedStmt::Return(Some(TypedExpr::Literal { lit: TypedLiteral::Int(v, _), .. }), _)) => Some(*v),
        _ => None,
    }
}

#[test]
fn folds_integer_arithmetic() {
    let program = optimized("fn main() -> i64 { return 2 + 3 * 4 - -1; }");
    assert_eq!(returned_int(&program), Some(15));
}

#[test]
fn folding_wraps_around() {
    let program = optimized("fn main() -> i64 { return 9223372036854775807 + 1; }");
    assert_eq!(returned_int(&program), Some(i64::MIN));
}

#[test]
fn division_is_not_folded() {
    let program = optimized("fn main() -> i64 { return 8 / 2; }");
    assert_eq!(returned_int(&program), None);
}

#[test]
fn constant_element_reads_are_replaced_and_folded() {
    let program = optimized(
        "fn main() -> i64 { let a: [i64; 3] = [10, 20, 30]; return a[0] + a[2]; }",
    );
    assert_eq!(returned_int(&program), Some(40));
}

#[test]
fn assigned_elements_are_not_replaced() {
    let program = optimized(
        "fn main() -> i64 { let mut a: [i64; 3] = [10, 20, 30]; a[2] = 5; return a[0] + a[2]; }",
    );
    assert_eq!(returned_int(&program), None);
}

#[test]
fn dot_of_short_arrays_is_written_out() {
    let program = optimized(
        "fn main() -> i64 { let a: [i64; 2] = [1, 2]; let b: [i64; 2] = [3, 4]; return dot(a, b); }",
    );
    assert_eq!(returned_int(&program), Some(11));
}
