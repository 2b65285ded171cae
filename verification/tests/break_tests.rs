use numlang::parser::parse;
use numlang::token::tokenize;
use numlang::typecheck::{typecheck, TypeError};

#[test]
fn rejects_break_outside_loop() {
    let source = "fn main() { break; }";
    let program = parse(&tokenize(source).unwrap()).unwrap();
    assert!(matches!(
        typecheck(&program),
        Err(TypeError::BreakOutsideLoop { .. })
    ));
}
