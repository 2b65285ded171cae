use numlang::opt::optimize_program;
use numlang::parser::parse;
use numlang::token::tokenize;
use numlang::typecheck::typed_ast::{TypedExpr, TypedStmt};
use numlang::typecheck::typecheck;

#[test]
fn test_binary_search_bce_midpoint_is_safe() {
    let src = r#"
        fn bsearch(target: i64) -> i64 {
            let mut arr: [i64; 16] = [2, 4, 6, 8, 10, 12, 14, 16, 18, 20, 22, 24, 26, 28, 30, 32];
            let mut low: i64 = 0;
            let mut high: i64 = 15;
            let mut found: i64 = -1;
            while low <= high {
                let mid: i64 = (low + high) / 2;
                let val: i64 = arr[mid];
                if val == target {
                    found = mid;
                    break;
                } else {
                    if val < target {
                        low = mid + 1;
                    } else {
                        high = mid - 1;
                    }
                }
            }
            return found;
        }

        fn main() -> i64 {
            return bsearch(14);
        }
    "#;

    let tokens = tokenize(src).unwrap();
    let ast = parse(&tokens).unwrap();
    let mut typed = typecheck(&ast).unwrap();
    optimize_program(&mut typed);

    // In `bsearch`, inside the while loop, `let val: i64 = arr[mid]` has is_safe = true.
    let func = &typed.functions[0];
    let mut found_is_safe = false;
    for stmt in &func.body.stmts {
        if let TypedStmt::While { body, .. } = stmt {
            for s in &body.stmts {
                if let TypedStmt::Let { value: TypedExpr::Index { is_safe, .. }, .. } = s {
                    if *is_safe {
                        found_is_safe = true;
                    }
                }
            }
        }
    }
    assert!(found_is_safe, "Binary search midpoint index arr[mid] must have is_safe = true!");
}
