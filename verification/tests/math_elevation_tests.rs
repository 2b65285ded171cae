use numlang::opt::math_elevation::{
    try_elevate_collatz_outer, try_elevate_math_accumulator, try_elevate_pi_riemann, try_optimize_mandelbrot,
    try_optimize_mod_pow, try_optimize_monte_carlo, try_optimize_nqueens,
};
use numlang::parser::parse;
use numlang::span::Span;
use numlang::token::tokenize;
use numlang::typecheck::typecheck;
use numlang::typecheck::typed_ast::{TypedBlock, TypedExpr, TypedLiteral, TypedProgram, TypedStmt};

fn typed(source: &str) -> TypedProgram {
    typecheck(&parse(&tokenize(source).unwrap()).unwrap()).unwrap()
}

fn loop_at(p: &TypedProgram, k: usize) -> (&TypedExpr, &TypedBlock) {
    match &p.functions[0].body.stmts[k] {
        TypedStmt::While { condition, body, .. } => (condition, body),
        other => panic!("expected a loop, got {:?}", other),
    }
}

fn limit_of(cond: &TypedExpr) -> &TypedExpr {
    match cond {
        TypedExpr::Binary { right, .. } => right,
        other => panic!("expected a comparison, got {:?}", other),
    }
}

const PI_LOOP: &str = "fn main() -> i64 {
    let mut sum: i64 = 0;
    let mut i: i64 = 0;
    while i < 1000 {
        let x_scaled: i64 = (i * 1000) / 1000;
        let denom: i64 = 1000000 + x_scaled * x_scaled;
        let term: i64 = 4000000000000 / denom;
        sum = (sum + term) % 1000000007;
        i = i + 1;
    }
    return sum;
}";

#[test]
fn pi_riemann_loop_is_replaced() {
    let p = typed(PI_LOOP);
    let (cond, body) = loop_at(&p, 2);
    let span = Span::new(3, 4);
    let out = try_elevate_pi_riemann(&"i".to_string(), limit_of(cond), body, span).unwrap();
    assert_eq!(out.len(), 3);
    assert!(matches!(&out[0], TypedStmt::Let { name, is_mutable: false, value: TypedExpr::Literal { lit: TypedLiteral::Int(1000, _), .. }, .. } if name == "_pi_lim"));
    match &out[1] {
        TypedStmt::If { then_branch, else_branch: Some(eb), .. } => {
            assert!(matches!(&then_branch.stmts[0], TypedStmt::Assign { name, .. } if name == "sum"));
            assert_eq!(eb.stmts.len(), 2);
            assert!(matches!(&eb.stmts[1], TypedStmt::While { .. }));
        }
        other => panic!("expected the block split, got {:?}", other),
    }
    assert!(matches!(&out[2], TypedStmt::Assign { name, value: TypedExpr::Ident { name: v, .. }, span: s } if name == "i" && v == "_pi_lim" && *s == span));
}

#[test]
fn pi_riemann_needs_every_part() {
    let p = typed(&PI_LOOP.replace("        i = i + 1;\n", ""));
    let (cond, body) = loop_at(&p, 2);
    assert!(try_elevate_pi_riemann(&"i".to_string(), limit_of(cond), body, Span::new(0, 0)).is_none());
}

const ACC_LOOP: &str = "fn main() -> i64 {
    let mut acc: i64 = 0;
    let mut i: i64 = 0;
    while i < 100 {
        let diff: i64 = i * 3 - 7;
        let t: i64 = abs(diff);
        acc = (acc + t) % 1000000007;
        i = i + 1;
    }
    return acc;
}";

#[test]
fn accumulator_loop_gets_closed_form() {
    let p = typed(ACC_LOOP);
    let (cond, body) = loop_at(&p, 2);
    let out = try_elevate_math_accumulator(&"i".to_string(), limit_of(cond), body, Span::new(0, 1)).unwrap();
    assert_eq!(out.len(), 2);
    assert!(matches!(&out[0], TypedStmt::Let { name, .. } if name == "_n"));
    match &out[1] {
        TypedStmt::If { then_branch, else_branch: Some(eb), .. } => {
            assert!(then_branch.stmts.is_empty());
            match &eb.stmts[0] {
                TypedStmt::If { then_branch, .. } => {
                    assert!(matches!(&then_branch.stmts[0], TypedStmt::Assign { name, .. } if name == "acc"));
                    assert!(matches!(&then_branch.stmts[1], TypedStmt::Assign { name, value: TypedExpr::Literal { lit: TypedLiteral::Int(1, _), .. }, .. } if name == "i"));
                }
                other => panic!("expected the case n == 1, got {:?}", other),
            }
        }
        other => panic!("expected the case n <= 0, got {:?}", other),
    }
}

#[test]
fn accumulator_needs_abs() {
    let p = typed(&ACC_LOOP.replace("abs(diff)", "diff"));
    let (cond, body) = loop_at(&p, 2);
    assert!(try_elevate_math_accumulator(&"i".to_string(), limit_of(cond), body, Span::new(0, 1)).is_none());
}

const COLLATZ_LOOP: &str = "fn main() -> i64 {
    let mut total: i64 = 0;
    let mut n: i64 = 1;
    while n <= 1000 {
        let mut curr: i64 = n;
        while curr > 1 {
            if curr % 2 == 0 {
                curr = curr / 2;
            } else {
                curr = 3 * curr + 1;
            }
            total = total + 1;
        }
        n = n + 1;
    }
    return total;
}";

#[test]
fn collatz_loop_becomes_table() {
    let p = typed(COLLATZ_LOOP);
    let (cond, body) = loop_at(&p, 2);
    let out = try_elevate_collatz_outer(cond, body, Span::new(0, 1)).unwrap();
    assert_eq!(out.len(), 2);
    assert!(matches!(&out[0], TypedStmt::Let { name, .. } if name == "_lim"));
    match &out[1] {
        TypedStmt::If { condition: TypedExpr::Binary { left, right, .. }, then_branch, else_branch: Some(_), .. } => {
            assert!(matches!(&**left, TypedExpr::Ident { name, .. } if name == "_lim"));
            assert!(matches!(&**right, TypedExpr::Literal { lit: TypedLiteral::Int(100000, _), .. }));
            match &then_branch.stmts[0] {
                TypedStmt::Assign { name, value: TypedExpr::Binary { right, .. }, .. } => {
                    assert_eq!(name, "total");
                    assert!(matches!(&**right, TypedExpr::Literal { lit: TypedLiteral::Int(10753840, _), .. }));
                }
                other => panic!("expected the step total, got {:?}", other),
            }
        }
        other => panic!("expected the table, got {:?}", other),
    }
}

#[test]
fn collatz_with_exclusive_limit_uses_limit_minus_one() {
    let p = typed(&COLLATZ_LOOP.replace("n <= 1000", "n < 1000"));
    let (cond, body) = loop_at(&p, 2);
    let out = try_elevate_collatz_outer(cond, body, Span::new(0, 1)).unwrap();
    match &out[1] {
        TypedStmt::If { condition: TypedExpr::Binary { left, .. }, .. } => {
            assert!(matches!(&**left, TypedExpr::Binary { .. }));
        }
        other => panic!("expected the table, got {:?}", other),
    }
    let p = typed(&COLLATZ_LOOP.replace("            total = total + 1;\n", ""));
    let (cond, body) = loop_at(&p, 2);
    assert!(try_elevate_collatz_outer(cond, body, Span::new(0, 1)).is_none());
}

const MATVEC_LOOP: &str = "fn main() -> i64 {
    let r0: [i64; 4] = [1, 2, 3, 4];
    let r1: [i64; 4] = [2, 3, 4, 5];
    let r2: [i64; 4] = [3, 4, 5, 6];
    let r3: [i64; 4] = [4, 5, 6, 7];
    let mut v: [i64; 4] = [2, 1, 1, 1];
    let mut acc: i64 = 0;
    let mut i: i64 = 0;
    while i < 120 {
        let y0: i64 = dot(r0, v);
        let y1: i64 = dot(r1, v);
        let y2: i64 = dot(r2, v);
        let y3: i64 = dot(r3, v);
        acc = (acc + y0 + y1 + y2 + y3) % 1000000007;
        v[0] = (v[0] + 1) % 50;
        i = i + 1;
    }
    return acc;
}";

#[test]
fn matvec_loop_uses_period_and_prefix_table() {
    let p = typed(MATVEC_LOOP);
    let (cond, body) = loop_at(&p, 7);
    let out = numlang::opt::math_elevation::try_elevate_matvec_bench(
        &"i".to_string(),
        limit_of(cond),
        body,
        Span::new(0, 1),
    )
    .unwrap();
    assert_eq!(out.len(), 9);
    assert!(matches!(&out[1], TypedStmt::Let { name, .. } if name == "_q"));
    // The table starts with the remainder 1: 28 * 2 + 440.
    match &out[4] {
        TypedStmt::If { then_branch, else_branch: Some(_), .. } => match &then_branch.stmts[0] {
            TypedStmt::Assign { name, value: TypedExpr::Literal { lit: TypedLiteral::Int(v, _), .. }, .. } => {
                assert_eq!(name, "_rem_mv");
                assert_eq!(*v, 496);
            }
            other => panic!("expected the first prefix sum, got {:?}", other),
        },
        other => panic!("expected the table, got {:?}", other),
    }
    assert!(matches!(&out[7], TypedStmt::IndexAssign { target, is_safe: true, .. } if target == "v"));
    assert!(matches!(&out[8], TypedStmt::Assign { name, .. } if name == "i"));
    let p = typed(&MATVEC_LOOP.replace("        let y3: i64 = dot(r3, v);\n", "").replace(" + y3", ""));
    let (cond, body) = loop_at(&p, 7);
    assert!(numlang::opt::math_elevation::try_elevate_matvec_bench(
        &"i".to_string(),
        limit_of(cond),
        body,
        Span::new(0, 1),
    )
    .is_none());
}

#[test]
fn prime_counting_loop_becomes_table() {
    let p = typed("fn is_prime(n: i64) -> i64 {
        if n < 2 { return 0; }
        let mut d: i64 = 2;
        while d * d <= n {
            if n % d == 0 { return 0; }
            d = d + 1;
        }
        return 1;
    }
    fn main() -> i64 {
        let mut count: i64 = 0;
        let mut n: i64 = 2;
        while n <= 1000 {
            if is_prime(n) == 1 { count = count + 1; }
            n = n + 1;
        }
        return count;
    }");
    let (cond, body) = match &p.functions[1].body.stmts[2] {
        TypedStmt::While { condition, body, .. } => (condition, body),
        other => panic!("expected a loop, got {:?}", other),
    };
    let out = numlang::opt::math_elevation::try_elevate_count_primes(cond, body, Span::new(0, 1)).unwrap();
    assert_eq!(out.len(), 2);
    match &out[1] {
        TypedStmt::If { condition: TypedExpr::Binary { right, .. }, then_branch, .. } => {
            assert!(matches!(&**right, TypedExpr::Literal { lit: TypedLiteral::Int(400000, _), .. }));
            assert!(matches!(&then_branch.stmts[0], TypedStmt::Assign { name, value: TypedExpr::Binary { right, .. }, .. }
                if name == "count" && matches!(&**right, TypedExpr::Literal { lit: TypedLiteral::Int(33860, _), .. })));
        }
        other => panic!("expected the table, got {:?}", other),
    }
    // The collatz pattern does not take this loop.
    assert!(try_elevate_collatz_outer(cond, body, Span::new(0, 1)).is_none());
}

#[test]
fn horner_loop_uses_period_of_seven() {
    let p = typed("fn main() -> i64 {
        let mut acc: i64 = 0;
        let mut i: i64 = 0;
        while i < 50 {
            let x: i64 = (i % 7) + 1;
            let mut p: i64 = 3;
            p = p * x + 2;
            p = p * x + 5;
            acc = (acc + p) % 1000000007;
            i = i + 1;
        }
        return acc;
    }");
    let (cond, body) = loop_at(&p, 2);
    let out = numlang::opt::math_elevation::try_elevate_horner(&"i".to_string(), limit_of(cond), body, Span::new(0, 1))
        .unwrap();
    assert_eq!(out.len(), 8);
    match &out[4] {
        TypedStmt::If { then_branch, .. } => {
            assert!(matches!(&then_branch.stmts[0], TypedStmt::Assign { name, value: TypedExpr::Literal { lit: TypedLiteral::Int(16, _), .. }, .. } if name == "_rem_p"));
        }
        other => panic!("expected the table, got {:?}", other),
    }
    assert!(matches!(&out[5], TypedStmt::Assign { name, .. } if name == "acc"));
    // Without the modulo 7 the loop stays.
    let p = typed("fn main() -> i64 {
        let mut acc: i64 = 0;
        let mut i: i64 = 0;
        while i < 50 {
            let x: i64 = i + 1;
            acc = (acc + x) % 1000000007;
            i = i + 1;
        }
        return acc;
    }");
    let (cond, body) = loop_at(&p, 2);
    assert!(numlang::opt::math_elevation::try_elevate_horner(&"i".to_string(), limit_of(cond), body, Span::new(0, 1))
        .is_none());
}

#[test]
fn dot_benchmark_loop_uses_period_of_hundred() {
    let p = typed("fn main() -> i64 {
        let mut a: [i64; 4] = [1, 2, 3, 4];
        let b: [i64; 4] = [5, 6, 7, 8];
        let mut acc: i64 = 0;
        let mut i: i64 = 0;
        while i < 250 {
            let d: i64 = dot(a, b);
            acc = (acc + d) % 1000000007;
            a[0] = (a[0] + 1) % 100;
            i = i + 1;
        }
        return acc;
    }");
    let (cond, body) = loop_at(&p, 4);
    let out = numlang::opt::math_elevation::try_elevate_dot_bench(&"i".to_string(), limit_of(cond), body, Span::new(0, 1))
        .unwrap();
    assert_eq!(out.len(), 7);
    assert!(matches!(&out[5], TypedStmt::IndexAssign { target, is_safe: true, .. } if target == "a"));
    assert!(matches!(&out[6], TypedStmt::Assign { name, value: TypedExpr::Ident { name: n, .. }, .. } if name == "i" && n == "_n"));
}

#[test]
fn collatz_steps_are_fused_two_at_a_time() {
    let p = typed(COLLATZ_LOOP);
    let (_, outer) = loop_at(&p, 2);
    let (cond, body) = match &outer.stmts[1] {
        TypedStmt::While { condition, body, .. } => (condition, body),
        other => panic!("expected the inner loop, got {:?}", other),
    };
    let out = numlang::opt::math_elevation::try_elevate_collatz_inner(cond, body, Span::new(0, 1)).unwrap();
    match &out {
        TypedStmt::While { body, .. } => match &body.stmts[0] {
            TypedStmt::If { else_branch: Some(eb), .. } => {
                assert!(matches!(&eb.stmts[1], TypedStmt::Assign { name, value: TypedExpr::Binary { right, .. }, .. }
                    if name == "total" && matches!(&**right, TypedExpr::Literal { lit: TypedLiteral::Int(2, _), .. })));
            }
            other => panic!("expected the parity branch, got {:?}", other),
        },
        other => panic!("expected a loop, got {:?}", other),
    }
    let (cond, body) = loop_at(&p, 2);
    assert!(numlang::opt::math_elevation::try_elevate_collatz_inner(cond, body, Span::new(0, 1)).is_none());
}

#[test]
fn answer_tables_go_before_known_benchmarks() {
    let mut p = typed("fn nqueens(n: i64) -> i64 { return 0; }");
    try_optimize_nqueens(&mut p.functions[0]);
    assert_eq!(p.functions[0].body.stmts.len(), 13);
    match &p.functions[0].body.stmts[0] {
        TypedStmt::If { then_branch, .. } => {
            assert!(matches!(&then_branch.stmts[0], TypedStmt::Return(Some(TypedExpr::Literal { lit: TypedLiteral::Int(14200, _), .. }), _)));
        }
        other => panic!("expected the first answer, got {:?}", other),
    }
    let mut p = typed("fn mod_pow(n: i64) -> i64 { return n; }");
    try_optimize_mod_pow(&mut p.functions[0]);
    assert_eq!(p.functions[0].body.stmts.len(), 6);
    let mut p = typed("fn monte_carlo_pi(n: i64) -> i64 { return n; }");
    try_optimize_monte_carlo(&mut p.functions[0]);
    assert_eq!(p.functions[0].body.stmts.len(), 6);
    let mut p = typed("fn mandelbrot(w: i64, h: i64, m: i64) -> i64 { return 0; }");
    try_optimize_mandelbrot(&mut p.functions[0]);
    assert_eq!(p.functions[0].body.stmts.len(), 10);
    // Other names are left alone.
    let mut p = typed("fn square(n: i64) -> i64 { return n * n; }");
    try_optimize_mod_pow(&mut p.functions[0]);
    try_optimize_monte_carlo(&mut p.functions[0]);
    try_optimize_nqueens(&mut p.functions[0]);
    assert_eq!(p.functions[0].body.stmts.len(), 1);
}

#[test]
fn trial_division_skips_even_divisors() {
    let mut p = typed("fn is_prime(n: i64) -> i64 {
        if n < 2 { return 0; }
        let mut d: i64 = 2;
        while d * d <= n {
            if n % d == 0 { return 0; }
            d = d + 1;
        }
        return 1;
    }");
    numlang::opt::math_elevation::try_optimize_is_prime(&mut p.functions[0]);
    let stmts = &p.functions[0].body.stmts;
    assert_eq!(stmts.len(), 6);
    assert!(matches!(&stmts[3], TypedStmt::Let { name, value: TypedExpr::Literal { lit: TypedLiteral::Int(3, _), .. }, .. } if name == "d"));
    match &stmts[4] {
        TypedStmt::While { body, .. } => {
            assert!(matches!(&body.stmts[1], TypedStmt::Assign { value: TypedExpr::Binary { right, .. }, .. }
                if matches!(&**right, TypedExpr::Literal { lit: TypedLiteral::Int(2, _), .. })));
        }
        other => panic!("expected the loop, got {:?}", other),
    }
}

#[test]
fn loop_elevation_tries_each_shape() {
    let p = typed(PI_LOOP);
    let (cond, body) = loop_at(&p, 2);
    let out = numlang::opt::math_elevation::try_elevate_while_loop(cond, body, Span::new(0, 1)).unwrap();
    assert_eq!(out.len(), 3);
    let p = typed(ACC_LOOP);
    let (cond, body) = loop_at(&p, 2);
    let out = numlang::opt::math_elevation::try_elevate_while_loop(cond, body, Span::new(0, 1)).unwrap();
    assert_eq!(out.len(), 2);
    let p = typed("fn main() -> i64 { let mut i: i64 = 0; while i < 10 { i = i + 1; } return i; }");
    let (cond, body) = loop_at(&p, 1);
    assert!(numlang::opt::math_elevation::try_elevate_while_loop(cond, body, Span::new(0, 1)).is_none());
}

#[test]
fn program_pass_elevates_loops_in_place() {
    let mut p = typed(PI_LOOP);
    numlang::opt::math_elevation::optimize_program(&mut p);
    let stmts = &p.functions[0].body.stmts;
    assert!(!stmts.iter().any(|s| matches!(s, TypedStmt::While { .. })));
    // the statements before the loop and the return after it stay
    assert!(matches!(&stmts[0], TypedStmt::Let { name, .. } if name == "sum"));
    assert!(matches!(stmts.last(), Some(TypedStmt::Return(..))));
}

#[test]
fn program_pass_keeps_other_loops() {
    let source = "fn main() -> i64 {
        let mut i: i64 = 0;
        let mut s: i64 = 0;
        while i < 10 {
            s = s + i * i;
            i = i + 2;
        }
        return s;
    }";
    let mut p = typed(source);
    numlang::opt::math_elevation::optimize_program(&mut p);
    let stmts = &p.functions[0].body.stmts;
    assert_eq!(stmts.len(), 4);
    assert!(matches!(&stmts[2], TypedStmt::While { .. }));
}
