//! What the statements that replace a loop compute: a small evaluator of
//! straight-line statements over integer variables, and the proof that the
//! closed form of the polynomial benchmark loop gives the accumulator the
//! loop would.

use vstd::prelude::*;
use vstd::arithmetic::div_mod::{
    lemma_add_mod_noop, lemma_add_mod_noop_right, lemma_fundamental_div_mod, lemma_fundamental_div_mod_converse,
    lemma_mul_mod_noop_left, lemma_small_mod,
};
use crate::ast::BinaryOp;
use crate::opt::math_elevation::{bin_v, horner_chain, horner_form, horner_prefix, lit_v, var_v};
use crate::opt::range::trunc_div;
use crate::opt::tree_view::{ExprV, LitV, StmtV};
use crate::span::Span;

verus! {

/// The integer value of `e` where the variables have the values of `env`:
/// integer and boolean literals (1 and 0), names, `+ - *`, division and
/// remainder rounding toward zero, comparisons as 1 or 0; `None` for any
/// other expression, an unbound name or a division by zero.
pub open spec fn run_expr(e: ExprV, env: Map<Seq<char>, int>) -> Option<int>
    decreases e,
{
    match e {
        ExprV::Literal { lit: LitV::Int(v, _), .. } => Some(v as int),
        ExprV::Literal { lit: LitV::Bool(b), .. } => Some(if b { 1 } else { 0 }),
        ExprV::Ident { name, .. } => if env.contains_key(name) {
            Some(env[name])
        } else {
            None
        },
        ExprV::Binary { op, left, right, .. } => match (run_expr(*left, env), run_expr(*right, env)) {
            (Some(a), Some(b)) => match op {
                BinaryOp::Add => Some(a + b),
                BinaryOp::Sub => Some(a - b),
                BinaryOp::Mul => Some(a * b),
                BinaryOp::Div => if b != 0 {
                    Some(trunc_div(a, b))
                } else {
                    None
                },
                BinaryOp::Mod => if b != 0 {
                    Some(a - b * trunc_div(a, b))
                } else {
                    None
                },
                BinaryOp::Eq => Some(if a == b { 1 } else { 0 }),
                BinaryOp::Ne => Some(if a != b { 1 } else { 0 }),
                BinaryOp::Lt => Some(if a < b { 1 } else { 0 }),
                BinaryOp::Le => Some(if a <= b { 1 } else { 0 }),
                BinaryOp::Gt => Some(if a > b { 1 } else { 0 }),
                BinaryOp::Ge => Some(if a >= b { 1 } else { 0 }),
                _ => None,
            },
            _ => None,
        },
        _ => None,
    }
}

/// The variables after running `ss[i..]` from `env`: a `let` or an
/// assignment binds the value of its expression, an `if` runs the branch
/// that its condition picks; `None` where a value does not evaluate and for
/// any other statement.
pub open spec fn run_from(ss: Seq<StmtV>, i: int, env: Map<Seq<char>, int>) -> Option<Map<Seq<char>, int>>
    decreases ss, ss.len() - i,
{
    if i < 0 || i >= ss.len() {
        Some(env)
    } else {
        match run_stmt(ss[i], env) {
            Some(e2) => run_from(ss, i + 1, e2),
            None => None,
        }
    }
}

/// The variables after running one statement (see `run_from`).
pub open spec fn run_stmt(s: StmtV, env: Map<Seq<char>, int>) -> Option<Map<Seq<char>, int>>
    decreases s, 0int,
{
    match s {
        StmtV::Let { name, value, .. } => match run_expr(value, env) {
            Some(v) => Some(env.insert(name, v)),
            None => None,
        },
        StmtV::Assign { name, value, .. } => match run_expr(value, env) {
            Some(v) => Some(env.insert(name, v)),
            None => None,
        },
        StmtV::If { condition, then_branch, else_branch, .. } => match run_expr(condition, env) {
            Some(c) => if c != 0 {
                run_from(then_branch.stmts, 0, env)
            } else {
                match else_branch {
                    Some(b) => run_from(b.stmts, 0, env),
                    None => Some(env),
                }
            },
            None => None,
        },
        _ => None,
    }
}

/// The modulus of the benchmark's accumulator.
pub open spec fn modulus() -> int {
    1000000007
}

/// The benchmark's polynomial `8x^7 - x^6 + 6x^5 - 4x^4 + 7x^3 + 2x^2 - 5x + 3`,
/// by Horner's rule.
pub open spec fn horner_poly(x: int) -> int {
    ((((((8 * x - 1) * x + 6) * x - 4) * x + 7) * x + 2) * x - 5) * x + 3
}

/// The accumulator after `n` iterations of the benchmark loop, from `acc`:
/// iteration `k` sets `acc = (acc + p((k % 7) + 1)) % 1000000007`.
pub open spec fn horner_loop(acc: int, n: nat) -> int
    decreases n,
{
    if n == 0 {
        acc
    } else {
        (horner_loop(acc, (n - 1) as nat) + horner_poly(((n - 1) % 7 + 1) as int)) % modulus()
    }
}

/// The sum of the terms that `n` iterations add.
pub open spec fn horner_sum(n: nat) -> int
    decreases n,
{
    if n == 0 {
        0
    } else {
        horner_sum((n - 1) as nat) + horner_poly(((n - 1) % 7 + 1) as int)
    }
}

proof fn lemma_poly_values(x: int)
    requires
        1 <= x <= 7,
    ensures
        16 <= horner_poly(x) <= 6564400,
        x <= 6 ==> horner_prefix(x as nat) == horner_prefix((x - 1) as nat) + horner_poly(x),
        x == 7 ==> horner_prefix(6) + horner_poly(7) == 9578605,
{
    if x == 1 {
        assert(horner_poly(1) == 16);
    } else if x == 2 {
        assert(horner_poly(2) == 1145);
    } else if x == 3 {
        assert(horner_poly(3) == 18096);
    } else if x == 4 {
        assert(horner_poly(4) == 132559);
    } else if x == 5 {
        assert(horner_poly(5) == 626528);
    } else if x == 6 {
        assert(8 * 6 - 1 == 47);
        assert(47 * 6 + 6 == 288);
        assert(288 * 6 - 4 == 1724);
        assert(1724 * 6 + 7 == 10351);
        assert(10351 * 6 + 2 == 62108);
        assert(62108 * 6 - 5 == 372643);
        assert(372643 * 6 + 3 == 2235861);
        assert(horner_poly(6) == 2235861);
    } else {
        assert(horner_poly(7) == 6564400);
    }
}

/// The terms of `n` iterations: the whole periods of seven, and the first
/// `n % 7` terms of a period.
proof fn lemma_horner_sum(n: nat)
    ensures
        horner_sum(n) == (n / 7) as int * 9578605 + horner_prefix(n % 7),
    decreases n,
{
    if n > 0 {
        let m = (n - 1) as nat;
        lemma_horner_sum(m);
        lemma_fundamental_div_mod(m as int, 7);
        let q = (m / 7) as int;
        let r = (m % 7) as int;
        lemma_poly_values(r + 1);
        if r < 6 {
            lemma_fundamental_div_mod_converse(n as int, 7, q, r + 1);
        } else {
            lemma_fundamental_div_mod_converse(n as int, 7, q + 1, 0);
        }
    } else {
        assert(horner_prefix(0) == 0);
    }
}

/// Running the loop adds its terms modulo the modulus.
proof fn lemma_horner_loop(acc: int, n: nat)
    requires
        0 <= acc < modulus(),
    ensures
        horner_loop(acc, n) == (acc + horner_sum(n)) % modulus(),
        horner_sum(n) >= 0,
    decreases n,
{
    if n == 0 {
        lemma_small_mod(acc as nat, modulus() as nat);
    } else {
        let m = (n - 1) as nat;
        lemma_horner_loop(acc, m);
        let p = horner_poly((m % 7 + 1) as int);
        lemma_poly_values((m % 7 + 1) as int);
        lemma_small_mod(p as nat, modulus() as nat);
        lemma_add_mod_noop(acc + horner_sum(m), p, modulus());
    }
}

/// The remainder chain sets `_rem_p` to the prefix of the remainder in
/// `_r`, where that remainder is at least `k`.
proof fn lemma_chain_runs(k: nat, sp: Span, env: Map<Seq<char>, int>)
    requires
        1 <= k <= 6,
        env.contains_key("_r"@),
        0 <= env["_r"@] < 7,
    ensures
        run_stmt(horner_chain(k, sp), env) == Some(
            if k <= env["_r"@] {
                env.insert("_rem_p"@, horner_prefix(env["_r"@] as nat) as int)
            } else {
                env
            },
        ),
    decreases 6 - k,
{
    reveal_with_fuel(run_expr, 3);
    let r = env["_r"@];
    let s = horner_chain(k, sp);
    assert(run_expr(s->If_condition, env) == Some(if r == k { 1int } else { 0int }));
    if r == k {
        let then_stmts = s->If_then_branch.stmts;
        let e2 = env.insert("_rem_p"@, horner_prefix(k) as int);
        assert(run_stmt(then_stmts[0], env) == Some(e2));
        assert(run_from(then_stmts, 1, e2) == Some(e2));
        assert(run_from(then_stmts, 0, env) == Some(e2));
    } else if k < 6 {
        lemma_chain_runs(k + 1, sp, env);
        let else_stmts = s->If_else_branch.unwrap().stmts;
        let e2 = run_stmt(horner_chain(k + 1, sp), env).unwrap();
        assert(else_stmts[0] == horner_chain(k + 1, sp));
        assert(run_from(else_stmts, 1, e2) == Some(e2));
        assert(run_from(else_stmts, 0, env) == Some(e2));
    } else {
        assert(s->If_else_branch is None);
    }
}

/// The closed form of the polynomial benchmark computes the loop: for every
/// limit `n >= 0` and starting accumulator in `[0, 1000000007)`, running the
/// statements that replace
/// `while i < limit { x = (i % 7) + 1; p = 8x^7 - .. + 3 (by Horner's rule);
/// acc = (acc + p) % 1000000007; i = i + 1; }` (from `i = 0`) leaves in the
/// accumulator what `n` iterations of the loop leave, and sets `i` to `n`.
/// The accumulator and `i` are distinct, and neither is one of the
/// temporaries `_n`, `_q`, `_r`, `_rem_p` (`i` may be).
#[verifier::spinoff_prover]
#[verifier::rlimit(50)]
pub proof fn lemma_horner_form_computes_loop(
    i: Seq<char>,
    limit: ExprV,
    acc: Seq<char>,
    sp: Span,
    env: Map<Seq<char>, int>,
    n: int,
)
    requires
        run_expr(limit, env) == Some(n),
        n >= 0,
        env.contains_key(acc),
        0 <= env[acc] < modulus(),
        acc != i,
        acc != "_n"@,
        acc != "_q"@,
        acc != "_r"@,
        acc != "_rem_p"@,
    ensures
        run_from(horner_form(i, limit, acc, sp), 0, env) matches Some(out) && out.contains_key(acc)
            && out[acc] == horner_loop(env[acc], n as nat) && out.contains_key(i) && out[i] == n,
{
    reveal_strlit("_n");
    reveal_strlit("_q");
    reveal_strlit("_r");
    reveal_strlit("_rem_p");
    assert("_n"@ != "_q"@ && "_n"@ != "_r"@ && "_q"@ != "_r"@) by {
        assert("_n"@[1] != "_q"@[1]);
        assert("_n"@[1] != "_r"@[1]);
        assert("_q"@[1] != "_r"@[1]);
    }
    assert("_n"@.len() == 2 && "_q"@.len() == 2 && "_r"@.len() == 2 && "_rem_p"@.len() == 6);
    let mm = modulus();
    let a0 = env[acc];
    let ss = horner_form(i, limit, acc, sp);
    lemma_fundamental_div_mod(n, 7);
    let q = n / 7;
    let r = n % 7;
    assert(trunc_div(n, 7) == q);
    let m = lit_v(1000000007, sp);
    let nv = var_v("_n"@, sp);
    let seven = lit_v(7, sp);
    let e1 = env.insert("_n"@, n);
    let e2 = e1.insert("_q"@, q);
    let e3 = e2.insert("_r"@, r);
    let e4 = e3.insert("_rem_p"@, 0);
    assert(run_stmt(ss[0], env) == Some(e1));
    assert(run_expr(nv, e1) == Some(n));
    assert(run_expr(seven, e1) == Some(7int));
    assert(run_expr(bin_v(BinaryOp::Div, nv, seven, sp), e1) == Some(q));
    assert(run_stmt(ss[1], e1) == Some(e2));
    assert(run_expr(nv, e2) == Some(n));
    assert(run_expr(seven, e2) == Some(7int));
    assert(run_expr(bin_v(BinaryOp::Mod, nv, seven, sp), e2) == Some(r));
    assert(run_stmt(ss[2], e2) == Some(e3));
    assert(run_stmt(ss[3], e3) == Some(e4));
    lemma_chain_runs(1, sp, e4);
    let e5 = run_stmt(ss[4], e4).unwrap();
    assert(e5.contains_key("_rem_p"@) && e5["_rem_p"@] == horner_prefix(r as nat)) by {
        if r == 0 {
            assert(horner_prefix(0) == 0);
        }
    }
    assert(e5["_q"@] == q && e5[acc] == a0 && e5.contains_key("_q"@) && e5.contains_key(acc));
    assert(e5["_n"@] == n && e5.contains_key("_n"@));
    // the accumulator's new value
    lemma_fundamental_div_mod(q, mm);
    let qm = q % mm;
    assert(trunc_div(q, mm) == q / mm);
    let prod = qm * 9578605;
    assert(prod >= 0) by (nonlinear_arith)
        requires
            qm >= 0,
            prod == qm * 9578605,
    ;
    lemma_fundamental_div_mod(prod, mm);
    assert(trunc_div(prod, mm) == prod / mm);
    let full = prod % mm;
    let pre = horner_prefix(r as nat) as int;
    lemma_poly_values(1);
    assert(pre >= 0);
    let total = a0 + full + pre;
    lemma_fundamental_div_mod(total, mm);
    assert(trunc_div(total, mm) == total / mm);
    let fin = total % mm;
    let av = var_v(acc, sp);
    let qmod = bin_v(BinaryOp::Mod, var_v("_q"@, sp), m, sp);
    let prod_e = bin_v(BinaryOp::Mul, qmod, lit_v(9578605, sp), sp);
    let full_e = bin_v(BinaryOp::Mod, prod_e, m, sp);
    let sum1 = bin_v(BinaryOp::Add, av, full_e, sp);
    let sum2 = bin_v(BinaryOp::Add, sum1, var_v("_rem_p"@, sp), sp);
    let fin_e = bin_v(BinaryOp::Mod, sum2, m, sp);
    assert(run_expr(var_v("_q"@, sp), e5) == Some(q));
    assert(run_expr(m, e5) == Some(mm));
    assert(run_expr(qmod, e5) == Some(qm));
    assert(run_expr(lit_v(9578605, sp), e5) == Some(9578605int));
    assert(run_expr(prod_e, e5) == Some(prod));
    assert(run_expr(full_e, e5) == Some(full));
    assert(run_expr(av, e5) == Some(a0));
    assert(run_expr(sum1, e5) == Some(a0 + full));
    assert(run_expr(var_v("_rem_p"@, sp), e5) == Some(pre));
    assert(run_expr(sum2, e5) == Some(total));
    assert(run_expr(fin_e, e5) == Some(fin));
    assert(ss[5] == StmtV::Assign { name: acc, value: fin_e, span: sp });
    let e6 = e5.insert(acc, fin);
    assert(run_stmt(ss[5], e5) == Some(e6));
    assert(fin >= 0);
    assert(run_expr(av, e6) == Some(fin));
    assert(run_expr(lit_v(0, sp), e6) == Some(0int));
    assert(run_expr(bin_v(BinaryOp::Lt, av, lit_v(0, sp), sp), e6) == Some(0int));
    assert(run_stmt(ss[6], e6) == Some(e6));
    assert(e6["_n"@] == n);
    assert(run_expr(nv, e6) == Some(n));
    let e7 = e6.insert(i, n);
    assert(run_stmt(ss[7], e6) == Some(e7));
    assert(run_from(ss, 8, e7) == Some(e7));
    assert(run_from(ss, 7, e6) == Some(e7));
    assert(run_from(ss, 6, e6) == Some(e7));
    assert(run_from(ss, 5, e5) == Some(e7));
    assert(run_from(ss, 4, e4) == Some(e7));
    assert(run_from(ss, 3, e3) == Some(e7));
    assert(run_from(ss, 2, e2) == Some(e7));
    assert(run_from(ss, 1, e1) == Some(e7));
    assert(run_from(ss, 0, env) == Some(e7));
    // the closed form is the loop's value
    lemma_mul_mod_noop_left(q, 9578605, mm);
    lemma_add_mod_noop_right(a0 + pre, q * 9578605, mm);
    assert(total == (a0 + pre) + (q * 9578605) % mm);
    lemma_horner_sum(n as nat);
    lemma_horner_loop(a0, n as nat);
    assert((n as nat) / 7 == q && (n as nat) % 7 == r);
    assert(fin == (a0 + horner_sum(n as nat)) % mm);
}

} // verus!
