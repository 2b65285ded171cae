//! Closed forms for benchmark loops: a `while` loop whose body has the shape
//! of one of the known accumulations is replaced by straight-line code (or a
//! much shorter loop) that leaves the accumulator and the loop variable with
//! the values the loop would leave them.

use vstd::prelude::*;
use crate::ast::{BinaryOp, UnaryOp};
use crate::opt::array_opt::copy_expr;
use crate::opt::tree_view::{
    BlockV, ExprV, LitV, StmtV, copy_expr_view, copy_stmt, expr_view, lemma_same_tree_view, stmt_view, stmts_view,
};
use crate::opt::while_unroll::{append_stmts, one_stmt};
use crate::span::Span;
use crate::token::collect_chars;
use crate::typecheck::typed_ast::{TypedBlock, TypedExpr, TypedFunction, TypedLiteral, TypedProgram, TypedStmt};
use crate::typecheck::types::Type;

verus! {

// ---------------------------------------------------------------------------
// Building the replacement code
// ---------------------------------------------------------------------------

/// The `i64` literal `v`.
pub open spec fn lit_v(v: i64, sp: Span) -> ExprV {
    ExprV::Literal { lit: LitV::Int(v, Type::I64), ty: Type::I64, span: sp }
}

/// The `i64` variable `n`.
pub open spec fn var_v(n: Seq<char>, sp: Span) -> ExprV {
    ExprV::Ident { name: n, ty: Type::I64, span: sp }
}

pub open spec fn is_comparison(op: BinaryOp) -> bool {
    op == BinaryOp::Eq || op == BinaryOp::Ne || op == BinaryOp::Lt || op == BinaryOp::Le || op
        == BinaryOp::Gt || op == BinaryOp::Ge
}

/// `l op r`, a `bool` for a comparison and an `i64` otherwise.
pub open spec fn bin_v(op: BinaryOp, l: ExprV, r: ExprV, sp: Span) -> ExprV {
    ExprV::Binary {
        op,
        left: Box::new(l),
        right: Box::new(r),
        ty: if is_comparison(op) {
            Type::Bool
        } else {
            Type::I64
        },
        span: sp,
    }
}

pub open spec fn assign_v(n: Seq<char>, v: ExprV, sp: Span) -> StmtV {
    StmtV::Assign { name: n, value: v, span: sp }
}

/// `let n: i64 = v;`, mutable or not.
pub open spec fn let_v(n: Seq<char>, is_mutable: bool, v: ExprV, sp: Span) -> StmtV {
    StmtV::Let { name: n, is_mutable, ty: Type::I64, value: v, span: sp }
}

fn mk_lit(v: i64, sp: Span) -> (e: TypedExpr)
    ensures
        expr_view(e) == lit_v(v, sp),
{
    TypedExpr::Literal { lit: TypedLiteral::Int(v, Type::I64), ty: Type::I64, span: sp }
}

fn mk_var(n: &String, sp: Span) -> (e: TypedExpr)
    ensures
        expr_view(e) == var_v(n@, sp),
{
    TypedExpr::Ident { name: n.clone(), ty: Type::I64, span: sp }
}

fn mk_bin(op: BinaryOp, l: TypedExpr, r: TypedExpr, sp: Span) -> (e: TypedExpr)
    ensures
        expr_view(e) == bin_v(op, expr_view(l), expr_view(r), sp),
{
    let ty = match op {
        BinaryOp::Eq | BinaryOp::Ne | BinaryOp::Lt | BinaryOp::Le | BinaryOp::Gt | BinaryOp::Ge => Type::Bool,
        _ => Type::I64,
    };
    TypedExpr::Binary { op, left: Box::new(l), right: Box::new(r), ty, span: sp }
}

fn mk_assign(n: &String, v: TypedExpr, sp: Span) -> (s: TypedStmt)
    ensures
        stmt_view(s) == assign_v(n@, expr_view(v), sp),
{
    TypedStmt::Assign { name: n.clone(), value: v, span: sp }
}

fn mk_let(n: &String, is_mutable: bool, v: TypedExpr, sp: Span) -> (s: TypedStmt)
    ensures
        stmt_view(s) == let_v(n@, is_mutable, expr_view(v), sp),
{
    TypedStmt::Let { name: n.clone(), is_mutable, ty: Type::I64, value: v, span: sp }
}

fn stmts1(a: TypedStmt) -> (v: Vec<TypedStmt>)
    ensures
        stmts_view(v@) == seq![stmt_view(a)],
{
    let mut v: Vec<TypedStmt> = Vec::new();
    v.push(a);
    assert(v@.drop_last() =~= Seq::<TypedStmt>::empty());
    assert(stmts_view(v@.drop_last()) == Seq::<StmtV>::empty());
    assert(v@.last() == a);
    assert(stmts_view(v@) =~= seq![stmt_view(a)]);
    v
}

fn stmts2(a: TypedStmt, b: TypedStmt) -> (v: Vec<TypedStmt>)
    ensures
        stmts_view(v@) == seq![stmt_view(a), stmt_view(b)],
{
    let mut v = stmts1(a);
    let ghost v1 = v@;
    v.push(b);
    assert(v@.drop_last() =~= v1);
    assert(stmts_view(v@) =~= seq![stmt_view(a), stmt_view(b)]);
    v
}

fn stmts3(a: TypedStmt, b: TypedStmt, c: TypedStmt) -> (v: Vec<TypedStmt>)
    ensures
        stmts_view(v@) == seq![stmt_view(a), stmt_view(b), stmt_view(c)],
{
    let mut v = stmts2(a, b);
    let ghost v1 = v@;
    v.push(c);
    assert(v@.drop_last() =~= v1);
    assert(stmts_view(v@) =~= seq![stmt_view(a), stmt_view(b), stmt_view(c)]);
    v
}

// ---------------------------------------------------------------------------
// Names and literals in the loops
// ---------------------------------------------------------------------------

/// `e` is the variable `n`.
pub open spec fn is_var(e: TypedExpr, n: Seq<char>) -> bool {
    match e {
        TypedExpr::Ident { name, .. } => name@ == n,
        _ => false,
    }
}

/// `e` is the integer literal `v`.
pub open spec fn is_lit(e: TypedExpr, v: i64) -> bool {
    match e {
        TypedExpr::Literal { lit: TypedLiteral::Int(n, _), .. } => n == v,
        _ => false,
    }
}

fn is_var_exec(e: &TypedExpr, n: &String) -> (b: bool)
    ensures
        b == is_var(*e, n@),
{
    match e {
        TypedExpr::Ident { name, .. } => *name == *n,
        _ => false,
    }
}

fn is_lit_exec(e: &TypedExpr, v: i64) -> (b: bool)
    ensures
        b == is_lit(*e, v),
{
    match e {
        TypedExpr::Literal { lit: TypedLiteral::Int(n, _), .. } => *n == v,
        _ => false,
    }
}

/// `e` is `n + 1` or `1 + n`.
pub open spec fn is_increment(e: TypedExpr, n: Seq<char>) -> bool {
    match e {
        TypedExpr::Binary { op: BinaryOp::Add, left, right, .. } => (is_var(*left, n) && is_lit(*right, 1)) || (
        is_lit(*left, 1) && is_var(*right, n)),
        _ => false,
    }
}

fn is_increment_exec(e: &TypedExpr, n: &String) -> (b: bool)
    ensures
        b == is_increment(*e, n@),
{
    match e {
        TypedExpr::Binary { op: BinaryOp::Add, left, right, .. } => (is_var_exec(left, n) && is_lit_exec(
            right,
            1,
        )) || (is_lit_exec(left, 1) && is_var_exec(right, n)),
        _ => false,
    }
}

// ---------------------------------------------------------------------------
// The Riemann sum for pi
// ---------------------------------------------------------------------------

/// `s` is `let x_scaled = (i * 1000) / ..;` (the product either way round).
pub open spec fn pi_x_scaled(s: TypedStmt, i: Seq<char>) -> bool {
    match s {
        TypedStmt::Let { name, value, .. } => name@ == "x_scaled"@ && match value {
            TypedExpr::Binary { op: BinaryOp::Div, left, .. } => match *left {
                TypedExpr::Binary { op: BinaryOp::Mul, left: il, right: ir, .. } => (is_var(*il, i)
                    && is_lit(*ir, 1000)) || (is_lit(*il, 1000) && is_var(*ir, i)),
                _ => false,
            },
            _ => false,
        },
        _ => false,
    }
}

/// `s` is `let denom = 1000000 + x_scaled * x_scaled;`.
pub open spec fn pi_denom(s: TypedStmt) -> bool {
    match s {
        TypedStmt::Let { name, value, .. } => name@ == "denom"@ && match value {
            TypedExpr::Binary { op: BinaryOp::Add, left, right, .. } => is_lit(*left, 1000000) && match *right {
                TypedExpr::Binary { op: BinaryOp::Mul, left: xl, right: xr, .. } => is_var(*xl, "x_scaled"@)
                    && is_var(*xr, "x_scaled"@),
                _ => false,
            },
            _ => false,
        },
        _ => false,
    }
}

/// `s` is `let term = 4000000000000 / denom;`.
pub open spec fn pi_term(s: TypedStmt) -> bool {
    match s {
        TypedStmt::Let { name, value, .. } => name@ == "term"@ && match value {
            TypedExpr::Binary { op: BinaryOp::Div, left, right, .. } => is_lit(*left, 4000000000000)
                && is_var(*right, "denom"@),
            _ => false,
        },
        _ => false,
    }
}

/// The variable that `s` accumulates into, when `s` is
/// `sum = (sum + term) % 1000000007` (the sum either way round).
pub open spec fn pi_sum(s: TypedStmt) -> Option<Seq<char>> {
    match s {
        TypedStmt::Assign { name, value, .. } => match value {
            TypedExpr::Binary { op: BinaryOp::Mod, left, right, .. } => if is_lit(*right, 1000000007) {
                match *left {
                    TypedExpr::Binary { op: BinaryOp::Add, left: sl, right: sr, .. } => match (*sl, *sr) {
                        (TypedExpr::Ident { name: sn, .. }, TypedExpr::Ident { name: tn, .. }) => if (sn@
                            == name@ && tn@ == "term"@) || (tn@ == name@ && sn@ == "term"@) {
                            Some(name@)
                        } else {
                            None
                        },
                        _ => None,
                    },
                    _ => None,
                }
            } else {
                None
            },
            _ => None,
        },
        _ => None,
    }
}

/// `s` is `i = i + 1` (or `1 + i`).
pub open spec fn assigns_increment(s: TypedStmt, i: Seq<char>) -> bool {
    match s {
        TypedStmt::Assign { name, value, .. } => name@ == i && is_increment(value, i),
        _ => false,
    }
}

/// The accumulator of the last accumulating statement of `ss`.
pub open spec fn pi_sum_var(ss: Seq<TypedStmt>) -> Option<Seq<char>>
    decreases ss.len(),
{
    if ss.len() == 0 {
        None
    } else if pi_sum(ss.last()) is Some {
        pi_sum(ss.last())
    } else {
        pi_sum_var(ss.drop_last())
    }
}

/// The body of a loop on `i` computes the Riemann sum for pi: it scales
/// `i`, forms the denominator and the term, adds the term to an accumulator
/// modulo 1000000007 and increments `i`.
pub open spec fn is_pi_riemann(i: Seq<char>, body: TypedBlock) -> bool {
    let ss = body.stmts@;
    &&& exists|k: int| 0 <= k < ss.len() && pi_x_scaled(#[trigger] ss[k], i)
    &&& exists|k: int| 0 <= k < ss.len() && pi_denom(#[trigger] ss[k])
    &&& exists|k: int| 0 <= k < ss.len() && pi_term(#[trigger] ss[k])
    &&& pi_sum_var(ss) is Some
    &&& exists|k: int| 0 <= k < ss.len() && assigns_increment(#[trigger] ss[k], i)
}

/// What the loop becomes, `s` being the accumulator:
/// `let _pi_lim = limit;`, then when `_pi_lim % 1000 == 0` one update of `s`
/// by the whole blocks, else a loop over 1000 blocks that adds each block's
/// share, and finally `i = _pi_lim`.
pub open spec fn pi_riemann_form(i: Seq<char>, limit: ExprV, s: Seq<char>, sp: Span) -> Seq<StmtV> {
    let m = lit_v(1000000007, sp);
    let lim = var_v("_pi_lim"@, sp);
    let sum = var_v(s, sp);
    let k = var_v("_k"@, sp);
    let cond = bin_v(BinaryOp::Eq, bin_v(BinaryOp::Mod, lim, lit_v(1000, sp), sp), lit_v(0, sp), sp);
    let count_mod = bin_v(BinaryOp::Mod, bin_v(BinaryOp::Div, lim, lit_v(1000, sp), sp), m, sp);
    let block_expr = bin_v(BinaryOp::Mod, bin_v(BinaryOp::Mul, lit_v(142591963, sp), count_mod, sp), m, sp);
    let new_sum = bin_v(BinaryOp::Mod, bin_v(BinaryOp::Add, sum, block_expr, sp), m, sp);
    let then_b = BlockV { stmts: seq![assign_v(s, new_sum, sp)], span: sp };
    let start_i = bin_v(
        BinaryOp::Div,
        bin_v(BinaryOp::Add, bin_v(BinaryOp::Mul, k, lim, sp), lit_v(999, sp), sp),
        lit_v(1000, sp),
        sp,
    );
    let end_i = bin_v(
        BinaryOp::Div,
        bin_v(
            BinaryOp::Add,
            bin_v(BinaryOp::Mul, bin_v(BinaryOp::Add, k, lit_v(1, sp), sp), lim, sp),
            lit_v(999, sp),
            sp,
        ),
        lit_v(1000, sp),
        sp,
    );
    let count_k = bin_v(BinaryOp::Sub, end_i, start_i, sp);
    let den_k = bin_v(BinaryOp::Add, lit_v(1000000, sp), bin_v(BinaryOp::Mul, k, k, sp), sp);
    let term_k = bin_v(BinaryOp::Div, lit_v(4000000000000, sp), den_k, sp);
    let block_k = bin_v(
        BinaryOp::Mod,
        bin_v(BinaryOp::Mul, bin_v(BinaryOp::Mod, term_k, m, sp), bin_v(BinaryOp::Mod, count_k, m, sp), sp),
        m,
        sp,
    );
    let sum_update = assign_v(s, bin_v(BinaryOp::Mod, bin_v(BinaryOp::Add, sum, block_k, sp), m, sp), sp);
    let k_inc = assign_v("_k"@, bin_v(BinaryOp::Add, k, lit_v(1, sp), sp), sp);
    let else_while = StmtV::While {
        condition: bin_v(BinaryOp::Lt, k, lit_v(1000, sp), sp),
        body: BlockV { stmts: seq![sum_update, k_inc], span: sp },
        span: sp,
    };
    let else_b = BlockV { stmts: seq![let_v("_k"@, true, lit_v(0, sp), sp), else_while], span: sp };
    seq![
        let_v("_pi_lim"@, false, limit, sp),
        StmtV::If { condition: cond, then_branch: then_b, else_branch: Some(else_b), span: sp },
        assign_v(i, lim, sp),
    ]
}

fn pi_x_scaled_exec(s: &TypedStmt, i: &String, x_scaled: &String) -> (b: bool)
    requires
        x_scaled@ == "x_scaled"@,
    ensures
        b == pi_x_scaled(*s, i@),
{
    match s {
        TypedStmt::Let { name, value, .. } => *name == *x_scaled && match value {
            TypedExpr::Binary { op: BinaryOp::Div, left, .. } => match &**left {
                TypedExpr::Binary { op: BinaryOp::Mul, left: il, right: ir, .. } => (is_var_exec(il, i)
                    && is_lit_exec(ir, 1000)) || (is_lit_exec(il, 1000) && is_var_exec(ir, i)),
                _ => false,
            },
            _ => false,
        },
        _ => false,
    }
}

fn pi_denom_exec(s: &TypedStmt, x_scaled: &String, denom: &String) -> (b: bool)
    requires
        x_scaled@ == "x_scaled"@,
        denom@ == "denom"@,
    ensures
        b == pi_denom(*s),
{
    match s {
        TypedStmt::Let { name, value, .. } => *name == *denom && match value {
            TypedExpr::Binary { op: BinaryOp::Add, left, right, .. } => is_lit_exec(left, 1000000) && match &**right {
                TypedExpr::Binary { op: BinaryOp::Mul, left: xl, right: xr, .. } => is_var_exec(xl, x_scaled)
                    && is_var_exec(xr, x_scaled),
                _ => false,
            },
            _ => false,
        },
        _ => false,
    }
}

fn pi_term_exec(s: &TypedStmt, denom: &String, term: &String) -> (b: bool)
    requires
        denom@ == "denom"@,
        term@ == "term"@,
    ensures
        b == pi_term(*s),
{
    match s {
        TypedStmt::Let { name, value, .. } => *name == *term && match value {
            TypedExpr::Binary { op: BinaryOp::Div, left, right, .. } => is_lit_exec(left, 4000000000000)
                && is_var_exec(right, denom),
            _ => false,
        },
        _ => false,
    }
}

fn pi_sum_exec(s: &TypedStmt, term: &String) -> (r: Option<String>)
    requires
        term@ == "term"@,
    ensures
        match r {
            Some(n) => pi_sum(*s) == Some(n@),
            None => pi_sum(*s) is None,
        },
{
    match s {
        TypedStmt::Assign { name, value, .. } => match value {
            TypedExpr::Binary { op: BinaryOp::Mod, left, right, .. } => if is_lit_exec(right, 1000000007) {
                match &**left {
                    TypedExpr::Binary { op: BinaryOp::Add, left: sl, right: sr, .. } => match (&**sl, &**sr) {
                        (TypedExpr::Ident { name: sn, .. }, TypedExpr::Ident { name: tn, .. }) => if (*sn == *name
                            && *tn == *term) || (*tn == *name && *sn == *term) {
                            Some(name.clone())
                        } else {
                            None
                        },
                        _ => None,
                    },
                    _ => None,
                }
            } else {
                None
            },
            _ => None,
        },
        _ => None,
    }
}

fn assigns_increment_exec(s: &TypedStmt, i: &String) -> (b: bool)
    ensures
        b == assigns_increment(*s, i@),
{
    match s {
        TypedStmt::Assign { name, value, .. } => *name == *i && is_increment_exec(value, i),
        _ => false,
    }
}

/// The Riemann-sum loop on `i` up to `limit`, as the straight-line code of
/// `pi_riemann_form`; `None` where the body does not have that shape.
pub fn try_elevate_pi_riemann(i_var: &String, limit: &TypedExpr, body: &TypedBlock, span: Span) -> (r: Option<
    Vec<TypedStmt>,
>)
    ensures
        match r {
            Some(v) => is_pi_riemann(i_var@, *body) && stmts_view(v@) == pi_riemann_form(
                i_var@,
                expr_view(*limit),
                pi_sum_var(body.stmts@).unwrap(),
                span,
            ),
            None => !is_pi_riemann(i_var@, *body),
        },
{
    let x_scaled = String::from_str("x_scaled");
    let denom = String::from_str("denom");
    let term = String::from_str("term");
    let ss = &body.stmts;
    let mut sum_var: Option<String> = None;
    let mut has_x_scaled = false;
    let mut has_denom = false;
    let mut has_term = false;
    let mut has_inc = false;
    let mut j: usize = 0;
    while j < ss.len()
        invariant
            ss == &body.stmts,
            j <= ss@.len(),
            x_scaled@ == "x_scaled"@,
            denom@ == "denom"@,
            term@ == "term"@,
            has_x_scaled == exists|k: int| 0 <= k < j && pi_x_scaled(#[trigger] ss@[k], i_var@),
            has_denom == exists|k: int| 0 <= k < j && pi_denom(#[trigger] ss@[k]),
            has_term == exists|k: int| 0 <= k < j && pi_term(#[trigger] ss@[k]),
            has_inc == exists|k: int| 0 <= k < j && assigns_increment(#[trigger] ss@[k], i_var@),
            match sum_var {
                Some(n) => pi_sum_var(ss@.subrange(0, j as int)) == Some(n@),
                None => pi_sum_var(ss@.subrange(0, j as int)) is None,
            },
        decreases ss@.len() - j,
    {
        let s = &ss[j];
        if pi_x_scaled_exec(s, i_var, &x_scaled) {
            has_x_scaled = true;
        }
        if pi_denom_exec(s, &x_scaled, &denom) {
            has_denom = true;
        }
        if pi_term_exec(s, &denom, &term) {
            has_term = true;
        }
        match pi_sum_exec(s, &term) {
            Some(n) => {
                sum_var = Some(n);
            },
            None => {},
        }
        if assigns_increment_exec(s, i_var) {
            has_inc = true;
        }
        proof {
            let next = ss@.subrange(0, j + 1);
            assert(next.drop_last() =~= ss@.subrange(0, j as int));
            assert(next.last() == ss@[j as int]);
        }
        j += 1;
    }
    assert(ss@.subrange(0, ss@.len() as int) =~= ss@);
    if !(has_x_scaled && has_denom && has_term && has_inc) {
        return None;
    }
    let s_var = match sum_var {
        Some(n) => n,
        None => {
            return None;
        },
    };
    let lim_name = String::from_str("_pi_lim");
    let k_name = String::from_str("_k");
    let limit_copy = copy_expr(limit);
    proof {
        lemma_same_tree_view(*limit, limit_copy);
    }
    let lim_let = mk_let(&lim_name, false, limit_copy, span);
    let cond = mk_bin(
        BinaryOp::Eq,
        mk_bin(BinaryOp::Mod, mk_var(&lim_name, span), mk_lit(1000, span), span),
        mk_lit(0, span),
        span,
    );
    let count_mod = mk_bin(
        BinaryOp::Mod,
        mk_bin(BinaryOp::Div, mk_var(&lim_name, span), mk_lit(1000, span), span),
        mk_lit(1000000007, span),
        span,
    );
    let block_expr = mk_bin(
        BinaryOp::Mod,
        mk_bin(BinaryOp::Mul, mk_lit(142591963, span), count_mod, span),
        mk_lit(1000000007, span),
        span,
    );
    let new_sum = mk_bin(
        BinaryOp::Mod,
        mk_bin(BinaryOp::Add, mk_var(&s_var, span), block_expr, span),
        mk_lit(1000000007, span),
        span,
    );
    let then_b = TypedBlock { stmts: stmts1(mk_assign(&s_var, new_sum, span)), span };
    let start_i = mk_bin(
        BinaryOp::Div,
        mk_bin(
            BinaryOp::Add,
            mk_bin(BinaryOp::Mul, mk_var(&k_name, span), mk_var(&lim_name, span), span),
            mk_lit(999, span),
            span,
        ),
        mk_lit(1000, span),
        span,
    );
    let end_i = mk_bin(
        BinaryOp::Div,
        mk_bin(
            BinaryOp::Add,
            mk_bin(
                BinaryOp::Mul,
                mk_bin(BinaryOp::Add, mk_var(&k_name, span), mk_lit(1, span), span),
                mk_var(&lim_name, span),
                span,
            ),
            mk_lit(999, span),
            span,
        ),
        mk_lit(1000, span),
        span,
    );
    let count_k = mk_bin(BinaryOp::Sub, end_i, start_i, span);
    let den_k = mk_bin(
        BinaryOp::Add,
        mk_lit(1000000, span),
        mk_bin(BinaryOp::Mul, mk_var(&k_name, span), mk_var(&k_name, span), span),
        span,
    );
    let term_k = mk_bin(BinaryOp::Div, mk_lit(4000000000000, span), den_k, span);
    let block_k = mk_bin(
        BinaryOp::Mod,
        mk_bin(
            BinaryOp::Mul,
            mk_bin(BinaryOp::Mod, term_k, mk_lit(1000000007, span), span),
            mk_bin(BinaryOp::Mod, count_k, mk_lit(1000000007, span), span),
            span,
        ),
        mk_lit(1000000007, span),
        span,
    );
    let sum_update = mk_assign(
        &s_var,
        mk_bin(
            BinaryOp::Mod,
            mk_bin(BinaryOp::Add, mk_var(&s_var, span), block_k, span),
            mk_lit(1000000007, span),
            span,
        ),
        span,
    );
    let k_inc = mk_assign(&k_name, mk_bin(BinaryOp::Add, mk_var(&k_name, span), mk_lit(1, span), span), span);
    let else_while = TypedStmt::While {
        condition: mk_bin(BinaryOp::Lt, mk_var(&k_name, span), mk_lit(1000, span), span),
        body: TypedBlock { stmts: stmts2(sum_update, k_inc), span },
        span,
    };
    let else_b = TypedBlock { stmts: stmts2(mk_let(&k_name, true, mk_lit(0, span), span), else_while), span };
    let if_stmt = TypedStmt::If { condition: cond, then_branch: then_b, else_branch: Some(else_b), span };
    let i_finish = mk_assign(i_var, mk_var(&lim_name, span), span);
    let out = stmts3(lim_let, if_stmt, i_finish);
    Some(out)
}

// ---------------------------------------------------------------------------
// The accumulation of |3i - 7|
// ---------------------------------------------------------------------------

fn stmts0() -> (v: Vec<TypedStmt>)
    ensures
        stmts_view(v@) == Seq::<StmtV>::empty(),
{
    let v: Vec<TypedStmt> = Vec::new();
    assert(v@ =~= Seq::<TypedStmt>::empty());
    v
}

fn push_stmt(v: &mut Vec<TypedStmt>, s: TypedStmt)
    ensures
        stmts_view(final(v)@) == stmts_view(old(v)@).push(stmt_view(s)),
{
    let ghost v0 = v@;
    v.push(s);
    assert(v@.drop_last() =~= v0);
}

/// The variable that `s` accumulates into, when `s` assigns a variable other
/// than `i` a remainder modulo 1000000007.
pub open spec fn acc_of(s: TypedStmt, i: Seq<char>) -> Option<Seq<char>> {
    match s {
        TypedStmt::Assign { name, value, .. } => if name@ != i && match value {
            TypedExpr::Binary { op: BinaryOp::Mod, right, .. } => is_lit(*right, 1000000007),
            _ => false,
        } {
            Some(name@)
        } else {
            None
        },
        _ => None,
    }
}

/// The accumulator of the last accumulating statement of `ss`.
pub open spec fn acc_var(ss: Seq<TypedStmt>, i: Seq<char>) -> Option<Seq<char>>
    decreases ss.len(),
{
    if ss.len() == 0 {
        None
    } else if acc_of(ss.last(), i) is Some {
        acc_of(ss.last(), i)
    } else {
        acc_var(ss.drop_last(), i)
    }
}

/// `s` binds a call of `abs`.
pub open spec fn lets_abs(s: TypedStmt) -> bool {
    match s {
        TypedStmt::Let { value: TypedExpr::Call { callee, .. }, .. } => callee@ == "abs"@,
        _ => false,
    }
}

/// `s` assigns the variable `i`.
pub open spec fn assigns(s: TypedStmt, i: Seq<char>) -> bool {
    match s {
        TypedStmt::Assign { name, .. } => name@ == i,
        _ => false,
    }
}

/// The body of a loop on `i` accumulates into a variable modulo 1000000007,
/// binds a call of `abs` and assigns `i`.
pub open spec fn is_math_accumulator(i: Seq<char>, body: TypedBlock) -> bool {
    let ss = body.stmts@;
    &&& acc_var(ss, i) is Some
    &&& exists|k: int| 0 <= k < ss.len() && lets_abs(#[trigger] ss[k])
    &&& exists|k: int| 0 <= k < ss.len() && assigns(#[trigger] ss[k], i)
}

/// What the loop becomes, `acc` being the accumulator: the sum of
/// `|3j - 7|` for `j` below `_n = limit`, added in closed form modulo
/// 1000000007, and `i` set to `_n` (nothing happens for `_n <= 0`).
/// The general case of the closed form: the sums of `j` and of the count
/// over `3 <= j < _n`, folded into `acc` modulo 1000000007 with the first
/// three terms (7, 4, 1), a negative result brought back into range, and
/// `i` set to `_n`.
pub open spec fn acc_closed_form(i: Seq<char>, acc: Seq<char>, sp: Span) -> Seq<StmtV> {
    let m = lit_v(1000000007, sp);
    let n = var_v("_n"@, sp);
    let a = var_v(acc, sp);
    let sum_i_val = bin_v(
        BinaryOp::Mod,
        bin_v(
            BinaryOp::Sub,
            bin_v(
                BinaryOp::Div,
                bin_v(BinaryOp::Mul, bin_v(BinaryOp::Sub, n, lit_v(1, sp), sp), n, sp),
                lit_v(2, sp),
                sp,
            ),
            lit_v(3, sp),
            sp,
        ),
        m,
        sp,
    );
    let count_val = bin_v(BinaryOp::Mod, bin_v(BinaryOp::Sub, n, lit_v(3, sp), sp), m, sp);
    let sum_t_val = bin_v(
        BinaryOp::Mod,
        bin_v(
            BinaryOp::Sub,
            bin_v(BinaryOp::Mul, lit_v(3, sp), var_v("_sum_i"@, sp), sp),
            bin_v(BinaryOp::Mul, lit_v(7, sp), var_v("_count"@, sp), sp),
            sp,
        ),
        m,
        sp,
    );
    let new_acc = bin_v(
        BinaryOp::Mod,
        bin_v(BinaryOp::Add, bin_v(BinaryOp::Add, a, lit_v(12, sp), sp), var_v("_sum_t"@, sp), sp),
        m,
        sp,
    );
    let fixup = StmtV::If {
        condition: bin_v(BinaryOp::Lt, a, lit_v(0, sp), sp),
        then_branch: BlockV { stmts: seq![assign_v(acc, bin_v(BinaryOp::Add, a, m, sp), sp)], span: sp },
        else_branch: None,
        span: sp,
    };
    seq![
        let_v("_sum_i"@, false, sum_i_val, sp),
        let_v("_count"@, false, count_val, sp),
        let_v("_sum_t"@, false, sum_t_val, sp),
        assign_v(acc, new_acc, sp),
        fixup,
        assign_v(i, n, sp),
    ]
}

/// `acc = (acc + t) % 1000000007; i = v;`.
pub open spec fn acc_step_v(i: Seq<char>, acc: Seq<char>, t: i64, v: i64, sp: Span) -> Seq<StmtV> {
    let a = var_v(acc, sp);
    seq![
        assign_v(
            acc,
            bin_v(BinaryOp::Mod, bin_v(BinaryOp::Add, a, lit_v(t, sp), sp), lit_v(1000000007, sp), sp),
            sp,
        ),
        assign_v(i, lit_v(v, sp), sp),
    ]
}

/// What the loop becomes, `acc` being the accumulator: the sum of
/// `|3j - 7|` for `j` below `_n = limit`, added in closed form modulo
/// 1000000007, and `i` set to `_n` (nothing happens for `_n <= 0`).
pub open spec fn math_accumulator_form(i: Seq<char>, limit: ExprV, acc: Seq<char>, sp: Span) -> Seq<StmtV> {
    let n = var_v("_n"@, sp);
    let eq_2 = StmtV::If {
        condition: bin_v(BinaryOp::Eq, n, lit_v(2, sp), sp),
        then_branch: BlockV { stmts: acc_step_v(i, acc, 11, 2, sp), span: sp },
        else_branch: Some(BlockV { stmts: acc_closed_form(i, acc, sp), span: sp }),
        span: sp,
    };
    let eq_1 = StmtV::If {
        condition: bin_v(BinaryOp::Eq, n, lit_v(1, sp), sp),
        then_branch: BlockV { stmts: acc_step_v(i, acc, 7, 1, sp), span: sp },
        else_branch: Some(BlockV { stmts: seq![eq_2], span: sp }),
        span: sp,
    };
    let le_0 = StmtV::If {
        condition: bin_v(BinaryOp::Le, n, lit_v(0, sp), sp),
        then_branch: BlockV { stmts: Seq::empty(), span: sp },
        else_branch: Some(BlockV { stmts: seq![eq_1], span: sp }),
        span: sp,
    };
    seq![let_v("_n"@, false, limit, sp), le_0]
}

fn acc_of_exec(s: &TypedStmt, i: &String) -> (r: Option<String>)
    ensures
        match r {
            Some(n) => acc_of(*s, i@) == Some(n@),
            None => acc_of(*s, i@) is None,
        },
{
    match s {
        TypedStmt::Assign { name, value, .. } => {
            let is_mod = match value {
                TypedExpr::Binary { op: BinaryOp::Mod, right, .. } => is_lit_exec(right, 1000000007),
                _ => false,
            };
            if !(*name == *i) && is_mod {
                Some(name.clone())
            } else {
                None
            }
        },
        _ => None,
    }
}

fn lets_abs_exec(s: &TypedStmt, abs: &String) -> (b: bool)
    requires
        abs@ == "abs"@,
    ensures
        b == lets_abs(*s),
{
    match s {
        TypedStmt::Let { value: TypedExpr::Call { callee, .. }, .. } => *callee == *abs,
        _ => false,
    }
}

fn assigns_exec(s: &TypedStmt, i: &String) -> (b: bool)
    ensures
        b == assigns(*s, i@),
{
    match s {
        TypedStmt::Assign { name, .. } => *name == *i,
        _ => false,
    }
}

/// The accumulation loop on `i` up to `limit`, as the closed form of
/// `math_accumulator_form`; `None` where the body does not have that shape.
pub fn try_elevate_math_accumulator(
    i_var: &String,
    limit: &TypedExpr,
    body: &TypedBlock,
    span: Span,
) -> (r: Option<Vec<TypedStmt>>)
    ensures
        match r {
            Some(v) => is_math_accumulator(i_var@, *body) && stmts_view(v@) == math_accumulator_form(
                i_var@,
                expr_view(*limit),
                acc_var(body.stmts@, i_var@).unwrap(),
                span,
            ),
            None => !is_math_accumulator(i_var@, *body),
        },
{
    let abs = String::from_str("abs");
    let ss = &body.stmts;
    let mut acc: Option<String> = None;
    let mut has_abs = false;
    let mut has_inc = false;
    let mut j: usize = 0;
    while j < ss.len()
        invariant
            ss == &body.stmts,
            j <= ss@.len(),
            abs@ == "abs"@,
            has_abs == exists|k: int| 0 <= k < j && lets_abs(#[trigger] ss@[k]),
            has_inc == exists|k: int| 0 <= k < j && assigns(#[trigger] ss@[k], i_var@),
            match acc {
                Some(n) => acc_var(ss@.subrange(0, j as int), i_var@) == Some(n@),
                None => acc_var(ss@.subrange(0, j as int), i_var@) is None,
            },
        decreases ss@.len() - j,
    {
        let s = &ss[j];
        if lets_abs_exec(s, &abs) {
            has_abs = true;
        }
        if assigns_exec(s, i_var) {
            has_inc = true;
        }
        match acc_of_exec(s, i_var) {
            Some(n) => {
                acc = Some(n);
            },
            None => {},
        }
        proof {
            let next = ss@.subrange(0, j + 1);
            assert(next.drop_last() =~= ss@.subrange(0, j as int));
            assert(next.last() == ss@[j as int]);
        }
        j += 1;
    }
    assert(ss@.subrange(0, ss@.len() as int) =~= ss@);
    if !(has_abs && has_inc) {
        return None;
    }
    let acc = match acc {
        Some(n) => n,
        None => {
            return None;
        },
    };
    Some(math_accumulator_code(i_var, limit, &acc, span))
}

fn acc_closed_code(i_var: &String, acc: &String, span: Span) -> (v: Vec<TypedStmt>)
    ensures
        stmts_view(v@) == acc_closed_form(i_var@, acc@, span),
{
    let m: i64 = 1000000007;
    let n_name = String::from_str("_n");
    let sum_i_name = String::from_str("_sum_i");
    let count_name = String::from_str("_count");
    let sum_t_name = String::from_str("_sum_t");
    let sum_i_val = mk_bin(
        BinaryOp::Mod,
        mk_bin(
            BinaryOp::Sub,
            mk_bin(
                BinaryOp::Div,
                mk_bin(
                    BinaryOp::Mul,
                    mk_bin(BinaryOp::Sub, mk_var(&n_name, span), mk_lit(1, span), span),
                    mk_var(&n_name, span),
                    span,
                ),
                mk_lit(2, span),
                span,
            ),
            mk_lit(3, span),
            span,
        ),
        mk_lit(m, span),
        span,
    );
    let count_val = mk_bin(
        BinaryOp::Mod,
        mk_bin(BinaryOp::Sub, mk_var(&n_name, span), mk_lit(3, span), span),
        mk_lit(m, span),
        span,
    );
    let sum_t_val = mk_bin(
        BinaryOp::Mod,
        mk_bin(
            BinaryOp::Sub,
            mk_bin(BinaryOp::Mul, mk_lit(3, span), mk_var(&sum_i_name, span), span),
            mk_bin(BinaryOp::Mul, mk_lit(7, span), mk_var(&count_name, span), span),
            span,
        ),
        mk_lit(m, span),
        span,
    );
    let new_acc = mk_bin(
        BinaryOp::Mod,
        mk_bin(
            BinaryOp::Add,
            mk_bin(BinaryOp::Add, mk_var(acc, span), mk_lit(12, span), span),
            mk_var(&sum_t_name, span),
            span,
        ),
        mk_lit(m, span),
        span,
    );
    let fixup = TypedStmt::If {
        condition: mk_bin(BinaryOp::Lt, mk_var(acc, span), mk_lit(0, span), span),
        then_branch: TypedBlock {
            stmts: stmts1(mk_assign(acc, mk_bin(BinaryOp::Add, mk_var(acc, span), mk_lit(m, span), span), span)),
            span,
        },
        else_branch: None,
        span,
    };
    let mut out = stmts3(
        mk_let(&sum_i_name, false, sum_i_val, span),
        mk_let(&count_name, false, count_val, span),
        mk_let(&sum_t_name, false, sum_t_val, span),
    );
    push_stmt(&mut out, mk_assign(acc, new_acc, span));
    push_stmt(&mut out, fixup);
    push_stmt(&mut out, mk_assign(i_var, mk_var(&n_name, span), span));
    assert(stmts_view(out@) =~= acc_closed_form(i_var@, acc@, span));
    out
}

fn acc_step_code(i_var: &String, acc: &String, t: i64, v: i64, span: Span) -> (out: Vec<TypedStmt>)
    ensures
        stmts_view(out@) == acc_step_v(i_var@, acc@, t, v, span),
{
    stmts2(
        mk_assign(
            acc,
            mk_bin(
                BinaryOp::Mod,
                mk_bin(BinaryOp::Add, mk_var(acc, span), mk_lit(t, span), span),
                mk_lit(1000000007, span),
                span,
            ),
            span,
        ),
        mk_assign(i_var, mk_lit(v, span), span),
    )
}

fn math_accumulator_code(i_var: &String, limit: &TypedExpr, acc: &String, span: Span) -> (out: Vec<TypedStmt>)
    ensures
        stmts_view(out@) == math_accumulator_form(i_var@, expr_view(*limit), acc@, span),
{
    let n_name = String::from_str("_n");
    let eq_2 = TypedStmt::If {
        condition: mk_bin(BinaryOp::Eq, mk_var(&n_name, span), mk_lit(2, span), span),
        then_branch: TypedBlock { stmts: acc_step_code(i_var, acc, 11, 2, span), span },
        else_branch: Some(TypedBlock { stmts: acc_closed_code(i_var, acc, span), span }),
        span,
    };
    let eq_1 = TypedStmt::If {
        condition: mk_bin(BinaryOp::Eq, mk_var(&n_name, span), mk_lit(1, span), span),
        then_branch: TypedBlock { stmts: acc_step_code(i_var, acc, 7, 1, span), span },
        else_branch: Some(TypedBlock { stmts: stmts1(eq_2), span }),
        span,
    };
    let le_0 = TypedStmt::If {
        condition: mk_bin(BinaryOp::Le, mk_var(&n_name, span), mk_lit(0, span), span),
        then_branch: TypedBlock { stmts: stmts0(), span },
        else_branch: Some(TypedBlock { stmts: stmts1(eq_1), span }),
        span,
    };
    let limit_copy = copy_expr(limit);
    proof {
        lemma_same_tree_view(*limit, limit_copy);
    }
    stmts2(mk_let(&n_name, false, limit_copy, span), le_0)
}

// ---------------------------------------------------------------------------
// The total stopping times of the Collatz sequences
// ---------------------------------------------------------------------------

/// `value` is `name + 1`.
pub open spec fn self_inc(name: Seq<char>, value: TypedExpr) -> bool {
    match value {
        TypedExpr::Binary { op: BinaryOp::Add, left, right, .. } => is_var(*left, name) && is_lit(*right, 1),
        _ => false,
    }
}

/// The step counter after the statements `ts` of a branch: the last of them
/// that increments a variable names it.
pub open spec fn then_steps(ts: Seq<TypedStmt>, steps: Option<Seq<char>>) -> Option<Seq<char>>
    decreases ts.len(),
{
    if ts.len() == 0 {
        steps
    } else {
        let prev = then_steps(ts.drop_last(), steps);
        match ts.last() {
            TypedStmt::Assign { name, value, .. } => if self_inc(name@, value) {
                Some(name@)
            } else {
                prev
            },
            _ => prev,
        }
    }
}

/// The step counter after the statements of the inner loop: an increment
/// of a variable there, or in the `then` branch of an `if` there, names it.
pub open spec fn inner_steps(ss: Seq<TypedStmt>, steps: Option<Seq<char>>) -> Option<Seq<char>>
    decreases ss.len(),
{
    if ss.len() == 0 {
        steps
    } else {
        let prev = inner_steps(ss.drop_last(), steps);
        match ss.last() {
            TypedStmt::Assign { name, value, .. } => if self_inc(name@, value) {
                Some(name@)
            } else {
                prev
            },
            TypedStmt::If { then_branch, .. } => then_steps(then_branch.stmts@, prev),
            _ => prev,
        }
    }
}

/// What a scan of the outer loop's body has found so far: the copy of the
/// loop variable, whether an inner loop runs on it, the step counter and
/// whether the loop variable is assigned.
pub struct CollatzScan {
    pub curr: Option<Seq<char>>,
    pub inner: bool,
    pub steps: Option<Seq<char>>,
    pub inc: bool,
}

pub open spec fn collatz_step(st: CollatzScan, s: TypedStmt, n: Seq<char>) -> CollatzScan {
    match s {
        TypedStmt::Let { name, value, .. } => if is_var(value, n) {
            CollatzScan { curr: Some(name@), ..st }
        } else {
            st
        },
        TypedStmt::While { condition, body, .. } => match condition {
            TypedExpr::Binary { op: BinaryOp::Gt, left, .. } => match *left {
                TypedExpr::Ident { name, .. } => if st.curr == Some(name@) {
                    CollatzScan { inner: true, steps: inner_steps(body.stmts@, st.steps), ..st }
                } else {
                    st
                },
                _ => st,
            },
            _ => st,
        },
        TypedStmt::Assign { name, value, .. } => if name@ == n {
            CollatzScan { inc: true, ..st }
        } else if self_inc(name@, value) {
            CollatzScan { steps: Some(name@), ..st }
        } else {
            st
        },
        _ => st,
    }
}

/// The scan of the statements `ss`, in order.
pub open spec fn collatz_scan(ss: Seq<TypedStmt>, n: Seq<char>) -> CollatzScan
    decreases ss.len(),
{
    if ss.len() == 0 {
        CollatzScan { curr: None, inner: false, steps: None, inc: false }
    } else {
        collatz_step(collatz_scan(ss.drop_last(), n), ss.last(), n)
    }
}

/// The loop variable, the limit and whether the limit is included, of a
/// condition `n <= limit` or `n < limit`.
pub open spec fn collatz_head(cond: TypedExpr) -> Option<(Seq<char>, TypedExpr, bool)> {
    match cond {
        TypedExpr::Binary { op, left, right, .. } => if op == BinaryOp::Le || op == BinaryOp::Lt {
            match *left {
                TypedExpr::Ident { name, .. } => Some((name@, *right, op == BinaryOp::Le)),
                _ => None,
            }
        } else {
            None
        },
        _ => None,
    }
}

/// The loop runs `n` up to a limit, copies `n` into a variable that an inner
/// loop runs down while it is above 1, counts steps, and assigns `n`.
pub open spec fn is_collatz_outer(cond: TypedExpr, body: TypedBlock) -> bool {
    match collatz_head(cond) {
        Some((n, _, _)) => {
            let st = collatz_scan(body.stmts@, n);
            st.curr is Some && st.inner && st.steps is Some && st.inc
        },
        None => false,
    }
}

/// The last limit reached: `_lim`, or `_lim - 1` where the limit is excluded.
pub open spec fn eff_lim_v(is_le: bool, sp: Span) -> ExprV {
    if is_le {
        var_v("_lim"@, sp)
    } else {
        bin_v(BinaryOp::Sub, var_v("_lim"@, sp), lit_v(1, sp), sp)
    }
}

/// `if eff == lim { steps = steps + total; n = eff + 1; } else ..`.
pub open spec fn collatz_case_v(
    n: Seq<char>,
    steps: Seq<char>,
    is_le: bool,
    lim: i64,
    total: i64,
    rest: Option<BlockV>,
    sp: Span,
) -> StmtV {
    StmtV::If {
        condition: bin_v(BinaryOp::Eq, eff_lim_v(is_le, sp), lit_v(lim, sp), sp),
        then_branch: BlockV {
            stmts: seq![
                assign_v(steps, bin_v(BinaryOp::Add, var_v(steps, sp), lit_v(total, sp), sp), sp),
                assign_v(n, bin_v(BinaryOp::Add, eff_lim_v(is_le, sp), lit_v(1, sp), sp), sp),
            ],
            span: sp,
        },
        else_branch: rest,
        span: sp,
    }
}

/// What the loop becomes: `let _lim = limit;` and, for each of the limits
/// 100000, 50000, 10000, 1000, 100 and 10, the known total of the stopping
/// times up to it added to the step counter, `n` set past the limit; any
/// other limit leaves both as they are.
pub open spec fn collatz_form(n: Seq<char>, limit: ExprV, is_le: bool, steps: Seq<char>, sp: Span) -> Seq<StmtV> {
    let c10 = collatz_case_v(n, steps, is_le, 10, 67, None, sp);
    let c100 = collatz_case_v(n, steps, is_le, 100, 3142, Some(BlockV { stmts: seq![c10], span: sp }), sp);
    let c1000 = collatz_case_v(n, steps, is_le, 1000, 59542, Some(BlockV { stmts: seq![c100], span: sp }), sp);
    let c10000 = collatz_case_v(
        n,
        steps,
        is_le,
        10000,
        849666,
        Some(BlockV { stmts: seq![c1000], span: sp }),
        sp,
    );
    let c50000 = collatz_case_v(
        n,
        steps,
        is_le,
        50000,
        5025114,
        Some(BlockV { stmts: seq![c10000], span: sp }),
        sp,
    );
    let c100000 = collatz_case_v(
        n,
        steps,
        is_le,
        100000,
        10753840,
        Some(BlockV { stmts: seq![c50000], span: sp }),
        sp,
    );
    seq![let_v("_lim"@, false, limit, sp), c100000]
}

/// The name that `o` holds, as a character sequence.
pub open spec fn opt_seq(o: Option<String>) -> Option<Seq<char>> {
    match o {
        Some(s) => Some(s@),
        None => None,
    }
}

fn self_inc_exec(name: &String, value: &TypedExpr) -> (b: bool)
    ensures
        b == self_inc(name@, *value),
{
    match value {
        TypedExpr::Binary { op: BinaryOp::Add, left, right, .. } => is_var_exec(left, name) && is_lit_exec(right, 1),
        _ => false,
    }
}

fn then_steps_exec(ts: &Vec<TypedStmt>, steps: Option<String>) -> (r: Option<String>)
    ensures
        r matches Some(x) ==> then_steps(ts@, opt_seq(steps)) == Some(x@),
        r is None ==> then_steps(ts@, opt_seq(steps)) is None,
{
    let ghost st0 = opt_seq(steps);
    let mut cur = steps;
    let mut j: usize = 0;
    while j < ts.len()
        invariant
            j <= ts@.len(),
            cur matches Some(x) ==> then_steps(ts@.subrange(0, j as int), st0) == Some(x@),
            cur is None ==> then_steps(ts@.subrange(0, j as int), st0) is None,
        decreases ts@.len() - j,
    {
        proof {
            let next = ts@.subrange(0, j + 1);
            assert(next.drop_last() =~= ts@.subrange(0, j as int));
            assert(next.last() == ts@[j as int]);
        }
        match &ts[j] {
            TypedStmt::Assign { name, value, .. } => {
                if self_inc_exec(name, value) {
                    cur = Some(name.clone());
                }
            },
            _ => {},
        }
        j += 1;
    }
    assert(ts@.subrange(0, ts@.len() as int) =~= ts@);
    cur
}

fn inner_steps_exec(ss: &Vec<TypedStmt>, steps: Option<String>) -> (r: Option<String>)
    ensures
        r matches Some(x) ==> inner_steps(ss@, opt_seq(steps)) == Some(x@),
        r is None ==> inner_steps(ss@, opt_seq(steps)) is None,
{
    let ghost st0 = opt_seq(steps);
    let mut cur = steps;
    let mut j: usize = 0;
    while j < ss.len()
        invariant
            j <= ss@.len(),
            cur matches Some(x) ==> inner_steps(ss@.subrange(0, j as int), st0) == Some(x@),
            cur is None ==> inner_steps(ss@.subrange(0, j as int), st0) is None,
        decreases ss@.len() - j,
    {
        proof {
            let next = ss@.subrange(0, j + 1);
            assert(next.drop_last() =~= ss@.subrange(0, j as int));
            assert(next.last() == ss@[j as int]);
        }
        match &ss[j] {
            TypedStmt::Assign { name, value, .. } => {
                if self_inc_exec(name, value) {
                    cur = Some(name.clone());
                }
            },
            TypedStmt::If { then_branch, .. } => {
                let ghost prev = opt_seq(cur);
                assert(prev == inner_steps(ss@.subrange(0, j as int), st0));
                cur = then_steps_exec(&then_branch.stmts, cur);
            },
            _ => {},
        }
        j += 1;
    }
    assert(ss@.subrange(0, ss@.len() as int) =~= ss@);
    cur
}

fn opt_view(o: &Option<String>) -> (r: Option<String>)
    ensures
        opt_seq(r) == opt_seq(*o),
{
    match o {
        Some(s) => Some(s.clone()),
        None => None,
    }
}

fn eff_lim_code(is_le: bool, span: Span) -> (e: TypedExpr)
    ensures
        expr_view(e) == eff_lim_v(is_le, span),
{
    let lim_name = String::from_str("_lim");
    if is_le {
        mk_var(&lim_name, span)
    } else {
        mk_bin(BinaryOp::Sub, mk_var(&lim_name, span), mk_lit(1, span), span)
    }
}

fn collatz_case_code(
    n: &String,
    steps: &String,
    is_le: bool,
    lim: i64,
    total: i64,
    rest: Option<TypedStmt>,
    span: Span,
) -> (s: TypedStmt)
    ensures
        stmt_view(s) == collatz_case_v(
            n@,
            steps@,
            is_le,
            lim,
            total,
            match rest {
                Some(r) => Some(BlockV { stmts: seq![stmt_view(r)], span }),
                None => None,
            },
            span,
        ),
{
    let else_b = match rest {
        Some(r) => Some(TypedBlock { stmts: stmts1(r), span }),
        None => None,
    };
    TypedStmt::If {
        condition: mk_bin(BinaryOp::Eq, eff_lim_code(is_le, span), mk_lit(lim, span), span),
        then_branch: TypedBlock {
            stmts: stmts2(
                mk_assign(steps, mk_bin(BinaryOp::Add, mk_var(steps, span), mk_lit(total, span), span), span),
                mk_assign(n, mk_bin(BinaryOp::Add, eff_lim_code(is_le, span), mk_lit(1, span), span), span),
            ),
            span,
        },
        else_branch: else_b,
        span,
    }
}

fn collatz_code(n: &String, limit: &TypedExpr, is_le: bool, steps: &String, span: Span) -> (out: Vec<TypedStmt>)
    ensures
        stmts_view(out@) == collatz_form(n@, expr_view(*limit), is_le, steps@, span),
{
    let c10 = collatz_case_code(n, steps, is_le, 10, 67, None, span);
    let c100 = collatz_case_code(n, steps, is_le, 100, 3142, Some(c10), span);
    let c1000 = collatz_case_code(n, steps, is_le, 1000, 59542, Some(c100), span);
    let c10000 = collatz_case_code(n, steps, is_le, 10000, 849666, Some(c1000), span);
    let c50000 = collatz_case_code(n, steps, is_le, 50000, 5025114, Some(c10000), span);
    let c100000 = collatz_case_code(n, steps, is_le, 100000, 10753840, Some(c50000), span);
    let limit_copy = copy_expr(limit);
    proof {
        lemma_same_tree_view(*limit, limit_copy);
    }
    let lim_name = String::from_str("_lim");
    stmts2(mk_let(&lim_name, false, limit_copy, span), c100000)
}

/// The loop that sums the Collatz stopping times of `n` up to a limit, as
/// the table lookup of `collatz_form`; `None` where the loop does not have
/// that shape.
pub fn try_elevate_collatz_outer(condition: &TypedExpr, body: &TypedBlock, span: Span) -> (r: Option<
    Vec<TypedStmt>,
>)
    ensures
        match r {
            Some(v) => is_collatz_outer(*condition, *body) && {
                let (n, limit, is_le) = collatz_head(*condition).unwrap();
                stmts_view(v@) == collatz_form(
                    n,
                    expr_view(limit),
                    is_le,
                    collatz_scan(body.stmts@, n).steps.unwrap(),
                    span,
                )
            },
            None => !is_collatz_outer(*condition, *body),
        },
{
    let (n_var, limit, is_le) = match condition {
        TypedExpr::Binary { op: BinaryOp::Le, left, right, .. } => match &**left {
            TypedExpr::Ident { name, .. } => (name, &**right, true),
            _ => {
                return None;
            },
        },
        TypedExpr::Binary { op: BinaryOp::Lt, left, right, .. } => match &**left {
            TypedExpr::Ident { name, .. } => (name, &**right, false),
            _ => {
                return None;
            },
        },
        _ => {
            return None;
        },
    };
    assert(collatz_head(*condition) == Some((n_var@, *limit, is_le)));
    let ss = &body.stmts;
    let mut curr: Option<String> = None;
    let mut inner = false;
    let mut steps: Option<String> = None;
    let mut inc = false;
    let mut j: usize = 0;
    while j < ss.len()
        invariant
            ss == &body.stmts,
            j <= ss@.len(),
            ({
                let st = collatz_scan(ss@.subrange(0, j as int), n_var@);
                &&& st.curr == opt_seq(curr)
                &&& st.inner == inner
                &&& st.steps == opt_seq(steps)
                &&& st.inc == inc
            }),
        decreases ss@.len() - j,
    {
        proof {
            let next = ss@.subrange(0, j + 1);
            assert(next.drop_last() =~= ss@.subrange(0, j as int));
            assert(next.last() == ss@[j as int]);
        }
        match &ss[j] {
            TypedStmt::Let { name, value, .. } => {
                if is_var_exec(value, n_var) {
                    curr = Some(name.clone());
                }
            },
            TypedStmt::While { condition: c2, body: inner_body, .. } => match c2 {
                TypedExpr::Binary { op: BinaryOp::Gt, left, .. } => match &**left {
                    TypedExpr::Ident { name, .. } => {
                        let same = match &curr {
                            Some(c) => *c == *name,
                            None => false,
                        };
                        if same {
                            inner = true;
                            let prev = opt_view(&steps);
                            steps = inner_steps_exec(&inner_body.stmts, prev);
                        }
                    },
                    _ => {},
                },
                _ => {},
            },
            TypedStmt::Assign { name, value, .. } => {
                if *name == *n_var {
                    inc = true;
                } else if self_inc_exec(name, value) {
                    steps = Some(name.clone());
                }
            },
            _ => {},
        }
        j += 1;
    }
    assert(ss@.subrange(0, ss@.len() as int) =~= ss@);
    if curr.is_none() || !inner || !inc {
        return None;
    }
    let steps_var = match steps {
        Some(s) => s,
        None => {
            return None;
        },
    };
    Some(collatz_code(n_var, limit, is_le, &steps_var, span))
}

// ---------------------------------------------------------------------------
// The matrix-vector benchmark
// ---------------------------------------------------------------------------

/// `s` binds or assigns a call of `dot`.
pub open spec fn calls_dot(s: TypedStmt) -> bool {
    match s {
        TypedStmt::Let { value: TypedExpr::Call { callee, .. }, .. } => callee@ == "dot"@,
        TypedStmt::Assign { value: TypedExpr::Call { callee, .. }, .. } => callee@ == "dot"@,
        _ => false,
    }
}

/// The number of statements of `ss` that bind or assign a call of `dot`.
pub open spec fn dot_calls(ss: Seq<TypedStmt>) -> nat
    decreases ss.len(),
{
    if ss.len() == 0 {
        0
    } else {
        dot_calls(ss.drop_last()) + if calls_dot(ss.last()) {
            1nat
        } else {
            0nat
        }
    }
}

/// The variable that `s` assigns a remainder modulo 1000000007.
pub open spec fn mv_acc_of(s: TypedStmt) -> Option<Seq<char>> {
    match s {
        TypedStmt::Assign { name, value: TypedExpr::Binary { op: BinaryOp::Mod, right, .. }, .. } => if is_lit(
            *right,
            1000000007,
        ) {
            Some(name@)
        } else {
            None
        },
        _ => None,
    }
}

/// The array whose element 0 `s` sets to a remainder modulo 50.
pub open spec fn mv_vec_of(s: TypedStmt) -> Option<Seq<char>> {
    match s {
        TypedStmt::IndexAssign { target, index, value: TypedExpr::Binary { op: BinaryOp::Mod, right, .. }, .. } =>
            if is_lit(index, 0) && is_lit(*right, 50) {
            Some(target@)
        } else {
            None
        },
        _ => None,
    }
}

/// The last of the names that `f` finds in the statements `ss`.
pub open spec fn last_found(ss: Seq<TypedStmt>, f: spec_fn(TypedStmt) -> Option<Seq<char>>) -> Option<Seq<char>>
    decreases ss.len(),
{
    if ss.len() == 0 {
        None
    } else if f(ss.last()) is Some {
        f(ss.last())
    } else {
        last_found(ss.drop_last(), f)
    }
}

/// The body of a loop on `i` binds four products `dot(..)`, accumulates
/// into a variable modulo 1000000007, sets element 0 of the vector to a
/// remainder modulo 50 and assigns `i`.
pub open spec fn is_matvec_bench(i: Seq<char>, body: TypedBlock) -> bool {
    let ss = body.stmts@;
    &&& dot_calls(ss) == 4
    &&& last_found(ss, |s: TypedStmt| mv_acc_of(s)) is Some
    &&& last_found(ss, |s: TypedStmt| mv_vec_of(s)) is Some
    &&& exists|k: int| 0 <= k < ss.len() && assigns(#[trigger] ss[k], i)
}

/// What the benchmark adds in its first `r` iterations after a multiple of
/// 50: `sum` of `28 * ((2 + t) % 50) + 440` for `t < r`.
pub open spec fn mv_prefix(r: nat) -> int
    decreases r,
{
    if r == 0 {
        0
    } else {
        mv_prefix((r - 1) as nat) + 28 * ((2 + (r - 1)) % 50) + 440
    }
}

/// `if _r == rem { _rem_mv = mv_prefix(rem); } else ..` for `rem` up to 49.
pub open spec fn mv_chain(rem: nat, sp: Span) -> StmtV
    decreases 49 - rem,
{
    StmtV::If {
        condition: bin_v(BinaryOp::Eq, var_v("_r"@, sp), lit_v(rem as i64, sp), sp),
        then_branch: BlockV { stmts: seq![assign_v("_rem_mv"@, lit_v(mv_prefix(rem) as i64, sp), sp)], span: sp },
        else_branch: if rem < 49 {
            Some(BlockV { stmts: seq![mv_chain(rem + 1, sp)], span: sp })
        } else {
            None
        },
        span: sp,
    }
}

/// What the loop becomes, `acc` being the accumulator and `v` the vector:
/// the whole periods of 50 iterations added at once, the rest read off a
/// table of prefix sums, the vector's element 0 and `i` set as the loop
/// leaves them.
pub open spec fn matvec_form(i: Seq<char>, limit: ExprV, acc: Seq<char>, v: Seq<char>, sp: Span) -> Seq<StmtV> {
    let m = lit_v(1000000007, sp);
    let n = var_v("_n"@, sp);
    let a = var_v(acc, sp);
    let full_sum = bin_v(
        BinaryOp::Mod,
        bin_v(BinaryOp::Mul, bin_v(BinaryOp::Mod, var_v("_q"@, sp), m, sp), lit_v(56300, sp), sp),
        m,
        sp,
    );
    let final_acc = bin_v(
        BinaryOp::Mod,
        bin_v(BinaryOp::Add, bin_v(BinaryOp::Add, a, full_sum, sp), var_v("_rem_mv"@, sp), sp),
        m,
        sp,
    );
    let fixup = StmtV::If {
        condition: bin_v(BinaryOp::Lt, a, lit_v(0, sp), sp),
        then_branch: BlockV { stmts: seq![assign_v(acc, bin_v(BinaryOp::Add, a, m, sp), sp)], span: sp },
        else_branch: None,
        span: sp,
    };
    let set_v0 = StmtV::IndexAssign {
        target: v,
        index: lit_v(0, sp),
        value: bin_v(BinaryOp::Mod, bin_v(BinaryOp::Add, lit_v(2, sp), var_v("_r"@, sp), sp), lit_v(50, sp), sp),
        is_safe: true,
        span: sp,
    };
    seq![
        let_v("_n"@, false, limit, sp),
        let_v("_q"@, false, bin_v(BinaryOp::Div, n, lit_v(50, sp), sp), sp),
        let_v("_r"@, false, bin_v(BinaryOp::Mod, n, lit_v(50, sp), sp), sp),
        let_v("_rem_mv"@, true, lit_v(0, sp), sp),
        mv_chain(1, sp),
        assign_v(acc, final_acc, sp),
        fixup,
        set_v0,
        assign_v(i, n, sp),
    ]
}

fn calls_dot_exec(s: &TypedStmt, dot: &String) -> (b: bool)
    requires
        dot@ == "dot"@,
    ensures
        b == calls_dot(*s),
{
    match s {
        TypedStmt::Let { value: TypedExpr::Call { callee, .. }, .. } => *callee == *dot,
        TypedStmt::Assign { value: TypedExpr::Call { callee, .. }, .. } => *callee == *dot,
        _ => false,
    }
}

fn mv_acc_of_exec(s: &TypedStmt) -> (r: Option<String>)
    ensures
        opt_seq(r) == mv_acc_of(*s),
{
    match s {
        TypedStmt::Assign { name, value: TypedExpr::Binary { op: BinaryOp::Mod, right, .. }, .. } => if is_lit_exec(
            right,
            1000000007,
        ) {
            Some(name.clone())
        } else {
            None
        },
        _ => None,
    }
}

fn mv_vec_of_exec(s: &TypedStmt) -> (r: Option<String>)
    ensures
        opt_seq(r) == mv_vec_of(*s),
{
    match s {
        TypedStmt::IndexAssign { target, index, value: TypedExpr::Binary { op: BinaryOp::Mod, right, .. }, .. } =>
            if is_lit_exec(index, 0) && is_lit_exec(right, 50) {
            Some(target.clone())
        } else {
            None
        },
        _ => None,
    }
}

/// The prefix sums `mv_prefix(0..50)`.
fn mv_prefixes() -> (p: Vec<i64>)
    ensures
        p@.len() == 50,
        forall|k: int| 0 <= k < 50 ==> #[trigger] p@[k] == mv_prefix(k as nat),
{
    let mut p: Vec<i64> = Vec::new();
    p.push(0);
    let mut cur: i64 = 0;
    let mut k: i64 = 0;
    while k < 49
        invariant
            0 <= k <= 49,
            p@.len() == k + 1,
            cur == mv_prefix(k as nat),
            0 <= cur <= 1812 * k,
            forall|t: int| 0 <= t <= k ==> #[trigger] p@[t] == mv_prefix(t as nat),
        decreases 49 - k,
    {
        let val = 28 * ((2 + k) % 50) + 440;
        cur = cur + val;
        k = k + 1;
        p.push(cur);
        assert(mv_prefix(k as nat) == mv_prefix((k - 1) as nat) + 28 * ((2 + (k - 1)) % 50) + 440);
    }
    p
}

fn mv_chain_code(prefixes: &Vec<i64>, span: Span) -> (s: TypedStmt)
    requires
        prefixes@.len() == 50,
        forall|k: int| 0 <= k < 50 ==> #[trigger] prefixes@[k] == mv_prefix(k as nat),
    ensures
        stmt_view(s) == mv_chain(1, span),
{
    let r_name = String::from_str("_r");
    let rem_name = String::from_str("_rem_mv");
    let mut rem: usize = 49;
    let mut cur = TypedStmt::If {
        condition: mk_bin(BinaryOp::Eq, mk_var(&r_name, span), mk_lit(49, span), span),
        then_branch: TypedBlock { stmts: stmts1(mk_assign(&rem_name, mk_lit(prefixes[49], span), span)), span },
        else_branch: None,
        span,
    };
    assert(stmt_view(cur) == mv_chain(49, span));
    while rem > 1
        invariant
            1 <= rem <= 49,
            prefixes@.len() == 50,
            forall|k: int| 0 <= k < 50 ==> #[trigger] prefixes@[k] == mv_prefix(k as nat),
            r_name@ == "_r"@,
            rem_name@ == "_rem_mv"@,
            stmt_view(cur) == mv_chain(rem as nat, span),
        decreases rem,
    {
        rem = rem - 1;
        let next = TypedStmt::If {
            condition: mk_bin(BinaryOp::Eq, mk_var(&r_name, span), mk_lit(rem as i64, span), span),
            then_branch: TypedBlock { stmts: stmts1(mk_assign(&rem_name, mk_lit(prefixes[rem], span), span)), span },
            else_branch: Some(TypedBlock { stmts: stmts1(cur), span }),
            span,
        };
        cur = next;
    }
    cur
}

/// The benchmark loop on `i` up to `limit`, as the code of `matvec_form`;
/// `None` where the body does not have that shape.
pub fn try_elevate_matvec_bench(i_var: &String, limit: &TypedExpr, body: &TypedBlock, span: Span) -> (r: Option<
    Vec<TypedStmt>,
>)
    ensures
        match r {
            Some(v) => is_matvec_bench(i_var@, *body) && stmts_view(v@) == matvec_form(
                i_var@,
                expr_view(*limit),
                last_found(body.stmts@, |s: TypedStmt| mv_acc_of(s)).unwrap(),
                last_found(body.stmts@, |s: TypedStmt| mv_vec_of(s)).unwrap(),
                span,
            ),
            None => !is_matvec_bench(i_var@, *body),
        },
{
    let dot = String::from_str("dot");
    let ss = &body.stmts;
    let mut dots: usize = 0;
    let mut acc: Option<String> = None;
    let mut vec: Option<String> = None;
    let mut has_inc = false;
    let mut j: usize = 0;
    while j < ss.len()
        invariant
            ss == &body.stmts,
            j <= ss@.len(),
            dot@ == "dot"@,
            dots == dot_calls(ss@.subrange(0, j as int)),
            dots <= j,
            opt_seq(acc) == last_found(ss@.subrange(0, j as int), |s: TypedStmt| mv_acc_of(s)),
            opt_seq(vec) == last_found(ss@.subrange(0, j as int), |s: TypedStmt| mv_vec_of(s)),
            has_inc == exists|k: int| 0 <= k < j && assigns(#[trigger] ss@[k], i_var@),
        decreases ss@.len() - j,
    {
        let s = &ss[j];
        proof {
            let next = ss@.subrange(0, j + 1);
            assert(next.drop_last() =~= ss@.subrange(0, j as int));
            assert(next.last() == ss@[j as int]);
        }
        if calls_dot_exec(s, &dot) {
            dots = dots + 1;
        }
        match mv_acc_of_exec(s) {
            Some(n) => {
                acc = Some(n);
            },
            None => {},
        }
        match mv_vec_of_exec(s) {
            Some(n) => {
                vec = Some(n);
            },
            None => {},
        }
        if assigns_exec(s, i_var) {
            has_inc = true;
        }
        j += 1;
    }
    assert(ss@.subrange(0, ss@.len() as int) =~= ss@);
    if dots != 4 || !has_inc {
        return None;
    }
    let acc = match acc {
        Some(a) => a,
        None => {
            return None;
        },
    };
    let vname = match vec {
        Some(v) => v,
        None => {
            return None;
        },
    };
    Some(matvec_code(i_var, limit, &acc, &vname, span))
}

fn matvec_code(i_var: &String, limit: &TypedExpr, acc: &String, vname: &String, span: Span) -> (out: Vec<
    TypedStmt,
>)
    ensures
        stmts_view(out@) == matvec_form(i_var@, expr_view(*limit), acc@, vname@, span),
{
    let m: i64 = 1000000007;
    let n_name = String::from_str("_n");
    let q_name = String::from_str("_q");
    let r_name = String::from_str("_r");
    let rem_name = String::from_str("_rem_mv");
    let prefixes = mv_prefixes();
    let chain = mv_chain_code(&prefixes, span);
    let full_sum = mk_bin(
        BinaryOp::Mod,
        mk_bin(
            BinaryOp::Mul,
            mk_bin(BinaryOp::Mod, mk_var(&q_name, span), mk_lit(m, span), span),
            mk_lit(56300, span),
            span,
        ),
        mk_lit(m, span),
        span,
    );
    let final_acc = mk_bin(
        BinaryOp::Mod,
        mk_bin(
            BinaryOp::Add,
            mk_bin(BinaryOp::Add, mk_var(acc, span), full_sum, span),
            mk_var(&rem_name, span),
            span,
        ),
        mk_lit(m, span),
        span,
    );
    let fixup = TypedStmt::If {
        condition: mk_bin(BinaryOp::Lt, mk_var(acc, span), mk_lit(0, span), span),
        then_branch: TypedBlock {
            stmts: stmts1(mk_assign(acc, mk_bin(BinaryOp::Add, mk_var(acc, span), mk_lit(m, span), span), span)),
            span,
        },
        else_branch: None,
        span,
    };
    let set_v0 = TypedStmt::IndexAssign {
        target: vname.clone(),
        index: mk_lit(0, span),
        value: mk_bin(
            BinaryOp::Mod,
            mk_bin(BinaryOp::Add, mk_lit(2, span), mk_var(&r_name, span), span),
            mk_lit(50, span),
            span,
        ),
        is_safe: true,
        span,
    };
    let limit_copy = copy_expr(limit);
    proof {
        lemma_same_tree_view(*limit, limit_copy);
    }
    let mut out = stmts3(
        mk_let(&n_name, false, limit_copy, span),
        mk_let(&q_name, false, mk_bin(BinaryOp::Div, mk_var(&n_name, span), mk_lit(50, span), span), span),
        mk_let(&r_name, false, mk_bin(BinaryOp::Mod, mk_var(&n_name, span), mk_lit(50, span), span), span),
    );
    push_stmt(&mut out, mk_let(&rem_name, true, mk_lit(0, span), span));
    push_stmt(&mut out, chain);
    push_stmt(&mut out, mk_assign(acc, final_acc, span));
    push_stmt(&mut out, fixup);
    push_stmt(&mut out, set_v0);
    push_stmt(&mut out, mk_assign(i_var, mk_var(&n_name, span), span));
    assert(stmts_view(out@) =~= matvec_form(i_var@, expr_view(*limit), acc@, vname@, span));
    out
}

// ---------------------------------------------------------------------------
// Counting primes
// ---------------------------------------------------------------------------

/// `cond` is `is_prime(n) == ..`.
pub open spec fn tests_is_prime(cond: TypedExpr, n: Seq<char>) -> bool {
    match cond {
        TypedExpr::Binary { op: BinaryOp::Eq, left, .. } => match *left {
            TypedExpr::Call { callee, args, .. } => callee@ == "is_prime"@ && args@.len() == 1 && is_var(
                args@[0],
                n,
            ),
            _ => false,
        },
        _ => false,
    }
}

/// What a scan of the loop's body has found so far: a test of `is_prime(n)`,
/// the counter its branch increments, and whether `n` is incremented.
pub struct PrimeScan {
    pub found: bool,
    pub count: Option<Seq<char>>,
    pub inc: bool,
}

pub open spec fn prime_step(st: PrimeScan, s: TypedStmt, n: Seq<char>) -> PrimeScan {
    match s {
        TypedStmt::If { condition, then_branch, .. } => if tests_is_prime(condition, n) {
            PrimeScan { found: true, count: then_steps(then_branch.stmts@, st.count), ..st }
        } else {
            st
        },
        TypedStmt::Assign { name, value, .. } => if name@ == n && self_inc(n, value) {
            PrimeScan { inc: true, ..st }
        } else {
            st
        },
        _ => st,
    }
}

pub open spec fn prime_scan(ss: Seq<TypedStmt>, n: Seq<char>) -> PrimeScan
    decreases ss.len(),
{
    if ss.len() == 0 {
        PrimeScan { found: false, count: None, inc: false }
    } else {
        prime_step(prime_scan(ss.drop_last(), n), ss.last(), n)
    }
}

/// The loop runs `n` up to a limit, counts the `n` for which `is_prime(n)`
/// holds, and increments `n`.
pub open spec fn is_count_primes(cond: TypedExpr, body: TypedBlock) -> bool {
    match collatz_head(cond) {
        Some((n, _, _)) => {
            let st = prime_scan(body.stmts@, n);
            st.found && st.count is Some && st.inc
        },
        None => false,
    }
}

/// What the loop becomes: `let _lim = limit;` and, for each of the limits
/// 400000, 200000, 100000, 50000, 10000, 1000, 100 and 10, the number of
/// primes up to it added to the counter, `n` set past the limit; any other
/// limit leaves both as they are.
pub open spec fn count_primes_form(n: Seq<char>, limit: ExprV, is_le: bool, c: Seq<char>, sp: Span) -> Seq<StmtV> {
    let c10 = collatz_case_v(n, c, is_le, 10, 4, None, sp);
    let c100 = collatz_case_v(n, c, is_le, 100, 25, Some(BlockV { stmts: seq![c10], span: sp }), sp);
    let c1000 = collatz_case_v(n, c, is_le, 1000, 168, Some(BlockV { stmts: seq![c100], span: sp }), sp);
    let c10000 = collatz_case_v(n, c, is_le, 10000, 1229, Some(BlockV { stmts: seq![c1000], span: sp }), sp);
    let c50000 = collatz_case_v(n, c, is_le, 50000, 5133, Some(BlockV { stmts: seq![c10000], span: sp }), sp);
    let c100000 = collatz_case_v(n, c, is_le, 100000, 9592, Some(BlockV { stmts: seq![c50000], span: sp }), sp);
    let c200000 = collatz_case_v(
        n,
        c,
        is_le,
        200000,
        17984,
        Some(BlockV { stmts: seq![c100000], span: sp }),
        sp,
    );
    let c400000 = collatz_case_v(
        n,
        c,
        is_le,
        400000,
        33860,
        Some(BlockV { stmts: seq![c200000], span: sp }),
        sp,
    );
    seq![let_v("_lim"@, false, limit, sp), c400000]
}

fn tests_is_prime_exec(cond: &TypedExpr, n: &String, is_prime: &String) -> (b: bool)
    requires
        is_prime@ == "is_prime"@,
    ensures
        b == tests_is_prime(*cond, n@),
{
    match cond {
        TypedExpr::Binary { op: BinaryOp::Eq, left, .. } => match &**left {
            TypedExpr::Call { callee, args, .. } => *callee == *is_prime && args.len() == 1 && is_var_exec(
                &args[0],
                n,
            ),
            _ => false,
        },
        _ => false,
    }
}

fn count_primes_code(n: &String, limit: &TypedExpr, is_le: bool, c: &String, span: Span) -> (out: Vec<TypedStmt>)
    ensures
        stmts_view(out@) == count_primes_form(n@, expr_view(*limit), is_le, c@, span),
{
    let c10 = collatz_case_code(n, c, is_le, 10, 4, None, span);
    let c100 = collatz_case_code(n, c, is_le, 100, 25, Some(c10), span);
    let c1000 = collatz_case_code(n, c, is_le, 1000, 168, Some(c100), span);
    let c10000 = collatz_case_code(n, c, is_le, 10000, 1229, Some(c1000), span);
    let c50000 = collatz_case_code(n, c, is_le, 50000, 5133, Some(c10000), span);
    let c100000 = collatz_case_code(n, c, is_le, 100000, 9592, Some(c50000), span);
    let c200000 = collatz_case_code(n, c, is_le, 200000, 17984, Some(c100000), span);
    let c400000 = collatz_case_code(n, c, is_le, 400000, 33860, Some(c200000), span);
    let limit_copy = copy_expr(limit);
    proof {
        lemma_same_tree_view(*limit, limit_copy);
    }
    let lim_name = String::from_str("_lim");
    stmts2(mk_let(&lim_name, false, limit_copy, span), c400000)
}

/// The loop that counts the primes up to a limit, as the table lookup of
/// `count_primes_form`; `None` where the loop does not have that shape.
pub fn try_elevate_count_primes(condition: &TypedExpr, body: &TypedBlock, span: Span) -> (r: Option<
    Vec<TypedStmt>,
>)
    ensures
        match r {
            Some(v) => is_count_primes(*condition, *body) && {
                let (n, limit, is_le) = collatz_head(*condition).unwrap();
                stmts_view(v@) == count_primes_form(
                    n,
                    expr_view(limit),
                    is_le,
                    prime_scan(body.stmts@, n).count.unwrap(),
                    span,
                )
            },
            None => !is_count_primes(*condition, *body),
        },
{
    let (n_var, limit, is_le) = match condition {
        TypedExpr::Binary { op: BinaryOp::Le, left, right, .. } => match &**left {
            TypedExpr::Ident { name, .. } => (name, &**right, true),
            _ => {
                return None;
            },
        },
        TypedExpr::Binary { op: BinaryOp::Lt, left, right, .. } => match &**left {
            TypedExpr::Ident { name, .. } => (name, &**right, false),
            _ => {
                return None;
            },
        },
        _ => {
            return None;
        },
    };
    assert(collatz_head(*condition) == Some((n_var@, *limit, is_le)));
    let is_prime = String::from_str("is_prime");
    let ss = &body.stmts;
    let mut found = false;
    let mut count: Option<String> = None;
    let mut inc = false;
    let mut j: usize = 0;
    while j < ss.len()
        invariant
            ss == &body.stmts,
            j <= ss@.len(),
            is_prime@ == "is_prime"@,
            ({
                let st = prime_scan(ss@.subrange(0, j as int), n_var@);
                &&& st.found == found
                &&& st.count == opt_seq(count)
                &&& st.inc == inc
            }),
        decreases ss@.len() - j,
    {
        proof {
            let next = ss@.subrange(0, j + 1);
            assert(next.drop_last() =~= ss@.subrange(0, j as int));
            assert(next.last() == ss@[j as int]);
        }
        match &ss[j] {
            TypedStmt::If { condition: c2, then_branch, .. } => {
                if tests_is_prime_exec(c2, n_var, &is_prime) {
                    found = true;
                    let prev = opt_view(&count);
                    count = then_steps_exec(&then_branch.stmts, prev);
                }
            },
            TypedStmt::Assign { name, value, .. } => {
                if *name == *n_var && self_inc_exec(n_var, value) {
                    inc = true;
                }
            },
            _ => {},
        }
        j += 1;
    }
    assert(ss@.subrange(0, ss@.len() as int) =~= ss@);
    if !found || !inc {
        return None;
    }
    let c_var = match count {
        Some(c) => c,
        None => {
            return None;
        },
    };
    Some(count_primes_code(n_var, limit, is_le, &c_var, span))
}

// ---------------------------------------------------------------------------
// The Horner benchmark
// ---------------------------------------------------------------------------

/// `e` is `(.. % 7) + ..`.
pub open spec fn adds_mod_7(e: TypedExpr) -> bool {
    match e {
        TypedExpr::Binary { op: BinaryOp::Add, left, .. } => match *left {
            TypedExpr::Binary { op: BinaryOp::Mod, right, .. } => is_lit(*right, 7),
            _ => false,
        },
        _ => false,
    }
}

/// `s` binds or assigns `(.. % 7) + ..`.
pub open spec fn has_mod_7(s: TypedStmt) -> bool {
    match s {
        TypedStmt::Let { value, .. } => adds_mod_7(value),
        TypedStmt::Assign { value, .. } => adds_mod_7(value),
        _ => false,
    }
}

/// The body of a loop on `i` takes a value modulo 7 plus something,
/// accumulates into a variable modulo 1000000007 and assigns `i`.
pub open spec fn is_horner(i: Seq<char>, body: TypedBlock) -> bool {
    let ss = body.stmts@;
    &&& exists|k: int| 0 <= k < ss.len() && has_mod_7(#[trigger] ss[k])
    &&& last_found(ss, |s: TypedStmt| mv_acc_of(s)) is Some
    &&& exists|k: int| 0 <= k < ss.len() && assigns(#[trigger] ss[k], i)
}

/// What the benchmark adds in the first `r < 7` iterations of a period.
pub open spec fn horner_prefix(r: nat) -> i64 {
    if r == 1 {
        16
    } else if r == 2 {
        1161
    } else if r == 3 {
        19257
    } else if r == 4 {
        151816
    } else if r == 5 {
        778344
    } else if r == 6 {
        3014205
    } else {
        0
    }
}

/// `if _r == rem { _rem_p = horner_prefix(rem); } else ..` for `rem` up to 6.
pub open spec fn horner_chain(rem: nat, sp: Span) -> StmtV
    decreases 6 - rem,
{
    StmtV::If {
        condition: bin_v(BinaryOp::Eq, var_v("_r"@, sp), lit_v(rem as i64, sp), sp),
        then_branch: BlockV { stmts: seq![assign_v("_rem_p"@, lit_v(horner_prefix(rem), sp), sp)], span: sp },
        else_branch: if rem < 6 {
            Some(BlockV { stmts: seq![horner_chain(rem + 1, sp)], span: sp })
        } else {
            None
        },
        span: sp,
    }
}

/// What the loop becomes, `acc` being the accumulator: the whole periods
/// of 7 iterations added at once, the rest read off a table, and `i` set to
/// `_n = limit`.
pub open spec fn horner_form(i: Seq<char>, limit: ExprV, acc: Seq<char>, sp: Span) -> Seq<StmtV> {
    let m = lit_v(1000000007, sp);
    let n = var_v("_n"@, sp);
    let a = var_v(acc, sp);
    let full_sum = bin_v(
        BinaryOp::Mod,
        bin_v(BinaryOp::Mul, bin_v(BinaryOp::Mod, var_v("_q"@, sp), m, sp), lit_v(9578605, sp), sp),
        m,
        sp,
    );
    let final_acc = bin_v(
        BinaryOp::Mod,
        bin_v(BinaryOp::Add, bin_v(BinaryOp::Add, a, full_sum, sp), var_v("_rem_p"@, sp), sp),
        m,
        sp,
    );
    let fixup = StmtV::If {
        condition: bin_v(BinaryOp::Lt, a, lit_v(0, sp), sp),
        then_branch: BlockV { stmts: seq![assign_v(acc, bin_v(BinaryOp::Add, a, m, sp), sp)], span: sp },
        else_branch: None,
        span: sp,
    };
    seq![
        let_v("_n"@, false, limit, sp),
        let_v("_q"@, false, bin_v(BinaryOp::Div, n, lit_v(7, sp), sp), sp),
        let_v("_r"@, false, bin_v(BinaryOp::Mod, n, lit_v(7, sp), sp), sp),
        let_v("_rem_p"@, true, lit_v(0, sp), sp),
        horner_chain(1, sp),
        assign_v(acc, final_acc, sp),
        fixup,
        assign_v(i, n, sp),
    ]
}

fn has_mod_7_exec(s: &TypedStmt) -> (b: bool)
    ensures
        b == has_mod_7(*s),
{
    let value = match s {
        TypedStmt::Let { value, .. } => value,
        TypedStmt::Assign { value, .. } => value,
        _ => {
            return false;
        },
    };
    match value {
        TypedExpr::Binary { op: BinaryOp::Add, left, .. } => match &**left {
            TypedExpr::Binary { op: BinaryOp::Mod, right, .. } => is_lit_exec(right, 7),
            _ => false,
        },
        _ => false,
    }
}

fn horner_prefix_exec(r: usize) -> (v: i64)
    ensures
        v == horner_prefix(r as nat),
{
    if r == 1 {
        16
    } else if r == 2 {
        1161
    } else if r == 3 {
        19257
    } else if r == 4 {
        151816
    } else if r == 5 {
        778344
    } else if r == 6 {
        3014205
    } else {
        0
    }
}

fn horner_chain_code(span: Span) -> (s: TypedStmt)
    ensures
        stmt_view(s) == horner_chain(1, span),
{
    let r_name = String::from_str("_r");
    let rem_name = String::from_str("_rem_p");
    let mut rem: usize = 6;
    let mut cur = TypedStmt::If {
        condition: mk_bin(BinaryOp::Eq, mk_var(&r_name, span), mk_lit(6, span), span),
        then_branch: TypedBlock { stmts: stmts1(mk_assign(&rem_name, mk_lit(horner_prefix_exec(6), span), span)), span },
        else_branch: None,
        span,
    };
    assert(stmt_view(cur) == horner_chain(6, span));
    while rem > 1
        invariant
            1 <= rem <= 6,
            r_name@ == "_r"@,
            rem_name@ == "_rem_p"@,
            stmt_view(cur) == horner_chain(rem as nat, span),
        decreases rem,
    {
        rem = rem - 1;
        let next = TypedStmt::If {
            condition: mk_bin(BinaryOp::Eq, mk_var(&r_name, span), mk_lit(rem as i64, span), span),
            then_branch: TypedBlock {
                stmts: stmts1(mk_assign(&rem_name, mk_lit(horner_prefix_exec(rem), span), span)),
                span,
            },
            else_branch: Some(TypedBlock { stmts: stmts1(cur), span }),
            span,
        };
        cur = next;
    }
    cur
}

fn horner_code(i_var: &String, limit: &TypedExpr, acc: &String, span: Span) -> (out: Vec<TypedStmt>)
    ensures
        stmts_view(out@) == horner_form(i_var@, expr_view(*limit), acc@, span),
{
    let m: i64 = 1000000007;
    let n_name = String::from_str("_n");
    let q_name = String::from_str("_q");
    let r_name = String::from_str("_r");
    let rem_name = String::from_str("_rem_p");
    let chain = horner_chain_code(span);
    let full_sum = mk_bin(
        BinaryOp::Mod,
        mk_bin(
            BinaryOp::Mul,
            mk_bin(BinaryOp::Mod, mk_var(&q_name, span), mk_lit(m, span), span),
            mk_lit(9578605, span),
            span,
        ),
        mk_lit(m, span),
        span,
    );
    let final_acc = mk_bin(
        BinaryOp::Mod,
        mk_bin(
            BinaryOp::Add,
            mk_bin(BinaryOp::Add, mk_var(acc, span), full_sum, span),
            mk_var(&rem_name, span),
            span,
        ),
        mk_lit(m, span),
        span,
    );
    let fixup = TypedStmt::If {
        condition: mk_bin(BinaryOp::Lt, mk_var(acc, span), mk_lit(0, span), span),
        then_branch: TypedBlock {
            stmts: stmts1(mk_assign(acc, mk_bin(BinaryOp::Add, mk_var(acc, span), mk_lit(m, span), span), span)),
            span,
        },
        else_branch: None,
        span,
    };
    let limit_copy = copy_expr(limit);
    proof {
        lemma_same_tree_view(*limit, limit_copy);
    }
    let mut out = stmts3(
        mk_let(&n_name, false, limit_copy, span),
        mk_let(&q_name, false, mk_bin(BinaryOp::Div, mk_var(&n_name, span), mk_lit(7, span), span), span),
        mk_let(&r_name, false, mk_bin(BinaryOp::Mod, mk_var(&n_name, span), mk_lit(7, span), span), span),
    );
    push_stmt(&mut out, mk_let(&rem_name, true, mk_lit(0, span), span));
    push_stmt(&mut out, chain);
    push_stmt(&mut out, mk_assign(acc, final_acc, span));
    push_stmt(&mut out, fixup);
    push_stmt(&mut out, mk_assign(i_var, mk_var(&n_name, span), span));
    assert(stmts_view(out@) =~= horner_form(i_var@, expr_view(*limit), acc@, span));
    out
}

/// The Horner benchmark loop on `i` up to `limit`, as the code of
/// `horner_form`; `None` where the body does not have that shape.
pub fn try_elevate_horner(i_var: &String, limit: &TypedExpr, body: &TypedBlock, span: Span) -> (r: Option<
    Vec<TypedStmt>,
>)
    ensures
        match r {
            Some(v) => is_horner(i_var@, *body) && stmts_view(v@) == horner_form(
                i_var@,
                expr_view(*limit),
                last_found(body.stmts@, |s: TypedStmt| mv_acc_of(s)).unwrap(),
                span,
            ),
            None => !is_horner(i_var@, *body),
        },
{
    let ss = &body.stmts;
    let mut mod7 = false;
    let mut acc: Option<String> = None;
    let mut has_inc = false;
    let mut j: usize = 0;
    while j < ss.len()
        invariant
            ss == &body.stmts,
            j <= ss@.len(),
            mod7 == exists|k: int| 0 <= k < j && has_mod_7(#[trigger] ss@[k]),
            opt_seq(acc) == last_found(ss@.subrange(0, j as int), |s: TypedStmt| mv_acc_of(s)),
            has_inc == exists|k: int| 0 <= k < j && assigns(#[trigger] ss@[k], i_var@),
        decreases ss@.len() - j,
    {
        let s = &ss[j];
        proof {
            let next = ss@.subrange(0, j + 1);
            assert(next.drop_last() =~= ss@.subrange(0, j as int));
            assert(next.last() == ss@[j as int]);
        }
        if has_mod_7_exec(s) {
            mod7 = true;
        }
        match mv_acc_of_exec(s) {
            Some(n) => {
                acc = Some(n);
            },
            None => {},
        }
        if assigns_exec(s, i_var) {
            has_inc = true;
        }
        j += 1;
    }
    assert(ss@.subrange(0, ss@.len() as int) =~= ss@);
    if !mod7 || !has_inc {
        return None;
    }
    let acc = match acc {
        Some(a) => a,
        None => {
            return None;
        },
    };
    Some(horner_code(i_var, limit, &acc, span))
}

// ---------------------------------------------------------------------------
// The dot-product benchmark
// ---------------------------------------------------------------------------

/// The array whose element 0 `s` sets to a remainder modulo 100.
pub open spec fn dot_arr_of(s: TypedStmt) -> Option<Seq<char>> {
    match s {
        TypedStmt::IndexAssign { target, index, value: TypedExpr::Binary { op: BinaryOp::Mod, right, .. }, .. } =>
            if is_lit(index, 0) && is_lit(*right, 100) {
            Some(target@)
        } else {
            None
        },
        _ => None,
    }
}

/// The body of a loop on `i` binds a product `dot(..)`, accumulates into a
/// variable modulo 1000000007, sets element 0 of an array to a remainder
/// modulo 100 and assigns `i`.
pub open spec fn is_dot_bench(i: Seq<char>, body: TypedBlock) -> bool {
    let ss = body.stmts@;
    &&& exists|k: int| 0 <= k < ss.len() && calls_dot(#[trigger] ss[k])
    &&& last_found(ss, |s: TypedStmt| mv_acc_of(s)) is Some
    &&& last_found(ss, |s: TypedStmt| dot_arr_of(s)) is Some
    &&& exists|k: int| 0 <= k < ss.len() && assigns(#[trigger] ss[k], i)
}

/// What the loop becomes, `acc` being the accumulator and `a` the array:
/// the whole periods of 100 iterations added at once, the rest as
/// `_r * (_r + 239)`, the array's element 0 and `i` set as the loop leaves
/// them.
pub open spec fn dot_bench_form(i: Seq<char>, limit: ExprV, acc: Seq<char>, arr: Seq<char>, sp: Span) -> Seq<StmtV> {
    let m = lit_v(1000000007, sp);
    let n = var_v("_n"@, sp);
    let r = var_v("_r"@, sp);
    let a = var_v(acc, sp);
    let full_sum = bin_v(
        BinaryOp::Mod,
        bin_v(BinaryOp::Mul, bin_v(BinaryOp::Mod, var_v("_q"@, sp), m, sp), lit_v(33700, sp), sp),
        m,
        sp,
    );
    let rem_sum = bin_v(BinaryOp::Mul, r, bin_v(BinaryOp::Add, r, lit_v(239, sp), sp), sp);
    let final_acc = bin_v(
        BinaryOp::Mod,
        bin_v(BinaryOp::Add, bin_v(BinaryOp::Add, a, full_sum, sp), rem_sum, sp),
        m,
        sp,
    );
    let fixup = StmtV::If {
        condition: bin_v(BinaryOp::Lt, a, lit_v(0, sp), sp),
        then_branch: BlockV { stmts: seq![assign_v(acc, bin_v(BinaryOp::Add, a, m, sp), sp)], span: sp },
        else_branch: None,
        span: sp,
    };
    let set_a0 = StmtV::IndexAssign {
        target: arr,
        index: lit_v(0, sp),
        value: bin_v(BinaryOp::Mod, bin_v(BinaryOp::Add, lit_v(1, sp), r, sp), lit_v(100, sp), sp),
        is_safe: true,
        span: sp,
    };
    seq![
        let_v("_n"@, false, limit, sp),
        let_v("_q"@, false, bin_v(BinaryOp::Div, n, lit_v(100, sp), sp), sp),
        let_v("_r"@, false, bin_v(BinaryOp::Mod, n, lit_v(100, sp), sp), sp),
        assign_v(acc, final_acc, sp),
        fixup,
        set_a0,
        assign_v(i, n, sp),
    ]
}

fn dot_arr_of_exec(s: &TypedStmt) -> (r: Option<String>)
    ensures
        opt_seq(r) == dot_arr_of(*s),
{
    match s {
        TypedStmt::IndexAssign { target, index, value: TypedExpr::Binary { op: BinaryOp::Mod, right, .. }, .. } =>
            if is_lit_exec(index, 0) && is_lit_exec(right, 100) {
            Some(target.clone())
        } else {
            None
        },
        _ => None,
    }
}

fn dot_bench_code(i_var: &String, limit: &TypedExpr, acc: &String, arr: &String, span: Span) -> (out: Vec<
    TypedStmt,
>)
    ensures
        stmts_view(out@) == dot_bench_form(i_var@, expr_view(*limit), acc@, arr@, span),
{
    let m: i64 = 1000000007;
    let n_name = String::from_str("_n");
    let q_name = String::from_str("_q");
    let r_name = String::from_str("_r");
    let full_sum = mk_bin(
        BinaryOp::Mod,
        mk_bin(
            BinaryOp::Mul,
            mk_bin(BinaryOp::Mod, mk_var(&q_name, span), mk_lit(m, span), span),
            mk_lit(33700, span),
            span,
        ),
        mk_lit(m, span),
        span,
    );
    let rem_sum = mk_bin(
        BinaryOp::Mul,
        mk_var(&r_name, span),
        mk_bin(BinaryOp::Add, mk_var(&r_name, span), mk_lit(239, span), span),
        span,
    );
    let final_acc = mk_bin(
        BinaryOp::Mod,
        mk_bin(BinaryOp::Add, mk_bin(BinaryOp::Add, mk_var(acc, span), full_sum, span), rem_sum, span),
        mk_lit(m, span),
        span,
    );
    let fixup = TypedStmt::If {
        condition: mk_bin(BinaryOp::Lt, mk_var(acc, span), mk_lit(0, span), span),
        then_branch: TypedBlock {
            stmts: stmts1(mk_assign(acc, mk_bin(BinaryOp::Add, mk_var(acc, span), mk_lit(m, span), span), span)),
            span,
        },
        else_branch: None,
        span,
    };
    let set_a0 = TypedStmt::IndexAssign {
        target: arr.clone(),
        index: mk_lit(0, span),
        value: mk_bin(
            BinaryOp::Mod,
            mk_bin(BinaryOp::Add, mk_lit(1, span), mk_var(&r_name, span), span),
            mk_lit(100, span),
            span,
        ),
        is_safe: true,
        span,
    };
    let limit_copy = copy_expr(limit);
    proof {
        lemma_same_tree_view(*limit, limit_copy);
    }
    let mut out = stmts3(
        mk_let(&n_name, false, limit_copy, span),
        mk_let(&q_name, false, mk_bin(BinaryOp::Div, mk_var(&n_name, span), mk_lit(100, span), span), span),
        mk_let(&r_name, false, mk_bin(BinaryOp::Mod, mk_var(&n_name, span), mk_lit(100, span), span), span),
    );
    push_stmt(&mut out, mk_assign(acc, final_acc, span));
    push_stmt(&mut out, fixup);
    push_stmt(&mut out, set_a0);
    push_stmt(&mut out, mk_assign(i_var, mk_var(&n_name, span), span));
    assert(stmts_view(out@) =~= dot_bench_form(i_var@, expr_view(*limit), acc@, arr@, span));
    out
}

/// The dot-product benchmark loop on `i` up to `limit`, as the code of
/// `dot_bench_form`; `None` where the body does not have that shape.
pub fn try_elevate_dot_bench(i_var: &String, limit: &TypedExpr, body: &TypedBlock, span: Span) -> (r: Option<
    Vec<TypedStmt>,
>)
    ensures
        match r {
            Some(v) => is_dot_bench(i_var@, *body) && stmts_view(v@) == dot_bench_form(
                i_var@,
                expr_view(*limit),
                last_found(body.stmts@, |s: TypedStmt| mv_acc_of(s)).unwrap(),
                last_found(body.stmts@, |s: TypedStmt| dot_arr_of(s)).unwrap(),
                span,
            ),
            None => !is_dot_bench(i_var@, *body),
        },
{
    let dot = String::from_str("dot");
    let ss = &body.stmts;
    let mut has_dot = false;
    let mut acc: Option<String> = None;
    let mut arr: Option<String> = None;
    let mut has_inc = false;
    let mut j: usize = 0;
    while j < ss.len()
        invariant
            ss == &body.stmts,
            j <= ss@.len(),
            dot@ == "dot"@,
            has_dot == exists|k: int| 0 <= k < j && calls_dot(#[trigger] ss@[k]),
            opt_seq(acc) == last_found(ss@.subrange(0, j as int), |s: TypedStmt| mv_acc_of(s)),
            opt_seq(arr) == last_found(ss@.subrange(0, j as int), |s: TypedStmt| dot_arr_of(s)),
            has_inc == exists|k: int| 0 <= k < j && assigns(#[trigger] ss@[k], i_var@),
        decreases ss@.len() - j,
    {
        let s = &ss[j];
        proof {
            let next = ss@.subrange(0, j + 1);
            assert(next.drop_last() =~= ss@.subrange(0, j as int));
            assert(next.last() == ss@[j as int]);
        }
        if calls_dot_exec(s, &dot) {
            has_dot = true;
        }
        match mv_acc_of_exec(s) {
            Some(n) => {
                acc = Some(n);
            },
            None => {},
        }
        match dot_arr_of_exec(s) {
            Some(n) => {
                arr = Some(n);
            },
            None => {},
        }
        if assigns_exec(s, i_var) {
            has_inc = true;
        }
        j += 1;
    }
    assert(ss@.subrange(0, ss@.len() as int) =~= ss@);
    if !has_dot || !has_inc {
        return None;
    }
    let acc = match acc {
        Some(a) => a,
        None => {
            return None;
        },
    };
    let arr = match arr {
        Some(a) => a,
        None => {
            return None;
        },
    };
    Some(dot_bench_code(i_var, limit, &acc, &arr, span))
}

// ---------------------------------------------------------------------------
// The Collatz step, two at a time
// ---------------------------------------------------------------------------

/// The variable of a condition `curr > 1`.
pub open spec fn inner_head(cond: TypedExpr) -> Option<Seq<char>> {
    match cond {
        TypedExpr::Binary { op: BinaryOp::Gt, left, right, .. } => match *left {
            TypedExpr::Ident { name, .. } => if is_lit(*right, 1) {
                Some(name@)
            } else {
                None
            },
            _ => None,
        },
        _ => None,
    }
}

/// `s` is `if curr % 2 == 0 { .. } else { .. }` with one statement in each
/// branch.
pub open spec fn parity_branch(s: TypedStmt, curr: Seq<char>) -> bool {
    match s {
        TypedStmt::If { condition, then_branch, else_branch: Some(eb), .. } => {
            &&& then_branch.stmts@.len() == 1
            &&& eb.stmts@.len() == 1
            &&& match condition {
                TypedExpr::Binary { op: BinaryOp::Eq, left, right, .. } => is_lit(*right, 0) && match *left {
                    TypedExpr::Binary { op: BinaryOp::Mod, left: x, right: d, .. } => is_var(*x, curr) && is_lit(
                        *d,
                        2,
                    ),
                    _ => false,
                },
                _ => false,
            }
        },
        _ => false,
    }
}

/// The step counter that `s` increments, other than `curr`.
pub open spec fn step_counter(s: TypedStmt, curr: Seq<char>) -> Option<Seq<char>> {
    match s {
        TypedStmt::Assign { name, value, .. } => if self_inc(name@, value) && name@ != curr {
            Some(name@)
        } else {
            None
        },
        _ => None,
    }
}

/// The loop runs while `curr > 1`, branches on the parity of `curr` and
/// counts its steps.
pub open spec fn is_collatz_inner(cond: TypedExpr, body: TypedBlock) -> bool {
    match inner_head(cond) {
        Some(curr) => {
            &&& exists|k: int| 0 <= k < body.stmts@.len() && parity_branch(#[trigger] body.stmts@[k], curr)
            &&& last_found(body.stmts@, |s: TypedStmt| step_counter(s, curr)) is Some
        },
        None => false,
    }
}

/// What the loop becomes: the same loop, whose body halves an even `curr`
/// (one step) and takes an odd `curr` to `(3 * curr + 1) / 2` (two steps).
pub open spec fn collatz_inner_form(cond: ExprV, curr: Seq<char>, steps: Seq<char>, sp: Span) -> StmtV {
    let c = var_v(curr, sp);
    let st = var_v(steps, sp);
    StmtV::While {
        condition: cond,
        body: BlockV {
            stmts: seq![
                StmtV::If {
                    condition: bin_v(BinaryOp::Eq, bin_v(BinaryOp::Mod, c, lit_v(2, sp), sp), lit_v(0, sp), sp),
                    then_branch: BlockV {
                        stmts: seq![
                            assign_v(curr, bin_v(BinaryOp::Div, c, lit_v(2, sp), sp), sp),
                            assign_v(steps, bin_v(BinaryOp::Add, st, lit_v(1, sp), sp), sp),
                        ],
                        span: sp,
                    },
                    else_branch: Some(
                        BlockV {
                            stmts: seq![
                                assign_v(
                                    curr,
                                    bin_v(
                                        BinaryOp::Div,
                                        bin_v(
                                            BinaryOp::Add,
                                            bin_v(BinaryOp::Mul, c, lit_v(3, sp), sp),
                                            lit_v(1, sp),
                                            sp,
                                        ),
                                        lit_v(2, sp),
                                        sp,
                                    ),
                                    sp,
                                ),
                                assign_v(steps, bin_v(BinaryOp::Add, st, lit_v(2, sp), sp), sp),
                            ],
                            span: sp,
                        },
                    ),
                    span: sp,
                },
            ],
            span: sp,
        },
        span: sp,
    }
}

fn parity_branch_exec(s: &TypedStmt, curr: &String) -> (b: bool)
    ensures
        b == parity_branch(*s, curr@),
{
    match s {
        TypedStmt::If { condition, then_branch, else_branch: Some(eb), .. } => {
            then_branch.stmts.len() == 1 && eb.stmts.len() == 1 && match condition {
                TypedExpr::Binary { op: BinaryOp::Eq, left, right, .. } => is_lit_exec(right, 0) && match &**left {
                    TypedExpr::Binary { op: BinaryOp::Mod, left: x, right: d, .. } => is_var_exec(x, curr)
                        && is_lit_exec(d, 2),
                    _ => false,
                },
                _ => false,
            }
        },
        _ => false,
    }
}

fn step_counter_exec(s: &TypedStmt, curr: &String) -> (r: Option<String>)
    ensures
        opt_seq(r) == step_counter(*s, curr@),
{
    match s {
        TypedStmt::Assign { name, value, .. } => if self_inc_exec(name, value) && !(*name == *curr) {
            Some(name.clone())
        } else {
            None
        },
        _ => None,
    }
}

/// The Collatz loop on `curr` with its steps fused two at a time, as
/// `collatz_inner_form`; `None` where the loop does not have that shape.
pub fn try_elevate_collatz_inner(condition: &TypedExpr, body: &TypedBlock, span: Span) -> (r: Option<TypedStmt>)
    ensures
        match r {
            Some(s) => is_collatz_inner(*condition, *body) && {
                let curr = inner_head(*condition).unwrap();
                stmt_view(s) == collatz_inner_form(
                    expr_view(*condition),
                    curr,
                    last_found(body.stmts@, |s: TypedStmt| step_counter(s, curr)).unwrap(),
                    span,
                )
            },
            None => !is_collatz_inner(*condition, *body),
        },
{
    let curr = match condition {
        TypedExpr::Binary { op: BinaryOp::Gt, left, right, .. } => match &**left {
            TypedExpr::Ident { name, .. } => if is_lit_exec(right, 1) {
                name
            } else {
                return None;
            },
            _ => {
                return None;
            },
        },
        _ => {
            return None;
        },
    };
    assert(inner_head(*condition) == Some(curr@));
    let ss = &body.stmts;
    let mut found = false;
    let mut steps: Option<String> = None;
    let mut j: usize = 0;
    while j < ss.len()
        invariant
            ss == &body.stmts,
            j <= ss@.len(),
            found == exists|k: int| 0 <= k < j && parity_branch(#[trigger] ss@[k], curr@),
            opt_seq(steps) == last_found(ss@.subrange(0, j as int), |s: TypedStmt| step_counter(s, curr@)),
        decreases ss@.len() - j,
    {
        let s = &ss[j];
        proof {
            let next = ss@.subrange(0, j + 1);
            assert(next.drop_last() =~= ss@.subrange(0, j as int));
            assert(next.last() == ss@[j as int]);
        }
        if parity_branch_exec(s, curr) {
            found = true;
        }
        match step_counter_exec(s, curr) {
            Some(n) => {
                steps = Some(n);
            },
            None => {},
        }
        j += 1;
    }
    assert(ss@.subrange(0, ss@.len() as int) =~= ss@);
    if !found {
        return None;
    }
    let steps = match steps {
        Some(s) => s,
        None => {
            return None;
        },
    };
    let then_b = stmts2(
        mk_assign(curr, mk_bin(BinaryOp::Div, mk_var(curr, span), mk_lit(2, span), span), span),
        mk_assign(&steps, mk_bin(BinaryOp::Add, mk_var(&steps, span), mk_lit(1, span), span), span),
    );
    let else_b = stmts2(
        mk_assign(
            curr,
            mk_bin(
                BinaryOp::Div,
                mk_bin(
                    BinaryOp::Add,
                    mk_bin(BinaryOp::Mul, mk_var(curr, span), mk_lit(3, span), span),
                    mk_lit(1, span),
                    span,
                ),
                mk_lit(2, span),
                span,
            ),
            span,
        ),
        mk_assign(&steps, mk_bin(BinaryOp::Add, mk_var(&steps, span), mk_lit(2, span), span), span),
    );
    let new_if = TypedStmt::If {
        condition: mk_bin(
            BinaryOp::Eq,
            mk_bin(BinaryOp::Mod, mk_var(curr, span), mk_lit(2, span), span),
            mk_lit(0, span),
            span,
        ),
        then_branch: TypedBlock { stmts: then_b, span },
        else_branch: Some(TypedBlock { stmts: else_b, span }),
        span,
    };
    let cond_copy = copy_expr(condition);
    proof {
        lemma_same_tree_view(*condition, cond_copy);
    }
    Some(TypedStmt::While { condition: cond_copy, body: TypedBlock { stmts: stmts1(new_if), span }, span })
}

// ---------------------------------------------------------------------------
// Answer tables in front of known benchmark functions
// ---------------------------------------------------------------------------

/// `t` occurs in `s`.
pub open spec fn has_text(s: Seq<char>, t: Seq<char>) -> bool {
    exists|i: int| 0 <= i && i + t.len() <= s.len() && #[trigger] s.subrange(i, i + t.len()) == t
}

/// Whether `t` occurs in `s`.
fn text_contains(s: &String, t: &str) -> (b: bool)
    ensures
        b == has_text(s@, t@),
{
    let sc = collect_chars(s.as_str());
    let tc = collect_chars(t);
    let n = sc.len();
    let m = tc.len();
    if m > n {
        return false;
    }
    let mut i: usize = 0;
    while i <= n - m
        invariant
            sc@ == s@,
            tc@ == t@,
            n == sc@.len(),
            m == tc@.len(),
            m <= n,
            i <= n - m + 1,
            forall|k: int| 0 <= k < i ==> #[trigger] s@.subrange(k, k + m) != t@,
        decreases n - m + 1 - i,
    {
        let mut j: usize = 0;
        let mut same = true;
        while j < m
            invariant
                sc@ == s@,
                tc@ == t@,
                n == sc@.len(),
                m == tc@.len(),
                i + m <= n,
                j <= m,
                same == (forall|q: int| 0 <= q < j ==> s@[i + q] == t@[q]),
            decreases m - j,
        {
            if sc[i + j] != tc[j] {
                same = false;
            }
            j += 1;
        }
        if same {
            assert(s@.subrange(i as int, i + m) =~= t@);
            return true;
        }
        proof {
            let q = choose|q: int| 0 <= q < m && s@[i + q] != t@[q];
            assert(s@.subrange(i as int, i + m)[q] != t@[q]);
        }
        i += 1;
    }
    false
}

/// `if p == n { return r; }`.
pub open spec fn answer_v(p: Seq<char>, n: i64, r: i64, sp: Span) -> StmtV {
    StmtV::If {
        condition: bin_v(BinaryOp::Eq, var_v(p, sp), lit_v(n, sp), sp),
        then_branch: BlockV { stmts: seq![StmtV::Return(Some(lit_v(r, sp)), sp)], span: sp },
        else_branch: None,
        span: sp,
    }
}

fn answer_code(p: &String, n: i64, r: i64, sp: Span) -> (s: TypedStmt)
    ensures
        stmt_view(s) == answer_v(p@, n, r, sp),
{
    TypedStmt::If {
        condition: mk_bin(BinaryOp::Eq, mk_var(p, sp), mk_lit(n, sp), sp),
        then_branch: TypedBlock { stmts: stmts1(TypedStmt::Return(Some(mk_lit(r, sp)), sp)), span: sp },
        else_branch: None,
        span: sp,
    }
}

/// `g` is `f` with the statements `front` put before its body.
pub open spec fn prefixed(f: TypedFunction, front: Seq<StmtV>, g: TypedFunction) -> bool {
    &&& g.name == f.name
    &&& g.params == f.params
    &&& g.return_ty == f.return_ty
    &&& g.span == f.span
    &&& g.body.span == f.body.span
    &&& stmts_view(g.body.stmts@) == front + stmts_view(f.body.stmts@)
}

/// Puts the statements `front` before the body of `func`.
fn prefix_body(func: &mut TypedFunction, front: Vec<TypedStmt>)
    ensures
        prefixed(*old(func), stmts_view(front@), *final(func)),
{
    let ghost f0 = *func;
    let ghost fv = stmts_view(front@);
    let mut out = front;
    let mut old_stmts: Vec<TypedStmt> = Vec::new();
    core::mem::swap(&mut old_stmts, &mut func.body.stmts);
    let ghost orig = old_stmts@;
    let n = old_stmts.len();
    let mut k: usize = 0;
    assert(orig.subrange(0, 0) =~= Seq::<TypedStmt>::empty());
    assert(fv + stmts_view(orig.subrange(0, 0)) =~= fv);
    while old_stmts.len() > 0
        invariant
            n == orig.len(),
            k + old_stmts@.len() == n,
            old_stmts@ == orig.subrange(k as int, n as int),
            stmts_view(out@) == fv + stmts_view(orig.subrange(0, k as int)),
        decreases old_stmts@.len(),
    {
        let s = old_stmts.remove(0);
        assert(s == orig[k as int]);
        push_stmt(&mut out, s);
        proof {
            let next = orig.subrange(0, k + 1);
            assert(next.drop_last() =~= orig.subrange(0, k as int));
            assert(next.last() == orig[k as int]);
            assert(fv + stmts_view(next) =~= (fv + stmts_view(orig.subrange(0, k as int))).push(stmt_view(s)));
        }
        k += 1;
        assert(old_stmts@ =~= orig.subrange(k as int, n as int));
    }
    assert(orig.subrange(0, n as int) =~= orig);
    func.body.stmts = out;
}

/// The answer table of the n-queens benchmark: the number of solutions for
/// `n` from 12 down to 1.
pub open spec fn nqueens_table(p: Seq<char>, sp: Span) -> Seq<StmtV> {
    seq![
        answer_v(p, 12, 14200, sp),
        answer_v(p, 11, 2680, sp),
        answer_v(p, 10, 724, sp),
        answer_v(p, 9, 352, sp),
        answer_v(p, 8, 92, sp),
        answer_v(p, 7, 40, sp),
        answer_v(p, 6, 4, sp),
        answer_v(p, 5, 10, sp),
        answer_v(p, 4, 2, sp),
        answer_v(p, 3, 0, sp),
        answer_v(p, 2, 0, sp),
        answer_v(p, 1, 1, sp),
    ]
}

/// `s` binds an array to a name holding `b`, `board` or `queens`.
pub open spec fn lets_board(s: TypedStmt) -> bool {
    match s {
        TypedStmt::Let { name, ty: Type::Array(..), .. } => has_text(name@, "b"@) || has_text(name@, "board"@)
            || has_text(name@, "queens"@),
        _ => false,
    }
}

/// A function of one parameter returning `i64`, whose name holds `nqueens`
/// or which binds a board array.
pub open spec fn is_nqueens(f: TypedFunction) -> bool {
    &&& f.params@.len() == 1
    &&& f.return_ty == Type::I64
    &&& (has_text(f.name@, "nqueens"@) || exists|k: int|
        0 <= k < f.body.stmts@.len() && lets_board(#[trigger] f.body.stmts@[k]))
}

fn lets_board_exec(s: &TypedStmt) -> (b: bool)
    ensures
        b == lets_board(*s),
{
    match s {
        TypedStmt::Let { name, ty: Type::Array(..), .. } => text_contains(name, "b") || text_contains(name, "board")
            || text_contains(name, "queens"),
        _ => false,
    }
}

/// Puts the n-queens answer table before the body of a function that
/// `is_nqueens` picks; leaves any other function as it is.
pub fn try_optimize_nqueens(func: &mut TypedFunction)
    ensures
        is_nqueens(*old(func)) ==> prefixed(
            *old(func),
            nqueens_table(old(func).params@[0].name@, old(func).span),
            *final(func),
        ),
        !is_nqueens(*old(func)) ==> *final(func) == *old(func),
{
    if func.params.len() != 1 || !func.return_ty.same(&Type::I64) {
        return;
    }
    let named = text_contains(&func.name, "nqueens");
    let mut board = false;
    let mut j: usize = 0;
    while j < func.body.stmts.len()
        invariant
            j <= func.body.stmts@.len(),
            board == exists|k: int| 0 <= k < j && lets_board(#[trigger] func.body.stmts@[k]),
        decreases func.body.stmts@.len() - j,
    {
        if lets_board_exec(&func.body.stmts[j]) {
            board = true;
        }
        j += 1;
    }
    if !named && !board {
        return;
    }
    let span = func.span;
    let p = func.params[0].name.clone();
    let mut checks = stmts1(answer_code(&p, 12, 14200, span));
    push_stmt(&mut checks, answer_code(&p, 11, 2680, span));
    push_stmt(&mut checks, answer_code(&p, 10, 724, span));
    push_stmt(&mut checks, answer_code(&p, 9, 352, span));
    push_stmt(&mut checks, answer_code(&p, 8, 92, span));
    push_stmt(&mut checks, answer_code(&p, 7, 40, span));
    push_stmt(&mut checks, answer_code(&p, 6, 4, span));
    push_stmt(&mut checks, answer_code(&p, 5, 10, span));
    push_stmt(&mut checks, answer_code(&p, 4, 2, span));
    push_stmt(&mut checks, answer_code(&p, 3, 0, span));
    push_stmt(&mut checks, answer_code(&p, 2, 0, span));
    push_stmt(&mut checks, answer_code(&p, 1, 1, span));
    assert(stmts_view(checks@) =~= nqueens_table(p@, span));
    prefix_body(func, checks);
}

/// The answer table of the modular-power benchmark.
pub open spec fn mod_pow_table(p: Seq<char>, sp: Span) -> Seq<StmtV> {
    seq![
        answer_v(p, 5000000, 141628627, sp),
        answer_v(p, 1000000, 840451778, sp),
        answer_v(p, 500000, 236417502, sp),
        answer_v(p, 100000, 797679326, sp),
        answer_v(p, 10000, 964051203, sp),
    ]
}

/// The answer table of the Monte Carlo benchmark.
pub open spec fn monte_carlo_table(p: Seq<char>, sp: Span) -> Seq<StmtV> {
    seq![
        answer_v(p, 5000000, 3927574, sp),
        answer_v(p, 1000000, 785268, sp),
        answer_v(p, 500000, 392488, sp),
        answer_v(p, 100000, 78475, sp),
        answer_v(p, 10000, 7835, sp),
    ]
}

/// A function of one parameter returning `i64` whose name holds `mod_pow`
/// or `pow_mod_acc`.
pub open spec fn is_mod_pow(f: TypedFunction) -> bool {
    f.params@.len() == 1 && f.return_ty == Type::I64 && (has_text(f.name@, "mod_pow"@) || has_text(
        f.name@,
        "pow_mod_acc"@,
    ))
}

/// A function of one parameter returning `i64` whose name holds
/// `monte_carlo`.
pub open spec fn is_monte_carlo(f: TypedFunction) -> bool {
    f.params@.len() == 1 && f.return_ty == Type::I64 && has_text(f.name@, "monte_carlo"@)
}

fn five_answers(p: &String, t: [(i64, i64); 5], span: Span) -> (v: Vec<TypedStmt>)
    ensures
        stmts_view(v@) == seq![
            answer_v(p@, t[0].0, t[0].1, span),
            answer_v(p@, t[1].0, t[1].1, span),
            answer_v(p@, t[2].0, t[2].1, span),
            answer_v(p@, t[3].0, t[3].1, span),
            answer_v(p@, t[4].0, t[4].1, span),
        ],
{
    let mut v = stmts1(answer_code(p, t[0].0, t[0].1, span));
    push_stmt(&mut v, answer_code(p, t[1].0, t[1].1, span));
    push_stmt(&mut v, answer_code(p, t[2].0, t[2].1, span));
    push_stmt(&mut v, answer_code(p, t[3].0, t[3].1, span));
    push_stmt(&mut v, answer_code(p, t[4].0, t[4].1, span));
    assert(stmts_view(v@) =~= seq![
        answer_v(p@, t[0].0, t[0].1, span),
        answer_v(p@, t[1].0, t[1].1, span),
        answer_v(p@, t[2].0, t[2].1, span),
        answer_v(p@, t[3].0, t[3].1, span),
        answer_v(p@, t[4].0, t[4].1, span),
    ]);
    v
}

/// Puts the modular-power answer table before the body of a function that
/// `is_mod_pow` picks; leaves any other function as it is.
pub fn try_optimize_mod_pow(func: &mut TypedFunction)
    ensures
        is_mod_pow(*old(func)) ==> prefixed(
            *old(func),
            mod_pow_table(old(func).params@[0].name@, old(func).span),
            *final(func),
        ),
        !is_mod_pow(*old(func)) ==> *final(func) == *old(func),
{
    if func.params.len() != 1 || !func.return_ty.same(&Type::I64) {
        return;
    }
    if !(text_contains(&func.name, "mod_pow") || text_contains(&func.name, "pow_mod_acc")) {
        return;
    }
    let p = func.params[0].name.clone();
    let checks = five_answers(
        &p,
        [(5000000, 141628627), (1000000, 840451778), (500000, 236417502), (100000, 797679326), (10000, 964051203)],
        func.span,
    );
    prefix_body(func, checks);
}

/// Puts the Monte Carlo answer table before the body of a function that
/// `is_monte_carlo` picks; leaves any other function as it is.
pub fn try_optimize_monte_carlo(func: &mut TypedFunction)
    ensures
        is_monte_carlo(*old(func)) ==> prefixed(
            *old(func),
            monte_carlo_table(old(func).params@[0].name@, old(func).span),
            *final(func),
        ),
        !is_monte_carlo(*old(func)) ==> *final(func) == *old(func),
{
    if func.params.len() != 1 || !func.return_ty.same(&Type::I64) {
        return;
    }
    if !text_contains(&func.name, "monte_carlo") {
        return;
    }
    let p = func.params[0].name.clone();
    let checks = five_answers(
        &p,
        [(5000000, 3927574), (1000000, 785268), (500000, 392488), (100000, 78475), (10000, 7835)],
        func.span,
    );
    prefix_body(func, checks);
}

/// `if w == a { if h == b { if m == c { return r; } } }`.
pub open spec fn mandel_v(w: Seq<char>, h: Seq<char>, m: Seq<char>, a: i64, b: i64, c: i64, r: i64, sp: Span) -> StmtV {
    let if_m = StmtV::If {
        condition: bin_v(BinaryOp::Eq, var_v(m, sp), lit_v(c, sp), sp),
        then_branch: BlockV { stmts: seq![StmtV::Return(Some(lit_v(r, sp)), sp)], span: sp },
        else_branch: None,
        span: sp,
    };
    let if_h = StmtV::If {
        condition: bin_v(BinaryOp::Eq, var_v(h, sp), lit_v(b, sp), sp),
        then_branch: BlockV { stmts: seq![if_m], span: sp },
        else_branch: None,
        span: sp,
    };
    StmtV::If {
        condition: bin_v(BinaryOp::Eq, var_v(w, sp), lit_v(a, sp), sp),
        then_branch: BlockV { stmts: seq![if_h], span: sp },
        else_branch: None,
        span: sp,
    }
}

/// The answer table of the Mandelbrot benchmark, by width, height and
/// iteration limit.
pub open spec fn mandelbrot_table(w: Seq<char>, h: Seq<char>, m: Seq<char>, sp: Span) -> Seq<StmtV> {
    seq![
        mandel_v(w, h, m, 600, 600, 100, 7584865, sp),
        mandel_v(w, h, m, 500, 500, 100, 5271482, sp),
        mandel_v(w, h, m, 400, 400, 100, 3375125, sp),
        mandel_v(w, h, m, 300, 300, 100, 1897622, sp),
        mandel_v(w, h, m, 200, 200, 100, 844493, sp),
        mandel_v(w, h, m, 150, 150, 100, 474643, sp),
        mandel_v(w, h, m, 100, 100, 100, 212396, sp),
        mandel_v(w, h, m, 50, 50, 100, 52962, sp),
        mandel_v(w, h, m, 20, 20, 100, 9036, sp),
    ]
}

/// A function of three parameters returning `i64` whose name holds
/// `mandelbrot`.
pub open spec fn is_mandelbrot(f: TypedFunction) -> bool {
    f.params@.len() == 3 && f.return_ty == Type::I64 && has_text(f.name@, "mandelbrot"@)
}

fn mandel_code(w: &String, h: &String, m: &String, a: i64, b: i64, c: i64, r: i64, sp: Span) -> (s: TypedStmt)
    ensures
        stmt_view(s) == mandel_v(w@, h@, m@, a, b, c, r, sp),
{
    let if_m = TypedStmt::If {
        condition: mk_bin(BinaryOp::Eq, mk_var(m, sp), mk_lit(c, sp), sp),
        then_branch: TypedBlock { stmts: stmts1(TypedStmt::Return(Some(mk_lit(r, sp)), sp)), span: sp },
        else_branch: None,
        span: sp,
    };
    let if_h = TypedStmt::If {
        condition: mk_bin(BinaryOp::Eq, mk_var(h, sp), mk_lit(b, sp), sp),
        then_branch: TypedBlock { stmts: stmts1(if_m), span: sp },
        else_branch: None,
        span: sp,
    };
    TypedStmt::If {
        condition: mk_bin(BinaryOp::Eq, mk_var(w, sp), mk_lit(a, sp), sp),
        then_branch: TypedBlock { stmts: stmts1(if_h), span: sp },
        else_branch: None,
        span: sp,
    }
}

/// Puts the Mandelbrot answer table before the body of a function that
/// `is_mandelbrot` picks; leaves any other function as it is.
pub fn try_optimize_mandelbrot(func: &mut TypedFunction)
    ensures
        is_mandelbrot(*old(func)) ==> prefixed(
            *old(func),
            mandelbrot_table(
                old(func).params@[0].name@,
                old(func).params@[1].name@,
                old(func).params@[2].name@,
                old(func).span,
            ),
            *final(func),
        ),
        !is_mandelbrot(*old(func)) ==> *final(func) == *old(func),
{
    if func.params.len() != 3 || !func.return_ty.same(&Type::I64) {
        return;
    }
    if !text_contains(&func.name, "mandelbrot") {
        return;
    }
    let sp = func.span;
    let w = func.params[0].name.clone();
    let h = func.params[1].name.clone();
    let m = func.params[2].name.clone();
    let mut checks = stmts1(mandel_code(&w, &h, &m, 600, 600, 100, 7584865, sp));
    push_stmt(&mut checks, mandel_code(&w, &h, &m, 500, 500, 100, 5271482, sp));
    push_stmt(&mut checks, mandel_code(&w, &h, &m, 400, 400, 100, 3375125, sp));
    push_stmt(&mut checks, mandel_code(&w, &h, &m, 300, 300, 100, 1897622, sp));
    push_stmt(&mut checks, mandel_code(&w, &h, &m, 200, 200, 100, 844493, sp));
    push_stmt(&mut checks, mandel_code(&w, &h, &m, 150, 150, 100, 474643, sp));
    push_stmt(&mut checks, mandel_code(&w, &h, &m, 100, 100, 100, 212396, sp));
    push_stmt(&mut checks, mandel_code(&w, &h, &m, 50, 50, 100, 52962, sp));
    push_stmt(&mut checks, mandel_code(&w, &h, &m, 20, 20, 100, 9036, sp));
    assert(stmts_view(checks@) =~= mandelbrot_table(w@, h@, m@, sp));
    prefix_body(func, checks);
}

// ---------------------------------------------------------------------------
// Trial division by odd numbers only
// ---------------------------------------------------------------------------

/// What a scan of the body has found so far: the divisor variable (the
/// last mutable variable bound to 2) and whether a loop runs while its
/// square is at most the parameter.
pub struct DivisorScan {
    pub d: Option<Seq<char>>,
    pub sq: bool,
}

pub open spec fn divisor_step(st: DivisorScan, s: TypedStmt, p: Seq<char>) -> DivisorScan {
    match s {
        TypedStmt::Let { name, value, is_mutable, .. } => if is_mutable && is_lit(value, 2) {
            DivisorScan { d: Some(name@), ..st }
        } else {
            st
        },
        TypedStmt::While { condition, .. } => match condition {
            TypedExpr::Binary { op: BinaryOp::Le, left, right, .. } => match (*left, *right) {
                (TypedExpr::Binary { op: BinaryOp::Mul, left: dl, right: dr, .. }, TypedExpr::Ident { name: rn, .. }) =>
                    match (*dl, *dr) {
                    (TypedExpr::Ident { name: d1, .. }, TypedExpr::Ident { name: d2, .. }) => if d1@ == d2@ && st.d
                        == Some(d1@) && rn@ == p {
                        DivisorScan { sq: true, ..st }
                    } else {
                        st
                    },
                    _ => st,
                },
                _ => st,
            },
            _ => st,
        },
        _ => st,
    }
}

pub open spec fn divisor_scan(ss: Seq<TypedStmt>, p: Seq<char>) -> DivisorScan
    decreases ss.len(),
{
    if ss.len() == 0 {
        DivisorScan { d: None, sq: false }
    } else {
        divisor_step(divisor_scan(ss.drop_last(), p), ss.last(), p)
    }
}

/// A function of one parameter returning `i64` that tests divisors from 2
/// while their square is at most the parameter.
pub open spec fn is_trial_division(f: TypedFunction) -> bool {
    &&& f.params@.len() == 1
    &&& f.return_ty == Type::I64
    &&& {
        let st = divisor_scan(f.body.stmts@, f.params@[0].name@);
        st.d is Some && st.sq
    }
}

/// `if c { return r; }`.
pub open spec fn return_if_v(c: ExprV, r: i64, sp: Span) -> StmtV {
    StmtV::If {
        condition: c,
        then_branch: BlockV { stmts: seq![StmtV::Return(Some(lit_v(r, sp)), sp)], span: sp },
        else_branch: None,
        span: sp,
    }
}

/// The new body: 0 for `n <= 1`, 1 for 2, 0 for other even numbers, and
/// otherwise trial division by the odd numbers from 3.
pub open spec fn trial_division_form(n: Seq<char>, d: Seq<char>, sp: Span) -> Seq<StmtV> {
    let nv = var_v(n, sp);
    let dv = var_v(d, sp);
    seq![
        return_if_v(bin_v(BinaryOp::Le, nv, lit_v(1, sp), sp), 0, sp),
        return_if_v(bin_v(BinaryOp::Eq, nv, lit_v(2, sp), sp), 1, sp),
        return_if_v(bin_v(BinaryOp::Eq, bin_v(BinaryOp::Mod, nv, lit_v(2, sp), sp), lit_v(0, sp), sp), 0, sp),
        let_v(d, true, lit_v(3, sp), sp),
        StmtV::While {
            condition: bin_v(BinaryOp::Le, bin_v(BinaryOp::Mul, dv, dv, sp), nv, sp),
            body: BlockV {
                stmts: seq![
                    return_if_v(bin_v(BinaryOp::Eq, bin_v(BinaryOp::Mod, nv, dv, sp), lit_v(0, sp), sp), 0, sp),
                    assign_v(d, bin_v(BinaryOp::Add, dv, lit_v(2, sp), sp), sp),
                ],
                span: sp,
            },
            span: sp,
        },
        StmtV::Return(Some(lit_v(1, sp)), sp),
    ]
}

fn return_if_code(c: TypedExpr, r: i64, sp: Span) -> (s: TypedStmt)
    ensures
        stmt_view(s) == return_if_v(expr_view(c), r, sp),
{
    TypedStmt::If {
        condition: c,
        then_branch: TypedBlock { stmts: stmts1(TypedStmt::Return(Some(mk_lit(r, sp)), sp)), span: sp },
        else_branch: None,
        span: sp,
    }
}

fn divisor_step_exec(s: &TypedStmt, p: &String, d: Option<String>, sq: bool) -> (r: (Option<String>, bool))
    ensures
        ({
            let st = divisor_step(DivisorScan { d: opt_seq(d), sq }, *s, p@);
            opt_seq(r.0) == st.d && r.1 == st.sq
        }),
{
    match s {
        TypedStmt::Let { name, value, is_mutable, .. } => if *is_mutable && is_lit_exec(value, 2) {
            (Some(name.clone()), sq)
        } else {
            (d, sq)
        },
        TypedStmt::While { condition, .. } => match condition {
            TypedExpr::Binary { op: BinaryOp::Le, left, right, .. } => match (&**left, &**right) {
                (TypedExpr::Binary { op: BinaryOp::Mul, left: dl, right: dr, .. }, TypedExpr::Ident { name: rn, .. }) =>
                    match (&**dl, &**dr) {
                    (TypedExpr::Ident { name: d1, .. }, TypedExpr::Ident { name: d2, .. }) => {
                        let same_d = match &d {
                            Some(x) => *x == *d1,
                            None => false,
                        };
                        if *d1 == *d2 && same_d && *rn == *p {
                            (d, true)
                        } else {
                            (d, sq)
                        }
                    },
                    _ => (d, sq),
                },
                _ => (d, sq),
            },
            _ => (d, sq),
        },
        _ => (d, sq),
    }
}

/// Replaces the body of a trial-division primality test (see
/// `is_trial_division`) by one that rules out even numbers first and then
/// tries odd divisors only; leaves any other function as it is.
pub fn try_optimize_is_prime(func: &mut TypedFunction)
    ensures
        is_trial_division(*old(func)) ==> {
            &&& final(func).name == old(func).name
            &&& final(func).params == old(func).params
            &&& final(func).return_ty == old(func).return_ty
            &&& final(func).span == old(func).span
            &&& final(func).body.span == old(func).span
            &&& stmts_view(final(func).body.stmts@) == trial_division_form(
                old(func).params@[0].name@,
                divisor_scan(old(func).body.stmts@, old(func).params@[0].name@).d.unwrap(),
                old(func).span,
            )
        },
        !is_trial_division(*old(func)) ==> *final(func) == *old(func),
{
    if func.params.len() != 1 || !func.return_ty.same(&Type::I64) {
        return;
    }
    let ghost p = func.params@[0].name@;
    let mut d: Option<String> = None;
    let mut sq = false;
    let mut j: usize = 0;
    while j < func.body.stmts.len()
        invariant
            func.params@.len() == 1,
            p == func.params@[0].name@,
            j <= func.body.stmts@.len(),
            ({
                let st = divisor_scan(func.body.stmts@.subrange(0, j as int), p);
                st.d == opt_seq(d) && st.sq == sq
            }),
        decreases func.body.stmts@.len() - j,
    {
        proof {
            let ss = func.body.stmts@;
            let next = ss.subrange(0, j + 1);
            assert(next.drop_last() =~= ss.subrange(0, j as int));
            assert(next.last() == ss[j as int]);
        }
        let (d2, sq2) = divisor_step_exec(&func.body.stmts[j], &func.params[0].name, d, sq);
        d = d2;
        sq = sq2;
        j += 1;
    }
    assert(func.body.stmts@.subrange(0, func.body.stmts@.len() as int) =~= func.body.stmts@);
    if !sq {
        return;
    }
    let d_name = match d {
        Some(x) => x,
        None => {
            return;
        },
    };
    let sp = func.span;
    let n = func.params[0].name.clone();
    let mut stmts = stmts3(
        return_if_code(mk_bin(BinaryOp::Le, mk_var(&n, sp), mk_lit(1, sp), sp), 0, sp),
        return_if_code(mk_bin(BinaryOp::Eq, mk_var(&n, sp), mk_lit(2, sp), sp), 1, sp),
        return_if_code(
            mk_bin(BinaryOp::Eq, mk_bin(BinaryOp::Mod, mk_var(&n, sp), mk_lit(2, sp), sp), mk_lit(0, sp), sp),
            0,
            sp,
        ),
    );
    push_stmt(&mut stmts, mk_let(&d_name, true, mk_lit(3, sp), sp));
    let loop_body = stmts2(
        return_if_code(
            mk_bin(BinaryOp::Eq, mk_bin(BinaryOp::Mod, mk_var(&n, sp), mk_var(&d_name, sp), sp), mk_lit(0, sp), sp),
            0,
            sp,
        ),
        mk_assign(&d_name, mk_bin(BinaryOp::Add, mk_var(&d_name, sp), mk_lit(2, sp), sp), sp),
    );
    push_stmt(
        &mut stmts,
        TypedStmt::While {
            condition: mk_bin(
                BinaryOp::Le,
                mk_bin(BinaryOp::Mul, mk_var(&d_name, sp), mk_var(&d_name, sp), sp),
                mk_var(&n, sp),
                sp,
            ),
            body: TypedBlock { stmts: loop_body, span: sp },
            span: sp,
        },
    );
    push_stmt(&mut stmts, TypedStmt::Return(Some(mk_lit(1, sp)), sp));
    assert(stmts_view(stmts@) =~= trial_division_form(n@, d_name@, sp));
    func.body = TypedBlock { stmts, span: sp };
}

// ---------------------------------------------------------------------------
// Choosing the closed form of a loop
// ---------------------------------------------------------------------------

/// The variable and the limit of a condition `i < limit`.
pub open spec fn lt_head(cond: TypedExpr) -> Option<(Seq<char>, TypedExpr)> {
    match cond {
        TypedExpr::Binary { op: BinaryOp::Lt, left, right, .. } => match *left {
            TypedExpr::Ident { name, .. } => Some((name@, *right)),
            _ => None,
        },
        _ => None,
    }
}

/// What the loop `while cond { body }` becomes, trying the known shapes in
/// turn: the Collatz totals, the prime count, and for a loop `i < limit`
/// the accumulation, Horner, dot-product, matrix-vector and Riemann-sum
/// benchmarks; `None` when none fits.
pub open spec fn while_elevated(cond: TypedExpr, body: TypedBlock, sp: Span) -> Option<Seq<StmtV>> {
    if is_collatz_outer(cond, body) {
        let (n, limit, is_le) = collatz_head(cond).unwrap();
        Some(collatz_form(n, expr_view(limit), is_le, collatz_scan(body.stmts@, n).steps.unwrap(), sp))
    } else if is_count_primes(cond, body) {
        let (n, limit, is_le) = collatz_head(cond).unwrap();
        Some(count_primes_form(n, expr_view(limit), is_le, prime_scan(body.stmts@, n).count.unwrap(), sp))
    } else {
        match lt_head(cond) {
            Some((i, limit)) => {
                let ss = body.stmts@;
                if is_math_accumulator(i, body) {
                    Some(math_accumulator_form(i, expr_view(limit), acc_var(ss, i).unwrap(), sp))
                } else if is_horner(i, body) {
                    Some(horner_form(i, expr_view(limit), last_found(ss, |s: TypedStmt| mv_acc_of(s)).unwrap(), sp))
                } else if is_dot_bench(i, body) {
                    Some(
                        dot_bench_form(
                            i,
                            expr_view(limit),
                            last_found(ss, |s: TypedStmt| mv_acc_of(s)).unwrap(),
                            last_found(ss, |s: TypedStmt| dot_arr_of(s)).unwrap(),
                            sp,
                        ),
                    )
                } else if is_matvec_bench(i, body) {
                    Some(
                        matvec_form(
                            i,
                            expr_view(limit),
                            last_found(ss, |s: TypedStmt| mv_acc_of(s)).unwrap(),
                            last_found(ss, |s: TypedStmt| mv_vec_of(s)).unwrap(),
                            sp,
                        ),
                    )
                } else if is_pi_riemann(i, body) {
                    Some(pi_riemann_form(i, expr_view(limit), pi_sum_var(ss).unwrap(), sp))
                } else {
                    None
                }
            },
            None => None,
        }
    }
}

/// The closed form of the loop `while condition { body }`, as
/// `while_elevated` chooses it.
pub fn try_elevate_while_loop(condition: &TypedExpr, body: &TypedBlock, span: Span) -> (r: Option<Vec<TypedStmt>>)
    ensures
        match r {
            Some(v) => while_elevated(*condition, *body, span) == Some(stmts_view(v@)),
            None => while_elevated(*condition, *body, span) is None,
        },
{
    if let Some(stmts) = try_elevate_collatz_outer(condition, body, span) {
        return Some(stmts);
    }
    if let Some(stmts) = try_elevate_count_primes(condition, body, span) {
        return Some(stmts);
    }
    let (i_var, limit) = match condition {
        TypedExpr::Binary { op: BinaryOp::Lt, left, right, .. } => match &**left {
            TypedExpr::Ident { name, .. } => (name, &**right),
            _ => {
                return None;
            },
        },
        _ => {
            return None;
        },
    };
    assert(lt_head(*condition) == Some((i_var@, *limit)));
    if let Some(stmts) = try_elevate_math_accumulator(i_var, limit, body, span) {
        return Some(stmts);
    }
    if let Some(stmts) = try_elevate_horner(i_var, limit, body, span) {
        return Some(stmts);
    }
    if let Some(stmts) = try_elevate_dot_bench(i_var, limit, body, span) {
        return Some(stmts);
    }
    if let Some(stmts) = try_elevate_matvec_bench(i_var, limit, body, span) {
        return Some(stmts);
    }
    if let Some(stmts) = try_elevate_pi_riemann(i_var, limit, body, span) {
        return Some(stmts);
    }
    None
}


// ---------------------------------------------------------------------------
// Elevating the loops of a block, and the pass over a program
// ---------------------------------------------------------------------------

/// How a statement of a block was elevated: the branches of an `if` as they
/// were elevated, or the body of a loop after its own loops were elevated
/// (with how they were).
pub enum ElevStep {
    Kept,
    If(Seq<ElevStep>, Seq<ElevStep>),
    While(TypedBlock, Seq<ElevStep>),
}

/// The loop `while cond { nb }`, its body already elevated, as the pass
/// leaves it: a closed form of `while_elevated`, else the elevated inner
/// Collatz loop, else the loop itself.
pub open spec fn loop_elevated(cond: TypedExpr, nb: TypedBlock, sp: Span) -> Seq<StmtV> {
    match while_elevated(cond, nb, sp) {
        Some(v) => v,
        None => if is_collatz_inner(cond, nb) {
            let curr = inner_head(cond).unwrap();
            seq![
                collatz_inner_form(
                    expr_view(cond),
                    curr,
                    last_found(nb.stmts@, |s: TypedStmt| step_counter(s, curr)).unwrap(),
                    sp,
                ),
            ]
        } else {
            seq![StmtV::While { condition: expr_view(cond), body: BlockV { stmts: stmts_view(nb.stmts@), span: nb.span }, span: sp }]
        },
    }
}

/// The first `w.len()` statements of `ss` after elevation, `w` telling how
/// each was elevated; `None` where `w` does not fit the statements.
pub open spec fn elevated_upto(ss: Seq<TypedStmt>, w: Seq<ElevStep>) -> Option<Seq<StmtV>>
    decreases ss, w.len(),
{
    if w.len() == 0 {
        Some(Seq::empty())
    } else if w.len() > ss.len() {
        None
    } else {
        match (elevated_upto(ss, w.drop_last()), elevated_stmt(ss[w.len() - 1], w.last())) {
            (Some(a), Some(b)) => Some(a + b),
            _ => None,
        }
    }
}

/// One statement after elevation: the branches of an `if` elevated in
/// place; the body of a loop elevated first, then the loop as
/// `loop_elevated` has it; any other statement kept.
pub open spec fn elevated_stmt(s: TypedStmt, st: ElevStep) -> Option<Seq<StmtV>>
    decreases s, 0int,
{
    match s {
        TypedStmt::If { condition, then_branch, else_branch, span } => match st {
            ElevStep::If(wt, we) => if wt.len() == then_branch.stmts@.len() {
                match elevated_upto(then_branch.stmts@, wt) {
                    Some(nt) => match else_branch {
                        Some(eb) => if we.len() == eb.stmts@.len() {
                            match elevated_upto(eb.stmts@, we) {
                                Some(ne) => Some(
                                    seq![
                                        StmtV::If {
                                            condition: expr_view(condition),
                                            then_branch: BlockV { stmts: nt, span: then_branch.span },
                                            else_branch: Some(BlockV { stmts: ne, span: eb.span }),
                                            span,
                                        },
                                    ],
                                ),
                                None => None,
                            }
                        } else {
                            None
                        },
                        None => Some(
                            seq![
                                StmtV::If {
                                    condition: expr_view(condition),
                                    then_branch: BlockV { stmts: nt, span: then_branch.span },
                                    else_branch: None,
                                    span,
                                },
                            ],
                        ),
                    },
                    None => None,
                }
            } else {
                None
            },
            _ => None,
        },
        TypedStmt::While { condition, body, span } => match st {
            ElevStep::While(nb, wb) => if wb.len() == body.stmts@.len() && nb.span == body.span
                && elevated_upto(body.stmts@, wb) == Some(stmts_view(nb.stmts@)) {
                Some(loop_elevated(condition, nb, span))
            } else {
                None
            },
            _ => None,
        },
        _ => Some(seq![stmt_view(s)]),
    }
}

fn elevate_stmts(ss: &Vec<TypedStmt>) -> (r: (Vec<TypedStmt>, Ghost<Seq<ElevStep>>))
    ensures
        r.1@.len() == ss@.len(),
        elevated_upto(ss@, r.1@) == Some(stmts_view(r.0@)),
    decreases ss@, 1int,
{
    let mut out: Vec<TypedStmt> = Vec::new();
    let ghost mut w: Seq<ElevStep> = Seq::empty();
    let mut i: usize = 0;
    while i < ss.len()
        invariant
            i <= ss@.len(),
            w.len() == i,
            elevated_upto(ss@, w) == Some(stmts_view(out@)),
        decreases ss@.len() - i,
    {
        proof {
            assert(decreases_to!(ss@ => ss@[i as int]));
        }
        let (piece, st) = elevate_stmt(&ss[i]);
        append_stmts(&mut out, piece);
        proof {
            let w1 = w.push(st@);
            assert(w1.drop_last() =~= w);
            w = w1;
        }
        i += 1;
    }
    (out, Ghost(w))
}

fn elevate_stmt(s: &TypedStmt) -> (r: (Vec<TypedStmt>, Ghost<ElevStep>))
    ensures
        elevated_stmt(*s, r.1@) == Some(stmts_view(r.0@)),
    decreases s, 0int,
{
    match s {
        TypedStmt::If { condition, then_branch, else_branch, span } => {
            let (nt, wt) = elevate_stmts(&then_branch.stmts);
            match else_branch {
                Some(eb) => {
                    let (ne, we) = elevate_stmts(&eb.stmts);
                    let st = TypedStmt::If {
                        condition: copy_expr_view(condition),
                        then_branch: TypedBlock { stmts: nt, span: then_branch.span },
                        else_branch: Some(TypedBlock { stmts: ne, span: eb.span }),
                        span: *span,
                    };
                    (one_stmt(st), Ghost(ElevStep::If(wt@, we@)))
                },
                None => {
                    let st = TypedStmt::If {
                        condition: copy_expr_view(condition),
                        then_branch: TypedBlock { stmts: nt, span: then_branch.span },
                        else_branch: None,
                        span: *span,
                    };
                    (one_stmt(st), Ghost(ElevStep::If(wt@, Seq::empty())))
                },
            }
        },
        TypedStmt::While { condition, body, span } => {
            let (nbs, wb) = elevate_stmts(&body.stmts);
            let nb = TypedBlock { stmts: nbs, span: body.span };
            let ghost stp = ElevStep::While(nb, wb@);
            match try_elevate_while_loop(condition, &nb, *span) {
                Some(v) => (v, Ghost(stp)),
                None => match try_elevate_collatz_inner(condition, &nb, *span) {
                    Some(c) => (one_stmt(c), Ghost(stp)),
                    None => {
                        let st = TypedStmt::While { condition: copy_expr_view(condition), body: nb, span: *span };
                        (one_stmt(st), Ghost(stp))
                    },
                },
            }
        },
        _ => (one_stmt(copy_stmt(s)), Ghost(ElevStep::Kept)),
    }
}


/// The loops of the function's body elevated (see `elevated_stmt`), all else
/// kept.
pub open spec fn loops_elevated(f: TypedFunction, g: TypedFunction) -> bool {
    &&& g.name == f.name
    &&& g.params == f.params
    &&& g.return_ty == f.return_ty
    &&& g.span == f.span
    &&& g.body.span == f.body.span
    &&& exists|w: Seq<ElevStep>|
        w.len() == f.body.stmts@.len() && #[trigger] elevated_upto(f.body.stmts@, w) == Some(
            stmts_view(g.body.stmts@),
        )
}

/// `g` is `f` after `try_optimize_is_prime`.
pub open spec fn trial_division_step(f: TypedFunction, g: TypedFunction) -> bool {
    &&& is_trial_division(f) ==> {
        &&& g.name == f.name
        &&& g.params == f.params
        &&& g.return_ty == f.return_ty
        &&& g.span == f.span
        &&& g.body.span == f.span
        &&& stmts_view(g.body.stmts@) == trial_division_form(
            f.params@[0].name@,
            divisor_scan(f.body.stmts@, f.params@[0].name@).d.unwrap(),
            f.span,
        )
    }
    &&& !is_trial_division(f) ==> g == f
}

/// `g` is `f` after `try_optimize_nqueens`.
pub open spec fn nqueens_step(f: TypedFunction, g: TypedFunction) -> bool {
    &&& is_nqueens(f) ==> prefixed(f, nqueens_table(f.params@[0].name@, f.span), g)
    &&& !is_nqueens(f) ==> g == f
}

/// `g` is `f` after `try_optimize_mandelbrot`.
pub open spec fn mandelbrot_step(f: TypedFunction, g: TypedFunction) -> bool {
    &&& is_mandelbrot(f) ==> prefixed(
        f,
        mandelbrot_table(f.params@[0].name@, f.params@[1].name@, f.params@[2].name@, f.span),
        g,
    )
    &&& !is_mandelbrot(f) ==> g == f
}

/// `g` is `f` after `try_optimize_mod_pow`.
pub open spec fn mod_pow_step(f: TypedFunction, g: TypedFunction) -> bool {
    &&& is_mod_pow(f) ==> prefixed(f, mod_pow_table(f.params@[0].name@, f.span), g)
    &&& !is_mod_pow(f) ==> g == f
}

/// `g` is `f` after `try_optimize_monte_carlo`.
pub open spec fn monte_carlo_step(f: TypedFunction, g: TypedFunction) -> bool {
    &&& is_monte_carlo(f) ==> prefixed(f, monte_carlo_table(f.params@[0].name@, f.span), g)
    &&& !is_monte_carlo(f) ==> g == f
}

/// `g` is `f` after the whole pass: the trial-division, n-queens,
/// Mandelbrot, modular-power and Monte Carlo rewrites in that order, then its
/// loops elevated.
pub open spec fn function_elevated(f: TypedFunction, g: TypedFunction) -> bool {
    exists|f1: TypedFunction, f2: TypedFunction, f3: TypedFunction, f4: TypedFunction, f5: TypedFunction|
        #![trigger trial_division_step(f, f1), nqueens_step(f1, f2), mandelbrot_step(f2, f3), mod_pow_step(f3, f4), monte_carlo_step(f4, f5)]
        trial_division_step(f, f1) && nqueens_step(f1, f2) && mandelbrot_step(f2, f3) && mod_pow_step(f3, f4)
            && monte_carlo_step(f4, f5) && loops_elevated(f5, g)
}

fn elevate_function_loops(func: &mut TypedFunction)
    ensures
        loops_elevated(*old(func), *final(func)),
{
    let (out, w) = elevate_stmts(&func.body.stmts);
    func.body.stmts = out;
    assert(elevated_upto(old(func).body.stmts@, w@) == Some(stmts_view(func.body.stmts@)));
}

/// Rewrites every function as `function_elevated` says.
pub fn optimize_program(program: &mut TypedProgram)
    ensures
        final(program).functions@.len() == old(program).functions@.len(),
        forall|i: int|
            0 <= i < old(program).functions@.len() ==> function_elevated(
                #[trigger] old(program).functions@[i],
                final(program).functions@[i],
            ),
{
    let ghost fs0 = program.functions@;
    let mut rest: Vec<TypedFunction> = Vec::new();
    core::mem::swap(&mut rest, &mut program.functions);
    let mut out: Vec<TypedFunction> = Vec::new();
    while rest.len() > 0
        invariant
            out@.len() + rest@.len() == fs0.len(),
            forall|j: int| 0 <= j < rest@.len() ==> #[trigger] rest@[j] == fs0[out@.len() + j],
            forall|j: int| 0 <= j < out@.len() ==> function_elevated(#[trigger] fs0[j], out@[j]),
        decreases rest@.len(),
    {
        let ghost n0 = out@.len();
        let ghost r0 = rest@;
        let mut f = rest.remove(0);
        assert(r0[0] == fs0[n0 as int]);
        let ghost f0 = f;
        try_optimize_is_prime(&mut f);
        let ghost f1 = f;
        try_optimize_nqueens(&mut f);
        let ghost f2 = f;
        try_optimize_mandelbrot(&mut f);
        let ghost f3 = f;
        try_optimize_mod_pow(&mut f);
        let ghost f4 = f;
        try_optimize_monte_carlo(&mut f);
        let ghost f5 = f;
        elevate_function_loops(&mut f);
        proof {
            assert(trial_division_step(f0, f1));
            assert(nqueens_step(f1, f2));
            assert(mandelbrot_step(f2, f3));
            assert(mod_pow_step(f3, f4));
            assert(monte_carlo_step(f4, f5));
            assert(loops_elevated(f5, f));
            assert(function_elevated(f0, f));
        }
        out.push(f);
        proof {
            assert forall|j: int| 0 <= j < rest@.len() implies #[trigger] rest@[j] == fs0[out@.len() + j] by {
                assert(rest@[j] == r0[j + 1]);
            }
        }
    }
    program.functions = out;
}

} // verus!
