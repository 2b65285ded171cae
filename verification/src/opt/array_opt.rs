//! Array simplifications: `dot(a, b)` on short arrays of equal length is
//! written out as a sum of products, reads of constant elements of array
//! literals are replaced by the elements, and integer arithmetic on literals
//! is folded.

use vstd::prelude::*;
use crate::ast::{BinaryOp, UnaryOp};
use crate::span::Span;
use crate::typecheck::typed_ast::{TypedBlock, TypedExpr, TypedFunction, TypedLiteral, TypedProgram, TypedStmt};
use crate::typecheck::types::Type;
use crate::opt::value::{int_value, wrapping_op};

verus! {

// ---------------------------------------------------------------------------
// Copies of expressions
// ---------------------------------------------------------------------------

/// `b` is a copy of `a`: the same tree, node for node.
pub open spec fn same_tree(a: TypedExpr, b: TypedExpr) -> bool
    decreases a, 1nat,
{
    match a {
        TypedExpr::Unary { op, expr, ty, span } => match b {
            TypedExpr::Unary { op: op2, expr: e2, ty: ty2, span: sp2 } => op2 == op && ty2 == ty && sp2
                == span && same_tree(*expr, *e2),
            _ => false,
        },
        TypedExpr::Binary { op, left, right, ty, span } => match b {
            TypedExpr::Binary { op: op2, left: l2, right: r2, ty: ty2, span: sp2 } => op2 == op && ty2
                == ty && sp2 == span && same_tree(*left, *l2) && same_tree(*right, *r2),
            _ => false,
        },
        TypedExpr::Call { callee, args, ty, span } => match b {
            TypedExpr::Call { callee: c2, args: a2, ty: ty2, span: sp2 } => c2 == callee && ty2 == ty
                && sp2 == span && same_trees(args@, a2@),
            _ => false,
        },
        TypedExpr::ArrayLiteral { elements, ty, span } => match b {
            TypedExpr::ArrayLiteral { elements: e2, ty: ty2, span: sp2 } => ty2 == ty && sp2 == span
                && same_trees(elements@, e2@),
            _ => false,
        },
        TypedExpr::Index { target, index, is_safe, ty, span } => match b {
            TypedExpr::Index { target: t2, index: i2, is_safe: s2, ty: ty2, span: sp2 } => s2 == is_safe
                && ty2 == ty && sp2 == span && same_tree(*target, *t2) && same_tree(*index, *i2),
            _ => false,
        },
        _ => b == a,
    }
}

pub open spec fn same_trees(a: Seq<TypedExpr>, b: Seq<TypedExpr>) -> bool
    decreases a, 0nat,
{
    &&& b.len() == a.len()
    &&& forall|i: int|
        #![trigger a[i]]
        #![trigger b[i]]
        0 <= i < a.len() ==> same_tree(a[i], b[i])
}

fn copy_exprs(es: &Vec<TypedExpr>, Ghost(whole): Ghost<TypedExpr>) -> (rs: Vec<TypedExpr>)
    requires
        forall|i: int| 0 <= i < es@.len() ==> decreases_to!(whole => #[trigger] es@[i]),
    ensures
        same_trees(es@, rs@),
    decreases whole, 0nat,
{
    let mut rs: Vec<TypedExpr> = Vec::new();
    let mut i: usize = 0;
    while i < es.len()
        invariant
            i <= es@.len(),
            rs@.len() == i,
            forall|k: int| 0 <= k < es@.len() ==> decreases_to!(whole => #[trigger] es@[k]),
            forall|k: int|
                #![trigger es@[k]]
                #![trigger rs@[k]]
                0 <= k < i ==> same_tree(es@[k], rs@[k]),
        decreases es@.len() - i,
    {
        let r = copy_expr(&es[i]);
        rs.push(r);
        i += 1;
    }
    rs
}

/// A copy of the expression.
pub fn copy_expr(e: &TypedExpr) -> (r: TypedExpr)
    ensures
        same_tree(*e, r),
    decreases *e, 1nat,
{
    let ghost whole = *e;
    match e {
        TypedExpr::Literal { lit, ty, span } => TypedExpr::Literal {
            lit: lit.duplicate(),
            ty: ty.duplicate(),
            span: *span,
        },
        TypedExpr::Ident { name, ty, span } => TypedExpr::Ident {
            name: name.clone(),
            ty: ty.duplicate(),
            span: *span,
        },
        TypedExpr::Unary { op, expr, ty, span } => TypedExpr::Unary {
            op: *op,
            expr: Box::new(copy_expr(expr)),
            ty: ty.duplicate(),
            span: *span,
        },
        TypedExpr::Binary { op, left, right, ty, span } => TypedExpr::Binary {
            op: *op,
            left: Box::new(copy_expr(left)),
            right: Box::new(copy_expr(right)),
            ty: ty.duplicate(),
            span: *span,
        },
        TypedExpr::Call { callee, args, ty, span } => {
            proof {
                assert forall|i: int| 0 <= i < args@.len() implies decreases_to!(whole => #[trigger] args@[i]) by {
                    assert(decreases_to!(whole => whole->Call_args));
                }
            }
            TypedExpr::Call {
                callee: callee.clone(),
                args: copy_exprs(args, Ghost(whole)),
                ty: ty.duplicate(),
                span: *span,
            }
        },
        TypedExpr::ArrayLiteral { elements, ty, span } => {
            proof {
                assert forall|i: int| 0 <= i < elements@.len() implies decreases_to!(whole => #[trigger] elements@[i]) by {
                    assert(decreases_to!(whole => whole->ArrayLiteral_elements));
                }
            }
            TypedExpr::ArrayLiteral {
                elements: copy_exprs(elements, Ghost(whole)),
                ty: ty.duplicate(),
                span: *span,
            }
        },
        TypedExpr::Index { target, index, is_safe, ty, span } => TypedExpr::Index {
            target: Box::new(copy_expr(target)),
            index: Box::new(copy_expr(index)),
            is_safe: *is_safe,
            ty: ty.duplicate(),
            span: *span,
        },
    }
}

// ---------------------------------------------------------------------------
// Folding integer arithmetic on literals
// ---------------------------------------------------------------------------

/// The integer value of a literal expression.
pub open spec fn int_literal(e: TypedExpr) -> Option<i64> {
    match e {
        TypedExpr::Literal { lit: TypedLiteral::Int(v, _), .. } => Some(v),
        _ => None,
    }
}

/// `e` with its binary `+`, `-`, `*` and unary `-` on integer literals
/// computed, innermost first; calls, indexes and array literals are left as
/// they are.
pub open spec fn folded(e: TypedExpr) -> TypedExpr
    decreases e,
{
    match e {
        TypedExpr::Binary { op, left, right, ty, span } => {
            let l = folded(*left);
            let r = folded(*right);
            match (int_literal(l), int_literal(r)) {
                (Some(a), Some(b)) => match wrapping_op(op, a, b) {
                    Some(v) => TypedExpr::Literal { lit: TypedLiteral::Int(v, ty), ty, span },
                    None => TypedExpr::Binary { op, left: Box::new(l), right: Box::new(r), ty, span },
                },
                _ => TypedExpr::Binary { op, left: Box::new(l), right: Box::new(r), ty, span },
            }
        },
        TypedExpr::Unary { op, expr, ty, span } => {
            let inner = folded(*expr);
            match int_literal(inner) {
                Some(v) => if op == UnaryOp::Neg {
                    TypedExpr::Literal { lit: TypedLiteral::Int(-v as i64, ty), ty, span }
                } else {
                    TypedExpr::Unary { op, expr: Box::new(inner), ty, span }
                },
                None => TypedExpr::Unary { op, expr: Box::new(inner), ty, span },
            }
        },
        _ => e,
    }
}

/// Folding `e` never negates `i64::MIN` (where `-` would overflow).
pub open spec fn fold_ok(e: TypedExpr) -> bool
    decreases e,
{
    match e {
        TypedExpr::Binary { left, right, .. } => fold_ok(*left) && fold_ok(*right),
        TypedExpr::Unary { op, expr, .. } => fold_ok(*expr) && (op == UnaryOp::Neg ==> int_literal(
            folded(*expr),
        ) != Some(i64::MIN)),
        _ => true,
    }
}

/// Folding keeps the value: wherever the arithmetic of `e` on literals and
/// names has a value, its folded form has the same value, and where it has
/// none, neither has the folded form.
pub proof fn lemma_fold_keeps_value(e: TypedExpr, env: Map<Seq<char>, i64>)
    requires
        fold_ok(e),
    ensures
        int_value(folded(e), env) == int_value(e, env),
    decreases e,
{
    match e {
        TypedExpr::Binary { op, left, right, ty, span } => {
            lemma_fold_keeps_value(*left, env);
            lemma_fold_keeps_value(*right, env);
        },
        TypedExpr::Unary { op, expr, ty, span } => {
            lemma_fold_keeps_value(*expr, env);
        },
        _ => {},
    }
}

/// Folds the integer arithmetic on literals in `e`.
pub fn fold_constants(e: TypedExpr) -> (r: TypedExpr)
    requires
        fold_ok(e),
    ensures
        r == folded(e),
    decreases e,
{
    match e {
        TypedExpr::Binary { op, left, right, ty, span } => {
            let l = fold_constants(*left);
            let r = fold_constants(*right);
            let lv = match &l {
                TypedExpr::Literal { lit: TypedLiteral::Int(v, _), .. } => Some(*v),
                _ => None,
            };
            let rv = match &r {
                TypedExpr::Literal { lit: TypedLiteral::Int(v, _), .. } => Some(*v),
                _ => None,
            };
            match (lv, rv) {
                (Some(a), Some(b)) => {
                    let res = match op {
                        BinaryOp::Add => Some(a.wrapping_add(b)),
                        BinaryOp::Sub => Some(a.wrapping_sub(b)),
                        BinaryOp::Mul => Some(a.wrapping_mul(b)),
                        _ => None,
                    };
                    match res {
                        Some(v) => TypedExpr::Literal {
                            lit: TypedLiteral::Int(v, ty.duplicate()),
                            ty,
                            span,
                        },
                        None => TypedExpr::Binary { op, left: Box::new(l), right: Box::new(r), ty, span },
                    }
                },
                _ => TypedExpr::Binary { op, left: Box::new(l), right: Box::new(r), ty, span },
            }
        },
        TypedExpr::Unary { op, expr, ty, span } => {
            let inner = fold_constants(*expr);
            let iv = match &inner {
                TypedExpr::Literal { lit: TypedLiteral::Int(v, _), .. } => Some(*v),
                _ => None,
            };
            match iv {
                Some(v) => match op {
                    UnaryOp::Neg => TypedExpr::Literal {
                        lit: TypedLiteral::Int(-v, ty.duplicate()),
                        ty,
                        span,
                    },
                    _ => TypedExpr::Unary { op, expr: Box::new(inner), ty, span },
                },
                None => TypedExpr::Unary { op, expr: Box::new(inner), ty, span },
            }
        },
        _ => e,
    }
}

// ---------------------------------------------------------------------------
// Writing out `dot(a, b)`
// ---------------------------------------------------------------------------

/// The index `k` as an `i64` literal.
pub open spec fn index_literal(k: int, span: Span) -> TypedExpr {
    TypedExpr::Literal { lit: TypedLiteral::Int(k as i64, Type::I64), ty: Type::I64, span }
}

/// `x` is `arr[k]`, with a copy of `arr` and the index known to be in bounds.
pub open spec fn element_read(x: TypedExpr, arr: TypedExpr, k: int, elem: Type, span: Span) -> bool {
    match x {
        TypedExpr::Index { target, index, is_safe, ty, span: sp } => same_tree(arr, *target) && *index
            == index_literal(k, span) && is_safe && ty == elem && sp == span,
        _ => false,
    }
}

/// `p` is `a[k] * b[k]`.
pub open spec fn dot_term(p: TypedExpr, a: TypedExpr, b: TypedExpr, k: int, elem: Type, span: Span) -> bool {
    match p {
        TypedExpr::Binary { op, left, right, ty, span: sp } => op == BinaryOp::Mul && ty == elem && sp
            == span && element_read(*left, a, k, elem, span) && element_read(*right, b, k, elem, span),
        _ => false,
    }
}

/// `r` is `a[0] * b[0] + ... + a[n-1] * b[n-1]`, added from the left.
pub open spec fn dot_sum(r: TypedExpr, a: TypedExpr, b: TypedExpr, n: int, elem: Type, ty: Type, span: Span) -> bool
    decreases n,
{
    if n <= 1 {
        dot_term(r, a, b, 0, elem, span)
    } else {
        match r {
            TypedExpr::Binary { op, left, right, ty: t, span: sp } => op == BinaryOp::Add && t == ty && sp
                == span && dot_sum(*left, a, b, n - 1, elem, ty, span) && dot_term(
                *right,
                a,
                b,
                n - 1,
                elem,
                span,
            ),
            _ => false,
        }
    }
}

/// The element type and length when `e` is `dot(a, b)` on two arrays of the
/// same length, between 1 and 16.
pub open spec fn dot_shape(e: TypedExpr) -> Option<(Type, usize)> {
    match e {
        TypedExpr::Call { callee, args, .. } => if callee@ == "dot"@ && args@.len() == 2 {
            match (args@[0].spec_ty(), args@[1].spec_ty()) {
                (Type::Array(elem, la), Type::Array(_, lb)) => if la == lb && la <= 16 && la > 0 {
                    Some((*elem, la))
                } else {
                    None
                },
                _ => None,
            }
        } else {
            None
        },
        _ => None,
    }
}

/// `r` is `e` with each `dot` call reached through unary and binary
/// operators written out.
pub open spec fn dots_expanded(e: TypedExpr, r: TypedExpr) -> bool
    decreases e,
{
    match e {
        TypedExpr::Call { callee, args, ty, span } => match dot_shape(e) {
            Some((elem, n)) => dot_sum(r, args@[0], args@[1], n as int, elem, ty, span),
            None => r == e,
        },
        TypedExpr::Binary { op, left, right, ty, span } => match r {
            TypedExpr::Binary { op: op2, left: l2, right: r2, ty: ty2, span: sp2 } => op2 == op && ty2
                == ty && sp2 == span && dots_expanded(*left, *l2) && dots_expanded(*right, *r2),
            _ => false,
        },
        TypedExpr::Unary { op, expr, ty, span } => match r {
            TypedExpr::Unary { op: op2, expr: e2, ty: ty2, span: sp2 } => op2 == op && ty2 == ty && sp2
                == span && dots_expanded(*expr, *e2),
            _ => false,
        },
        _ => r == e,
    }
}

fn element_of(arr: &TypedExpr, k: usize, elem: &Type, span: Span) -> (x: TypedExpr)
    requires
        k <= 16,
    ensures
        element_read(x, *arr, k as int, *elem, span),
{
    let idx = TypedExpr::Literal { lit: TypedLiteral::Int(k as i64, Type::I64), ty: Type::I64, span };
    TypedExpr::Index {
        target: Box::new(copy_expr(arr)),
        index: Box::new(idx),
        is_safe: true,
        ty: elem.duplicate(),
        span,
    }
}

fn dot_product_term(a: &TypedExpr, b: &TypedExpr, k: usize, elem: &Type, span: Span) -> (p: TypedExpr)
    requires
        k <= 16,
    ensures
        dot_term(p, *a, *b, k as int, *elem, span),
{
    TypedExpr::Binary {
        op: BinaryOp::Mul,
        left: Box::new(element_of(a, k, elem, span)),
        right: Box::new(element_of(b, k, elem, span)),
        ty: elem.duplicate(),
        span,
    }
}

/// `a[0] * b[0] + ... + a[n-1] * b[n-1]`.
fn dot_sum_of(a: &TypedExpr, b: &TypedExpr, n: usize, elem: &Type, ty: &Type, span: Span) -> (r: TypedExpr)
    requires
        1 <= n <= 16,
    ensures
        dot_sum(r, *a, *b, n as int, *elem, *ty, span),
{
    let mut current = dot_product_term(a, b, 0, elem, span);
    let mut k: usize = 1;
    while k < n
        invariant
            1 <= k <= n <= 16,
            dot_sum(current, *a, *b, k as int, *elem, *ty, span),
        decreases n - k,
    {
        let next = dot_product_term(a, b, k, elem, span);
        current = TypedExpr::Binary {
            op: BinaryOp::Add,
            left: Box::new(current),
            right: Box::new(next),
            ty: ty.duplicate(),
            span,
        };
        k += 1;
    }
    current
}

/// Writes out the `dot` calls reached through unary and binary operators.
pub fn expand_dot_calls(e: TypedExpr) -> (r: TypedExpr)
    ensures
        dots_expanded(e, r),
    decreases e,
{
    match e {
        TypedExpr::Call { callee, args, ty, span } => {
            let dot_name = String::from_str("dot");
            if callee == dot_name && args.len() == 2 {
                let lt = args[0].ty();
                let rt = args[1].ty();
                match (&lt, &rt) {
                    (Type::Array(elem, la), Type::Array(_, lb)) => {
                        if *la == *lb && *la <= 16 && *la > 0 {
                            return dot_sum_of(&args[0], &args[1], *la, elem, &ty, span);
                        }
                    },
                    _ => {},
                }
            }
            TypedExpr::Call { callee, args, ty, span }
        },
        TypedExpr::Binary { op, left, right, ty, span } => {
            let l = expand_dot_calls(*left);
            let r = expand_dot_calls(*right);
            TypedExpr::Binary { op, left: Box::new(l), right: Box::new(r), ty, span }
        },
        TypedExpr::Unary { op, expr, ty, span } => {
            let inner = expand_dot_calls(*expr);
            TypedExpr::Unary { op, expr: Box::new(inner), ty, span }
        },
        _ => e,
    }
}

// ---------------------------------------------------------------------------
// Statements whose expressions are rewritten
// ---------------------------------------------------------------------------

/// `r` is `s` with each of its expressions `e` (nested blocks included)
/// replaced by an `x` with `rel(e, x)`.
pub open spec fn stmt_mapped(s: TypedStmt, r: TypedStmt, rel: spec_fn(TypedExpr, TypedExpr) -> bool) -> bool
    decreases s,
{
    match s {
        TypedStmt::Let { name, is_mutable, ty, value, span } => match r {
            TypedStmt::Let { name: n2, is_mutable: m2, ty: t2, value: v2, span: s2 } => n2 == name && m2
                == is_mutable && t2 == ty && s2 == span && rel(value, v2),
            _ => false,
        },
        TypedStmt::Assign { name, value, span } => match r {
            TypedStmt::Assign { name: n2, value: v2, span: s2 } => n2 == name && s2 == span && rel(
                value,
                v2,
            ),
            _ => false,
        },
        TypedStmt::IndexAssign { target, index, value, is_safe, span } => match r {
            TypedStmt::IndexAssign { target: t2, index: i2, value: v2, is_safe: f2, span: s2 } => t2
                == target && f2 == is_safe && s2 == span && rel(index, i2) && rel(value, v2),
            _ => false,
        },
        TypedStmt::Return(v, span) => match r {
            TypedStmt::Return(v2, s2) => s2 == span && match v {
                Some(e) => v2 matches Some(e2) && rel(e, e2),
                None => v2 is None,
            },
            _ => false,
        },
        TypedStmt::Break(span) => r == s,
        TypedStmt::Expr(e) => match r {
            TypedStmt::Expr(e2) => rel(e, e2),
            _ => false,
        },
        TypedStmt::If { condition, then_branch, else_branch, span } => match r {
            TypedStmt::If { condition: c2, then_branch: t2, else_branch: e2, span: s2 } => {
                &&& s2 == span
                &&& rel(condition, c2)
                &&& t2.span == then_branch.span
                &&& stmts_mapped(then_branch.stmts@, t2.stmts@, rel)
                &&& match else_branch {
                    Some(b) => e2 matches Some(b2) && b2.span == b.span && stmts_mapped(
                        b.stmts@,
                        b2.stmts@,
                        rel,
                    ),
                    None => e2 is None,
                }
            },
            _ => false,
        },
        TypedStmt::While { condition, body, span } => match r {
            TypedStmt::While { condition: c2, body: b2, span: s2 } => s2 == span && rel(condition, c2)
                && b2.span == body.span && stmts_mapped(body.stmts@, b2.stmts@, rel),
            _ => false,
        },
    }
}

pub open spec fn stmts_mapped(ss: Seq<TypedStmt>, rs: Seq<TypedStmt>, rel: spec_fn(TypedExpr, TypedExpr) -> bool) -> bool
    decreases ss,
{
    &&& rs.len() == ss.len()
    &&& forall|i: int|
        #![trigger ss[i]]
        #![trigger rs[i]]
        0 <= i < ss.len() ==> stmt_mapped(ss[i], rs[i], rel)
}

/// Every expression of `s` (nested blocks included) satisfies `p`.
pub open spec fn stmt_exprs_all(s: TypedStmt, p: spec_fn(TypedExpr) -> bool) -> bool
    decreases s,
{
    match s {
        TypedStmt::Let { value, .. } => p(value),
        TypedStmt::Assign { value, .. } => p(value),
        TypedStmt::IndexAssign { index, value, .. } => p(index) && p(value),
        TypedStmt::Return(Some(e), _) => p(e),
        TypedStmt::Return(None, _) => true,
        TypedStmt::Break(_) => true,
        TypedStmt::Expr(e) => p(e),
        TypedStmt::If { condition, then_branch, else_branch, .. } => p(condition) && stmts_exprs_all(
            then_branch.stmts@,
            p,
        ) && match else_branch {
            Some(b) => stmts_exprs_all(b.stmts@, p),
            None => true,
        },
        TypedStmt::While { condition, body, .. } => p(condition) && stmts_exprs_all(body.stmts@, p),
    }
}

pub open spec fn stmts_exprs_all(ss: Seq<TypedStmt>, p: spec_fn(TypedExpr) -> bool) -> bool
    decreases ss,
{
    forall|i: int| #![trigger ss[i]] 0 <= i < ss.len() ==> stmt_exprs_all(ss[i], p)
}

pub open spec fn dots_rel() -> spec_fn(TypedExpr, TypedExpr) -> bool {
    |e: TypedExpr, r: TypedExpr| dots_expanded(e, r)
}

pub open spec fn fold_rel() -> spec_fn(TypedExpr, TypedExpr) -> bool {
    |e: TypedExpr, r: TypedExpr| r == folded(e)
}

pub open spec fn fold_ok_pred() -> spec_fn(TypedExpr) -> bool {
    |e: TypedExpr| fold_ok(e)
}

fn dots_in_stmts(ss: Vec<TypedStmt>, Ghost(whole): Ghost<TypedBlock>) -> (rs: Vec<TypedStmt>)
    requires
        whole.stmts@ == ss@,
    ensures
        stmts_mapped(ss@, rs@, dots_rel()),
    decreases whole, 0nat,
{
    let ghost orig = ss@;
    let mut ss = ss;
    let mut rs: Vec<TypedStmt> = Vec::new();
    let n = ss.len();
    while ss.len() > 0
        invariant
            whole.stmts@ == orig,
            n == orig.len(),
            rs@.len() + ss@.len() == n,
            ss@ == orig.subrange(rs@.len() as int, n as int),
            forall|i: int|
                #![trigger orig[i]]
                #![trigger rs@[i]]
                0 <= i < rs@.len() ==> stmt_mapped(orig[i], rs@[i], dots_rel()),
        decreases ss@.len(),
    {
        let ghost k = rs@.len() as int;
        let s = ss.remove(0);
        assert(s == orig[k]);
        proof {
            assert(decreases_to!(whole => whole.stmts));
            assert(decreases_to!(whole.stmts => whole.stmts@));
            assert(decreases_to!(whole.stmts@ => whole.stmts@[k]));
        }
        let r = dots_in_stmt(s);
        rs.push(r);
        assert(ss@ =~= orig.subrange(rs@.len() as int, n as int));
    }
    rs
}

fn dots_in_block(b: TypedBlock) -> (r: TypedBlock)
    ensures
        r.span == b.span,
        stmts_mapped(b.stmts@, r.stmts@, dots_rel()),
    decreases b, 1nat,
{
    let ghost whole = b;
    let TypedBlock { stmts, span } = b;
    let stmts2 = dots_in_stmts(stmts, Ghost(whole));
    TypedBlock { stmts: stmts2, span }
}

fn dots_in_stmt(s: TypedStmt) -> (r: TypedStmt)
    ensures
        stmt_mapped(s, r, dots_rel()),
    decreases s, 2nat,
{
    match s {
        TypedStmt::Let { name, is_mutable, ty, value, span } => {
            let v2 = expand_dot_calls(value);
            TypedStmt::Let { name, is_mutable, ty, value: v2, span }
        },
        TypedStmt::Assign { name, value, span } => {
            let v2 = expand_dot_calls(value);
            TypedStmt::Assign { name, value: v2, span }
        },
        TypedStmt::IndexAssign { target, index, value, is_safe, span } => {
            let i2 = expand_dot_calls(index);
            let v2 = expand_dot_calls(value);
            TypedStmt::IndexAssign { target, index: i2, value: v2, is_safe, span }
        },
        TypedStmt::Return(v, span) => match v {
            Some(e) => TypedStmt::Return(Some(expand_dot_calls(e)), span),
            None => TypedStmt::Return(None, span),
        },
        TypedStmt::Break(span) => TypedStmt::Break(span),
        TypedStmt::Expr(e) => TypedStmt::Expr(expand_dot_calls(e)),
        TypedStmt::If { condition, then_branch, else_branch, span } => {
            let c2 = expand_dot_calls(condition);
            let t2 = dots_in_block(then_branch);
            let e2 = match else_branch {
                Some(b) => Some(dots_in_block(b)),
                None => None,
            };
            TypedStmt::If { condition: c2, then_branch: t2, else_branch: e2, span }
        },
        TypedStmt::While { condition, body, span } => {
            let c2 = expand_dot_calls(condition);
            let b2 = dots_in_block(body);
            TypedStmt::While { condition: c2, body: b2, span }
        },
    }
}

fn fold_in_stmts(ss: Vec<TypedStmt>, Ghost(whole): Ghost<TypedBlock>) -> (rs: Vec<TypedStmt>)
    requires
        whole.stmts@ == ss@,
        stmts_exprs_all(ss@, fold_ok_pred()),
    ensures
        stmts_mapped(ss@, rs@, fold_rel()),
    decreases whole, 0nat,
{
    let ghost orig = ss@;
    let mut ss = ss;
    let mut rs: Vec<TypedStmt> = Vec::new();
    let n = ss.len();
    while ss.len() > 0
        invariant
            whole.stmts@ == orig,
            n == orig.len(),
            stmts_exprs_all(orig, fold_ok_pred()),
            rs@.len() + ss@.len() == n,
            ss@ == orig.subrange(rs@.len() as int, n as int),
            forall|i: int|
                #![trigger orig[i]]
                #![trigger rs@[i]]
                0 <= i < rs@.len() ==> stmt_mapped(orig[i], rs@[i], fold_rel()),
        decreases ss@.len(),
    {
        let ghost k = rs@.len() as int;
        let s = ss.remove(0);
        assert(s == orig[k]);
        proof {
            assert(decreases_to!(whole => whole.stmts));
            assert(decreases_to!(whole.stmts => whole.stmts@));
            assert(decreases_to!(whole.stmts@ => whole.stmts@[k]));
        }
        let r = fold_in_stmt(s);
        rs.push(r);
        assert(ss@ =~= orig.subrange(rs@.len() as int, n as int));
    }
    rs
}

fn fold_in_block(b: TypedBlock) -> (r: TypedBlock)
    requires
        stmts_exprs_all(b.stmts@, fold_ok_pred()),
    ensures
        r.span == b.span,
        stmts_mapped(b.stmts@, r.stmts@, fold_rel()),
    decreases b, 1nat,
{
    let ghost whole = b;
    let TypedBlock { stmts, span } = b;
    let stmts2 = fold_in_stmts(stmts, Ghost(whole));
    TypedBlock { stmts: stmts2, span }
}

fn fold_in_stmt(s: TypedStmt) -> (r: TypedStmt)
    requires
        stmt_exprs_all(s, fold_ok_pred()),
    ensures
        stmt_mapped(s, r, fold_rel()),
    decreases s, 2nat,
{
    match s {
        TypedStmt::Let { name, is_mutable, ty, value, span } => {
            let v2 = fold_constants(value);
            TypedStmt::Let { name, is_mutable, ty, value: v2, span }
        },
        TypedStmt::Assign { name, value, span } => {
            let v2 = fold_constants(value);
            TypedStmt::Assign { name, value: v2, span }
        },
        TypedStmt::IndexAssign { target, index, value, is_safe, span } => {
            let i2 = fold_constants(index);
            let v2 = fold_constants(value);
            TypedStmt::IndexAssign { target, index: i2, value: v2, is_safe, span }
        },
        TypedStmt::Return(v, span) => match v {
            Some(e) => TypedStmt::Return(Some(fold_constants(e)), span),
            None => TypedStmt::Return(None, span),
        },
        TypedStmt::Break(span) => TypedStmt::Break(span),
        TypedStmt::Expr(e) => TypedStmt::Expr(fold_constants(e)),
        TypedStmt::If { condition, then_branch, else_branch, span } => {
            let c2 = fold_constants(condition);
            let t2 = fold_in_block(then_branch);
            let e2 = match else_branch {
                Some(b) => Some(fold_in_block(b)),
                None => None,
            };
            TypedStmt::If { condition: c2, then_branch: t2, else_branch: e2, span }
        },
        TypedStmt::While { condition, body, span } => {
            let c2 = fold_constants(condition);
            let b2 = fold_in_block(body);
            TypedStmt::While { condition: c2, body: b2, span }
        },
    }
}

// ---------------------------------------------------------------------------
// What the function body does to its arrays
// ---------------------------------------------------------------------------

/// The elements of the array literal that `name` is known to hold after `s`,
/// starting from `cur`: a `let` of `name` to an array literal binds it; an
/// assignment of `name`, or of one of its elements at a non-literal index,
/// forgets it; branches and loop bodies are taken in order.
pub open spec fn literal_after_stmt(s: TypedStmt, name: Seq<char>, cur: Option<Seq<TypedExpr>>) -> Option<
    Seq<TypedExpr>,
>
    decreases s,
{
    match s {
        TypedStmt::Let { name: n, value, .. } => match value {
            TypedExpr::ArrayLiteral { elements, .. } => if n@ == name {
                Some(elements@)
            } else {
                cur
            },
            _ => cur,
        },
        TypedStmt::Assign { name: n, .. } => if n@ == name {
            None
        } else {
            cur
        },
        TypedStmt::IndexAssign { target, index, .. } => if target@ == name && int_literal(index) is None {
            None
        } else {
            cur
        },
        TypedStmt::If { then_branch, else_branch, .. } => {
            let after_then = literal_after(then_branch.stmts@, name, cur);
            match else_branch {
                Some(b) => literal_after(b.stmts@, name, after_then),
                None => after_then,
            }
        },
        TypedStmt::While { body, .. } => literal_after(body.stmts@, name, cur),
        _ => cur,
    }
}

pub open spec fn literal_after(ss: Seq<TypedStmt>, name: Seq<char>, cur: Option<Seq<TypedExpr>>) -> Option<
    Seq<TypedExpr>,
>
    decreases ss,
{
    if ss.len() == 0 {
        cur
    } else {
        literal_after_stmt(ss[ss.len() - 1], name, literal_after(ss.subrange(0, ss.len() - 1), name, cur))
    }
}

/// `s` assigns `name`, or one of its elements at a non-literal index.
pub open spec fn stmt_assigns_dynamically(s: TypedStmt, name: Seq<char>) -> bool
    decreases s,
{
    match s {
        TypedStmt::Assign { name: n, .. } => n@ == name,
        TypedStmt::IndexAssign { target, index, .. } => target@ == name && int_literal(index) is None,
        TypedStmt::If { then_branch, else_branch, .. } => assigned_dynamically(then_branch.stmts@, name)
            || match else_branch {
            Some(b) => assigned_dynamically(b.stmts@, name),
            None => false,
        },
        TypedStmt::While { body, .. } => assigned_dynamically(body.stmts@, name),
        _ => false,
    }
}

pub open spec fn assigned_dynamically(ss: Seq<TypedStmt>, name: Seq<char>) -> bool
    decreases ss,
{
    if ss.len() == 0 {
        false
    } else {
        assigned_dynamically(ss.subrange(0, ss.len() - 1), name) || stmt_assigns_dynamically(
            ss[ss.len() - 1],
            name,
        )
    }
}

/// `s` assigns the element `idx` of `name` at a literal index.
pub open spec fn stmt_assigns_element(s: TypedStmt, name: Seq<char>, idx: i64) -> bool
    decreases s,
{
    match s {
        TypedStmt::IndexAssign { target, index, .. } => target@ == name && int_literal(index) == Some(idx),
        TypedStmt::If { then_branch, else_branch, .. } => element_assigned(then_branch.stmts@, name, idx)
            || match else_branch {
            Some(b) => element_assigned(b.stmts@, name, idx),
            None => false,
        },
        TypedStmt::While { body, .. } => element_assigned(body.stmts@, name, idx),
        _ => false,
    }
}

pub open spec fn element_assigned(ss: Seq<TypedStmt>, name: Seq<char>, idx: i64) -> bool
    decreases ss,
{
    if ss.len() == 0 {
        false
    } else {
        element_assigned(ss.subrange(0, ss.len() - 1), name, idx) || stmt_assigns_element(
            ss[ss.len() - 1],
            name,
            idx,
        )
    }
}

/// The element that a read `target[index]` can be replaced by: `target`
/// names an array literal of the body that is never assigned (as a whole or
/// at a non-literal index), `index` is a literal in its range, and that
/// element is never assigned.
pub open spec fn element_replacement(target: TypedExpr, index: TypedExpr, body: Seq<TypedStmt>) -> Option<TypedExpr> {
    match (target, int_literal(index)) {
        (TypedExpr::Ident { name, .. }, Some(idx)) => if !assigned_dynamically(body, name@)
            && !element_assigned(body, name@, idx) {
            match literal_after(body, name@, None) {
                Some(els) => if 0 <= idx < els.len() {
                    Some(els[idx as int])
                } else {
                    None
                },
                None => None,
            }
        } else {
            None
        },
        _ => None,
    }
}

pub open spec fn opt_elems(o: Option<&Vec<TypedExpr>>) -> Option<Seq<TypedExpr>> {
    match o {
        Some(v) => Some(v@),
        None => None,
    }
}

fn literal_after_in_block<'a>(b: &'a TypedBlock, name: &String, cur: Option<&'a Vec<TypedExpr>>) -> (r: Option<
    &'a Vec<TypedExpr>,
>)
    ensures
        opt_elems(r) == literal_after(b.stmts@, name@, opt_elems(cur)),
    decreases *b, 0nat,
{
    let ghost whole = *b;
    let mut state = cur;
    let mut i: usize = 0;
    assert(b.stmts@.subrange(0, 0) =~= Seq::<TypedStmt>::empty());
    while i < b.stmts.len()
        invariant
            whole == *b,
            i <= b.stmts@.len(),
            opt_elems(state) == literal_after(b.stmts@.subrange(0, i as int), name@, opt_elems(cur)),
        decreases b.stmts@.len() - i,
    {
        proof {
            assert(decreases_to!(whole => whole.stmts));
            assert(decreases_to!(whole.stmts => whole.stmts@));
            assert(decreases_to!(whole.stmts@ => whole.stmts@[i as int]));
            let pre = b.stmts@.subrange(0, i + 1);
            assert(pre.subrange(0, pre.len() - 1) =~= b.stmts@.subrange(0, i as int));
        }
        state = literal_after_in_stmt(&b.stmts[i], name, state);
        i += 1;
    }
    assert(b.stmts@.subrange(0, i as int) =~= b.stmts@);
    state
}

fn literal_after_in_stmt<'a>(s: &'a TypedStmt, name: &String, cur: Option<&'a Vec<TypedExpr>>) -> (r: Option<
    &'a Vec<TypedExpr>,
>)
    ensures
        opt_elems(r) == literal_after_stmt(*s, name@, opt_elems(cur)),
    decreases *s, 1nat,
{
    match s {
        TypedStmt::Let { name: n, value, .. } => match value {
            TypedExpr::ArrayLiteral { elements, .. } => if *n == *name {
                Some(elements)
            } else {
                cur
            },
            _ => cur,
        },
        TypedStmt::Assign { name: n, .. } => if *n == *name {
            None
        } else {
            cur
        },
        TypedStmt::IndexAssign { target, index, .. } => {
            let literal_index = match index {
                TypedExpr::Literal { lit: TypedLiteral::Int(_, _), .. } => true,
                _ => false,
            };
            if *target == *name && !literal_index {
                None
            } else {
                cur
            }
        },
        TypedStmt::If { then_branch, else_branch, .. } => {
            let after_then = literal_after_in_block(then_branch, name, cur);
            match else_branch {
                Some(b) => literal_after_in_block(b, name, after_then),
                None => after_then,
            }
        },
        TypedStmt::While { body, .. } => literal_after_in_block(body, name, cur),
        _ => cur,
    }
}

fn dynamic_in_block(b: &TypedBlock, name: &String) -> (r: bool)
    ensures
        r == assigned_dynamically(b.stmts@, name@),
    decreases *b, 0nat,
{
    let ghost whole = *b;
    let mut found = false;
    let mut i: usize = 0;
    assert(b.stmts@.subrange(0, 0) =~= Seq::<TypedStmt>::empty());
    while i < b.stmts.len()
        invariant
            whole == *b,
            i <= b.stmts@.len(),
            found == assigned_dynamically(b.stmts@.subrange(0, i as int), name@),
        decreases b.stmts@.len() - i,
    {
        proof {
            assert(decreases_to!(whole => whole.stmts));
            assert(decreases_to!(whole.stmts => whole.stmts@));
            assert(decreases_to!(whole.stmts@ => whole.stmts@[i as int]));
            let pre = b.stmts@.subrange(0, i + 1);
            assert(pre.subrange(0, pre.len() - 1) =~= b.stmts@.subrange(0, i as int));
        }
        let here = dynamic_in_stmt(&b.stmts[i], name);
        found = found || here;
        i += 1;
    }
    assert(b.stmts@.subrange(0, i as int) =~= b.stmts@);
    found
}

fn dynamic_in_stmt(s: &TypedStmt, name: &String) -> (r: bool)
    ensures
        r == stmt_assigns_dynamically(*s, name@),
    decreases *s, 1nat,
{
    match s {
        TypedStmt::Assign { name: n, .. } => *n == *name,
        TypedStmt::IndexAssign { target, index, .. } => {
            let literal_index = match index {
                TypedExpr::Literal { lit: TypedLiteral::Int(_, _), .. } => true,
                _ => false,
            };
            *target == *name && !literal_index
        },
        TypedStmt::If { then_branch, else_branch, .. } => {
            if dynamic_in_block(then_branch, name) {
                true
            } else {
                match else_branch {
                    Some(b) => dynamic_in_block(b, name),
                    None => false,
                }
            }
        },
        TypedStmt::While { body, .. } => dynamic_in_block(body, name),
        _ => false,
    }
}

fn element_in_block(b: &TypedBlock, name: &String, idx: i64) -> (r: bool)
    ensures
        r == element_assigned(b.stmts@, name@, idx),
    decreases *b, 0nat,
{
    let ghost whole = *b;
    let mut found = false;
    let mut i: usize = 0;
    assert(b.stmts@.subrange(0, 0) =~= Seq::<TypedStmt>::empty());
    while i < b.stmts.len()
        invariant
            whole == *b,
            i <= b.stmts@.len(),
            found == element_assigned(b.stmts@.subrange(0, i as int), name@, idx),
        decreases b.stmts@.len() - i,
    {
        proof {
            assert(decreases_to!(whole => whole.stmts));
            assert(decreases_to!(whole.stmts => whole.stmts@));
            assert(decreases_to!(whole.stmts@ => whole.stmts@[i as int]));
            let pre = b.stmts@.subrange(0, i + 1);
            assert(pre.subrange(0, pre.len() - 1) =~= b.stmts@.subrange(0, i as int));
        }
        let here = element_in_stmt(&b.stmts[i], name, idx);
        found = found || here;
        i += 1;
    }
    assert(b.stmts@.subrange(0, i as int) =~= b.stmts@);
    found
}

fn element_in_stmt(s: &TypedStmt, name: &String, idx: i64) -> (r: bool)
    ensures
        r == stmt_assigns_element(*s, name@, idx),
    decreases *s, 1nat,
{
    match s {
        TypedStmt::IndexAssign { target, index, .. } => {
            let same_index = match index {
                TypedExpr::Literal { lit: TypedLiteral::Int(v, _), .. } => *v == idx,
                _ => false,
            };
            *target == *name && same_index
        },
        TypedStmt::If { then_branch, else_branch, .. } => {
            if element_in_block(then_branch, name, idx) {
                true
            } else {
                match else_branch {
                    Some(b) => element_in_block(b, name, idx),
                    None => false,
                }
            }
        },
        TypedStmt::While { body, .. } => element_in_block(body, name, idx),
        _ => false,
    }
}

/// The element that `target[index]` can be replaced by, in `body`.
fn replacement_in<'a>(target: &TypedExpr, index: &TypedExpr, body: &'a TypedBlock) -> (r: Option<&'a TypedExpr>)
    ensures
        match r {
            Some(x) => element_replacement(*target, *index, body.stmts@) == Some(*x),
            None => element_replacement(*target, *index, body.stmts@) is None,
        },
{
    match target {
        TypedExpr::Ident { name, .. } => {
            if dynamic_in_block(body, name) {
                return None;
            }
            match index {
                TypedExpr::Literal { lit: TypedLiteral::Int(idx, _), .. } => {
                    if element_in_block(body, name, *idx) {
                        return None;
                    }
                    match literal_after_in_block(body, name, None) {
                        Some(elements) => {
                            if *idx >= 0 && (*idx as u64) < (elements.len() as u64) {
                                Some(&elements[*idx as usize])
                            } else {
                                None
                            }
                        },
                        None => None,
                    }
                },
                _ => None,
            }
        },
        _ => None,
    }
}

// ---------------------------------------------------------------------------
// Replacing reads of constant array elements
// ---------------------------------------------------------------------------

/// `r` is `e` with each element read that `element_replacement` allows
/// replaced by (a copy of) the element; reads are looked for through unary
/// and binary operators, call arguments and indexes.
pub open spec fn propagated(e: TypedExpr, body: Seq<TypedStmt>, r: TypedExpr) -> bool
    decreases e, 1nat,
{
    match e {
        TypedExpr::Index { target, index, is_safe, ty, span } => match element_replacement(
            *target,
            *index,
            body,
        ) {
            Some(x) => same_tree(x, r),
            None => match r {
                TypedExpr::Index { target: t2, index: i2, is_safe: s2, ty: ty2, span: sp2 } => s2
                    == is_safe && ty2 == ty && sp2 == span && propagated(*target, body, *t2)
                    && propagated(*index, body, *i2),
                _ => false,
            },
        },
        TypedExpr::Binary { op, left, right, ty, span } => match r {
            TypedExpr::Binary { op: op2, left: l2, right: r2, ty: ty2, span: sp2 } => op2 == op && ty2
                == ty && sp2 == span && propagated(*left, body, *l2) && propagated(*right, body, *r2),
            _ => false,
        },
        TypedExpr::Unary { op, expr, ty, span } => match r {
            TypedExpr::Unary { op: op2, expr: e2, ty: ty2, span: sp2 } => op2 == op && ty2 == ty && sp2
                == span && propagated(*expr, body, *e2),
            _ => false,
        },
        TypedExpr::Call { callee, args, ty, span } => match r {
            TypedExpr::Call { callee: c2, args: a2, ty: ty2, span: sp2 } => c2 == callee && ty2 == ty
                && sp2 == span && propagated_all(args@, body, a2@),
            _ => false,
        },
        _ => same_tree(e, r),
    }
}

pub open spec fn propagated_all(es: Seq<TypedExpr>, body: Seq<TypedStmt>, rs: Seq<TypedExpr>) -> bool
    decreases es, 0nat,
{
    &&& rs.len() == es.len()
    &&& forall|i: int|
        #![trigger es[i]]
        #![trigger rs[i]]
        0 <= i < es.len() ==> propagated(es[i], body, rs[i])
}

pub open spec fn prop_rel(body: Seq<TypedStmt>) -> spec_fn(TypedExpr, TypedExpr) -> bool {
    |e: TypedExpr, r: TypedExpr| propagated(e, body, r)
}

fn propagate_all(es: &Vec<TypedExpr>, body: &TypedBlock, Ghost(whole): Ghost<TypedExpr>) -> (rs: Vec<TypedExpr>)
    requires
        forall|i: int| 0 <= i < es@.len() ==> decreases_to!(whole => #[trigger] es@[i]),
    ensures
        propagated_all(es@, body.stmts@, rs@),
    decreases whole, 0nat,
{
    let mut rs: Vec<TypedExpr> = Vec::new();
    let mut i: usize = 0;
    while i < es.len()
        invariant
            i <= es@.len(),
            rs@.len() == i,
            forall|k: int| 0 <= k < es@.len() ==> decreases_to!(whole => #[trigger] es@[k]),
            forall|k: int|
                #![trigger es@[k]]
                #![trigger rs@[k]]
                0 <= k < i ==> propagated(es@[k], body.stmts@, rs@[k]),
        decreases es@.len() - i,
    {
        let r = propagate_expr(&es[i], body);
        rs.push(r);
        i += 1;
    }
    rs
}

/// `e` with the element reads that `body` allows replaced by the elements.
pub fn propagate_expr(e: &TypedExpr, body: &TypedBlock) -> (r: TypedExpr)
    ensures
        propagated(*e, body.stmts@, r),
    decreases *e, 1nat,
{
    let ghost whole = *e;
    match e {
        TypedExpr::Index { target, index, is_safe, ty, span } => match replacement_in(target, index, body) {
            Some(x) => copy_expr(x),
            None => TypedExpr::Index {
                target: Box::new(propagate_expr(target, body)),
                index: Box::new(propagate_expr(index, body)),
                is_safe: *is_safe,
                ty: ty.duplicate(),
                span: *span,
            },
        },
        TypedExpr::Binary { op, left, right, ty, span } => TypedExpr::Binary {
            op: *op,
            left: Box::new(propagate_expr(left, body)),
            right: Box::new(propagate_expr(right, body)),
            ty: ty.duplicate(),
            span: *span,
        },
        TypedExpr::Unary { op, expr, ty, span } => TypedExpr::Unary {
            op: *op,
            expr: Box::new(propagate_expr(expr, body)),
            ty: ty.duplicate(),
            span: *span,
        },
        TypedExpr::Call { callee, args, ty, span } => {
            proof {
                assert forall|i: int| 0 <= i < args@.len() implies decreases_to!(whole => #[trigger] args@[i]) by {
                    assert(decreases_to!(whole => whole->Call_args));
                }
            }
            TypedExpr::Call {
                callee: callee.clone(),
                args: propagate_all(args, body, Ghost(whole)),
                ty: ty.duplicate(),
                span: *span,
            }
        },
        _ => copy_expr(e),
    }
}

fn propagate_stmts(ss: &Vec<TypedStmt>, body: &TypedBlock, Ghost(whole): Ghost<TypedBlock>) -> (rs: Vec<TypedStmt>)
    requires
        whole.stmts@ == ss@,
    ensures
        stmts_mapped(ss@, rs@, prop_rel(body.stmts@)),
    decreases whole, 0nat,
{
    let mut rs: Vec<TypedStmt> = Vec::new();
    let mut i: usize = 0;
    while i < ss.len()
        invariant
            whole.stmts@ == ss@,
            i <= ss@.len(),
            rs@.len() == i,
            forall|k: int|
                #![trigger ss@[k]]
                #![trigger rs@[k]]
                0 <= k < i ==> stmt_mapped(ss@[k], rs@[k], prop_rel(body.stmts@)),
        decreases ss@.len() - i,
    {
        proof {
            assert(decreases_to!(whole => whole.stmts));
            assert(decreases_to!(whole.stmts => whole.stmts@));
            assert(decreases_to!(whole.stmts@ => whole.stmts@[i as int]));
        }
        let r = propagate_stmt(&ss[i], body);
        rs.push(r);
        i += 1;
    }
    rs
}

fn propagate_block(b: &TypedBlock, body: &TypedBlock) -> (r: TypedBlock)
    ensures
        r.span == b.span,
        stmts_mapped(b.stmts@, r.stmts@, prop_rel(body.stmts@)),
    decreases *b, 1nat,
{
    TypedBlock { stmts: propagate_stmts(&b.stmts, body, Ghost(*b)), span: b.span }
}

fn propagate_stmt(s: &TypedStmt, body: &TypedBlock) -> (r: TypedStmt)
    ensures
        stmt_mapped(*s, r, prop_rel(body.stmts@)),
    decreases *s, 2nat,
{
    match s {
        TypedStmt::Let { name, is_mutable, ty, value, span } => TypedStmt::Let {
            name: name.clone(),
            is_mutable: *is_mutable,
            ty: ty.duplicate(),
            value: propagate_expr(value, body),
            span: *span,
        },
        TypedStmt::Assign { name, value, span } => TypedStmt::Assign {
            name: name.clone(),
            value: propagate_expr(value, body),
            span: *span,
        },
        TypedStmt::IndexAssign { target, index, value, is_safe, span } => TypedStmt::IndexAssign {
            target: target.clone(),
            index: propagate_expr(index, body),
            value: propagate_expr(value, body),
            is_safe: *is_safe,
            span: *span,
        },
        TypedStmt::Return(v, span) => match v {
            Some(e) => TypedStmt::Return(Some(propagate_expr(e, body)), *span),
            None => TypedStmt::Return(None, *span),
        },
        TypedStmt::Break(span) => TypedStmt::Break(*span),
        TypedStmt::Expr(e) => TypedStmt::Expr(propagate_expr(e, body)),
        TypedStmt::If { condition, then_branch, else_branch, span } => {
            let c2 = propagate_expr(condition, body);
            let t2 = propagate_block(then_branch, body);
            let e2 = match else_branch {
                Some(b) => Some(propagate_block(b, body)),
                None => None,
            };
            TypedStmt::If { condition: c2, then_branch: t2, else_branch: e2, span: *span }
        },
        TypedStmt::While { condition, body: loop_body, span } => {
            let c2 = propagate_expr(condition, body);
            let b2 = propagate_block(loop_body, body);
            TypedStmt::While { condition: c2, body: b2, span: *span }
        },
    }
}

// ---------------------------------------------------------------------------
// Functions and programs
// ---------------------------------------------------------------------------

/// `g` is `f` after the pass: its `dot` calls written out, giving `b1`; the
/// constant element reads of `b1` replaced, giving `b2`; and the integer
/// arithmetic on literals of `b2` folded.
pub open spec fn arrays_optimized(f: TypedFunction, g: TypedFunction) -> bool {
    &&& g.name == f.name
    &&& g.params == f.params
    &&& g.return_ty == f.return_ty
    &&& g.span == f.span
    &&& g.body.span == f.body.span
    &&& exists|b1: Seq<TypedStmt>, b2: Seq<TypedStmt>|
        #![trigger stmts_mapped(f.body.stmts@, b1, dots_rel()), stmts_mapped(b1, b2, prop_rel(b1))]
        stmts_mapped(f.body.stmts@, b1, dots_rel()) && stmts_mapped(b1, b2, prop_rel(b1))
            && stmts_mapped(b2, g.body.stmts@, fold_rel())
}

/// Whatever the first two steps make of `f`'s body, folding it never
/// negates `i64::MIN`.
pub open spec fn arrays_foldable(f: TypedFunction) -> bool {
    forall|b1: Seq<TypedStmt>, b2: Seq<TypedStmt>|
        #![trigger stmts_mapped(f.body.stmts@, b1, dots_rel()), stmts_mapped(b1, b2, prop_rel(b1))]
        stmts_mapped(f.body.stmts@, b1, dots_rel()) && stmts_mapped(b1, b2, prop_rel(b1))
            ==> stmts_exprs_all(b2, fold_ok_pred())
}

/// Writes out `dot` calls, replaces constant element reads and folds the
/// integer arithmetic on literals in the function's body.
pub fn optimize_function_arrays(f: TypedFunction) -> (g: TypedFunction)
    requires
        arrays_foldable(f),
    ensures
        arrays_optimized(f, g),
{
    let ghost f0 = f;
    let TypedFunction { name, params, return_ty, body, span } = f;
    let body1 = dots_in_block(body);
    let body2 = propagate_block(&body1, &body1);
    proof {
        assert(stmts_mapped(f0.body.stmts@, body1.stmts@, dots_rel()) && stmts_mapped(
            body1.stmts@,
            body2.stmts@,
            prop_rel(body1.stmts@),
        ));
    }
    let body3 = fold_in_block(body2);
    TypedFunction { name, params, return_ty, body: body3, span }
}

/// Runs the array simplifications on every function.
pub fn optimize_arrays(program: &mut TypedProgram)
    requires
        forall|j: int| 0 <= j < old(program).functions@.len() ==> arrays_foldable(
            #[trigger] old(program).functions@[j],
        ),
    ensures
        final(program).functions@.len() == old(program).functions@.len(),
        forall|j: int|
            0 <= j < old(program).functions@.len() ==> arrays_optimized(
                old(program).functions@[j],
                #[trigger] final(program).functions@[j],
            ),
{
    let ghost orig = program.functions@;
    let mut taken = TypedProgram { functions: Vec::new() };
    core::mem::swap(program, &mut taken);
    let mut fs = taken.functions;
    let n = fs.len();
    let mut out: Vec<TypedFunction> = Vec::new();
    while fs.len() > 0
        invariant
            n == orig.len(),
            orig == old(program).functions@,
            forall|j: int| 0 <= j < n ==> arrays_foldable(#[trigger] orig[j]),
            out@.len() + fs@.len() == n,
            fs@ == orig.subrange(out@.len() as int, n as int),
            forall|j: int| 0 <= j < out@.len() ==> arrays_optimized(orig[j], #[trigger] out@[j]),
        decreases fs@.len(),
    {
        let j = out.len();
        let f = fs.remove(0);
        assert(f == orig[j as int]);
        let g = optimize_function_arrays(f);
        out.push(g);
        assert(fs@ =~= orig.subrange(out@.len() as int, n as int));
    }
    *program = TypedProgram { functions: out };
}

} // verus!
