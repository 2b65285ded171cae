//! Tail-call elimination for self-recursive functions: the parameters
//! become mutable shadow variables, each call to the function itself in tail
//! position becomes an update of those variables, and the body is repeated
//! in a `while true` loop.

use vstd::prelude::*;
use crate::ast::BinaryOp;
use crate::span::Span;
use crate::text::{dec_digits, push_usize};
use crate::typecheck::typed_ast::{TypedBlock, TypedExpr, TypedFunction, TypedLiteral, TypedParam, TypedProgram, TypedStmt};
use crate::typecheck::types::Type;

verus! {

// ---------------------------------------------------------------------------
// Names
// ---------------------------------------------------------------------------

/// The shadow variable of parameter `p` of function `f`.
pub open spec fn shadow_name(f: Seq<char>, p: Seq<char>) -> Seq<char> {
    "__tco_p_"@ + f + "_"@ + p
}

/// The temporary that holds argument `i` of the tail call that starts at `start`.
pub open spec fn temp_name(i: nat, start: nat) -> Seq<char> {
    "__tco_arg_"@ + dec_digits(i) + "_"@ + dec_digits(start)
}

/// The names of the parameters.
pub open spec fn param_names(ps: Seq<TypedParam>) -> Seq<Seq<char>> {
    ps.map_values(|p: TypedParam| p.name@)
}

/// The name a use of `n` gets: the shadow variable of a parameter that no
/// enclosing `let` has shadowed; `n` itself otherwise.
pub open spec fn renamed_name(n: Seq<char>, f: Seq<char>, params: Seq<Seq<char>>, shadowed: Seq<Seq<char>>) -> Seq<char> {
    if !shadowed.contains(n) && params.contains(n) {
        shadow_name(f, n)
    } else {
        n
    }
}

fn shadow_name_of(f: &String, p: &String) -> (s: String)
    ensures
        s@ == shadow_name(f@, p@),
{
    let mut s = String::from_str("__tco_p_");
    s.append(f.as_str());
    s.append("_");
    s.append(p.as_str());
    s
}

fn temp_name_of(i: usize, start: usize) -> (s: String)
    ensures
        s@ == temp_name(i as nat, start as nat),
{
    let mut s = String::from_str("__tco_arg_");
    push_usize(&mut s, i);
    s.append("_");
    push_usize(&mut s, start);
    s
}

fn names_contain(names: &Vec<String>, n: &String) -> (r: bool)
    ensures
        r == names@.map_values(|s: String| s@).contains(n@),
{
    let ghost view = names@.map_values(|s: String| s@);
    let mut i: usize = 0;
    while i < names.len()
        invariant
            i <= names@.len(),
            view == names@.map_values(|s: String| s@),
            forall|k: int| 0 <= k < i ==> view[k] != n@,
        decreases names@.len() - i,
    {
        if names[i] == *n {
            assert(view[i as int] == n@);
            return true;
        }
        i += 1;
    }
    false
}

fn param_named(params: &Vec<TypedParam>, n: &String) -> (r: bool)
    ensures
        r == param_names(params@).contains(n@),
{
    let ghost view = param_names(params@);
    let mut i: usize = 0;
    while i < params.len()
        invariant
            i <= params@.len(),
            view == param_names(params@),
            forall|k: int| 0 <= k < i ==> view[k] != n@,
        decreases params@.len() - i,
    {
        if params[i].name == *n {
            assert(view[i as int] == n@);
            return true;
        }
        i += 1;
    }
    false
}

/// The name a use of `n` gets.
fn rename(n: &String, f: &String, params: &Vec<TypedParam>, shadowed: &Vec<String>) -> (r: String)
    ensures
        r@ == renamed_name(n@, f@, param_names(params@), shadowed@.map_values(|s: String| s@)),
{
    if !names_contain(shadowed, n) && param_named(params, n) {
        shadow_name_of(f, n)
    } else {
        n.clone()
    }
}

// ---------------------------------------------------------------------------
// Renaming parameter uses to their shadow variables
// ---------------------------------------------------------------------------

pub open spec fn names_of(v: Seq<String>) -> Seq<Seq<char>> {
    v.map_values(|s: String| s@)
}

/// `r` is `e` with each use of a parameter not in `shadowed` renamed to its
/// shadow variable.
pub open spec fn renamed_expr(
    e: TypedExpr,
    f: Seq<char>,
    ps: Seq<Seq<char>>,
    sh: Seq<Seq<char>>,
    r: TypedExpr,
) -> bool
    decreases e, 1nat,
{
    match e {
        TypedExpr::Ident { name, ty, span } => match r {
            TypedExpr::Ident { name: n2, ty: t2, span: s2 } => n2@ == renamed_name(name@, f, ps, sh) && t2
                == ty && s2 == span,
            _ => false,
        },
        TypedExpr::Unary { op, expr, ty, span } => match r {
            TypedExpr::Unary { op: op2, expr: e2, ty: ty2, span: sp2 } => op2 == op && ty2 == ty && sp2
                == span && renamed_expr(*expr, f, ps, sh, *e2),
            _ => false,
        },
        TypedExpr::Binary { op, left, right, ty, span } => match r {
            TypedExpr::Binary { op: op2, left: l2, right: r2, ty: ty2, span: sp2 } => op2 == op && ty2
                == ty && sp2 == span && renamed_expr(*left, f, ps, sh, *l2) && renamed_expr(
                *right,
                f,
                ps,
                sh,
                *r2,
            ),
            _ => false,
        },
        TypedExpr::Call { callee, args, ty, span } => match r {
            TypedExpr::Call { callee: c2, args: a2, ty: ty2, span: sp2 } => c2 == callee && ty2 == ty
                && sp2 == span && renamed_all(args@, f, ps, sh, a2@),
            _ => false,
        },
        TypedExpr::ArrayLiteral { elements, ty, span } => match r {
            TypedExpr::ArrayLiteral { elements: e2, ty: ty2, span: sp2 } => ty2 == ty && sp2 == span
                && renamed_all(elements@, f, ps, sh, e2@),
            _ => false,
        },
        TypedExpr::Index { target, index, is_safe, ty, span } => match r {
            TypedExpr::Index { target: t2, index: i2, is_safe: s2, ty: ty2, span: sp2 } => s2 == is_safe
                && ty2 == ty && sp2 == span && renamed_expr(*target, f, ps, sh, *t2) && renamed_expr(
                *index,
                f,
                ps,
                sh,
                *i2,
            ),
            _ => false,
        },
        TypedExpr::Literal { .. } => r == e,
    }
}

pub open spec fn renamed_all(
    es: Seq<TypedExpr>,
    f: Seq<char>,
    ps: Seq<Seq<char>>,
    sh: Seq<Seq<char>>,
    rs: Seq<TypedExpr>,
) -> bool
    decreases es, 0nat,
{
    &&& rs.len() == es.len()
    &&& forall|i: int|
        #![trigger es[i]]
        #![trigger rs[i]]
        0 <= i < es.len() ==> renamed_expr(es[i], f, ps, sh, rs[i])
}

/// The names that the `let` statements of `ss` bind, in order.
pub open spec fn lets_of(ss: Seq<TypedStmt>) -> Seq<Seq<char>>
    decreases ss.len(),
{
    if ss.len() == 0 {
        Seq::empty()
    } else {
        lets_of(ss.drop_last()) + match ss.last() {
            TypedStmt::Let { name, .. } => seq![name@],
            _ => Seq::empty(),
        }
    }
}

/// `r` is `s` with the parameter uses renamed; `shadowed` holds the names
/// bound by the `let` statements before `s` in its block and the blocks
/// around it.
pub open spec fn renamed_stmt(s: TypedStmt, f: Seq<char>, ps: Seq<Seq<char>>, sh: Seq<Seq<char>>, r: TypedStmt) -> bool
    decreases s,
{
    match s {
        TypedStmt::Let { name, is_mutable, ty, value, span } => match r {
            TypedStmt::Let { name: n2, is_mutable: m2, ty: t2, value: v2, span: s2 } => n2 == name && m2
                == is_mutable && t2 == ty && s2 == span && renamed_expr(value, f, ps, sh, v2),
            _ => false,
        },
        TypedStmt::Assign { name, value, span } => match r {
            TypedStmt::Assign { name: n2, value: v2, span: s2 } => n2@ == renamed_name(name@, f, ps, sh)
                && s2 == span && renamed_expr(value, f, ps, sh, v2),
            _ => false,
        },
        TypedStmt::IndexAssign { target, index, value, is_safe, span } => match r {
            TypedStmt::IndexAssign { target: t2, index: i2, value: v2, is_safe: f2, span: s2 } => t2@
                == renamed_name(target@, f, ps, sh) && f2 == is_safe && s2 == span && renamed_expr(
                index,
                f,
                ps,
                sh,
                i2,
            ) && renamed_expr(value, f, ps, sh, v2),
            _ => false,
        },
        TypedStmt::Return(v, span) => match r {
            TypedStmt::Return(v2, s2) => s2 == span && match v {
                Some(e) => v2 matches Some(e2) && renamed_expr(e, f, ps, sh, e2),
                None => v2 is None,
            },
            _ => false,
        },
        TypedStmt::Break(span) => r == s,
        TypedStmt::Expr(e) => match r {
            TypedStmt::Expr(e2) => renamed_expr(e, f, ps, sh, e2),
            _ => false,
        },
        TypedStmt::If { condition, then_branch, else_branch, span } => match r {
            TypedStmt::If { condition: c2, then_branch: t2, else_branch: e2, span: s2 } => {
                &&& s2 == span
                &&& renamed_expr(condition, f, ps, sh, c2)
                &&& t2.span == then_branch.span
                &&& renamed_stmts(then_branch.stmts@, f, ps, sh, t2.stmts@)
                &&& match else_branch {
                    Some(b) => e2 matches Some(b2) && b2.span == b.span && renamed_stmts(
                        b.stmts@,
                        f,
                        ps,
                        sh,
                        b2.stmts@,
                    ),
                    None => e2 is None,
                }
            },
            _ => false,
        },
        TypedStmt::While { condition, body, span } => match r {
            TypedStmt::While { condition: c2, body: b2, span: s2 } => s2 == span && renamed_expr(
                condition,
                f,
                ps,
                sh,
                c2,
            ) && b2.span == body.span && renamed_stmts(body.stmts@, f, ps, sh, b2.stmts@),
            _ => false,
        },
    }
}

pub open spec fn renamed_stmts(
    ss: Seq<TypedStmt>,
    f: Seq<char>,
    ps: Seq<Seq<char>>,
    sh: Seq<Seq<char>>,
    rs: Seq<TypedStmt>,
) -> bool
    decreases ss,
{
    &&& rs.len() == ss.len()
    &&& forall|i: int|
        #![trigger ss[i]]
        #![trigger rs[i]]
        0 <= i < ss.len() ==> renamed_stmt(ss[i], f, ps, sh + lets_of(ss.subrange(0, i)), rs[i])
}

fn rename_all(
    es: &Vec<TypedExpr>,
    f: &String,
    params: &Vec<TypedParam>,
    shadowed: &Vec<String>,
    Ghost(whole): Ghost<TypedExpr>,
) -> (rs: Vec<TypedExpr>)
    requires
        forall|i: int| 0 <= i < es@.len() ==> decreases_to!(whole => #[trigger] es@[i]),
    ensures
        renamed_all(es@, f@, param_names(params@), names_of(shadowed@), rs@),
    decreases whole, 0nat,
{
    let mut rs: Vec<TypedExpr> = Vec::new();
    let mut i: usize = 0;
    while i < es.len()
        invariant
            i <= es@.len(),
            rs@.len() == i,
            forall|k: int| 0 <= k < es@.len() ==> decreases_to!(whole => #[trigger] es@[k]),
            forall|k: int|
                #![trigger es@[k]]
                #![trigger rs@[k]]
                0 <= k < i ==> renamed_expr(es@[k], f@, param_names(params@), names_of(shadowed@), rs@[k]),
        decreases es@.len() - i,
    {
        let r = rename_expr(&es[i], f, params, shadowed);
        rs.push(r);
        i += 1;
    }
    rs
}

/// `e` with the parameter uses not in `shadowed` renamed.
fn rename_expr(e: &TypedExpr, f: &String, params: &Vec<TypedParam>, shadowed: &Vec<String>) -> (r: TypedExpr)
    ensures
        renamed_expr(*e, f@, param_names(params@), names_of(shadowed@), r),
    decreases *e, 1nat,
{
    let ghost whole = *e;
    match e {
        TypedExpr::Ident { name, ty, span } => TypedExpr::Ident {
            name: rename(name, f, params, shadowed),
            ty: ty.duplicate(),
            span: *span,
        },
        TypedExpr::Unary { op, expr, ty, span } => TypedExpr::Unary {
            op: *op,
            expr: Box::new(rename_expr(expr, f, params, shadowed)),
            ty: ty.duplicate(),
            span: *span,
        },
        TypedExpr::Binary { op, left, right, ty, span } => TypedExpr::Binary {
            op: *op,
            left: Box::new(rename_expr(left, f, params, shadowed)),
            right: Box::new(rename_expr(right, f, params, shadowed)),
            ty: ty.duplicate(),
            span: *span,
        },
        TypedExpr::Call { callee, args, ty, span } => {
            proof {
                assert forall|i: int| 0 <= i < args@.len() implies decreases_to!(whole => #[trigger] args@[i]) by {
                    assert(decreases_to!(whole => whole->Call_args));
                }
            }
            TypedExpr::Call {
                callee: callee.clone(),
                args: rename_all(args, f, params, shadowed, Ghost(whole)),
                ty: ty.duplicate(),
                span: *span,
            }
        },
        TypedExpr::ArrayLiteral { elements, ty, span } => {
            proof {
                assert forall|i: int| 0 <= i < elements@.len() implies decreases_to!(whole => #[trigger] elements@[i]) by {
                    assert(decreases_to!(whole => whole->ArrayLiteral_elements));
                }
            }
            TypedExpr::ArrayLiteral {
                elements: rename_all(elements, f, params, shadowed, Ghost(whole)),
                ty: ty.duplicate(),
                span: *span,
            }
        },
        TypedExpr::Index { target, index, is_safe, ty, span } => TypedExpr::Index {
            target: Box::new(rename_expr(target, f, params, shadowed)),
            index: Box::new(rename_expr(index, f, params, shadowed)),
            is_safe: *is_safe,
            ty: ty.duplicate(),
            span: *span,
        },
        TypedExpr::Literal { lit, ty, span } => TypedExpr::Literal {
            lit: lit.duplicate(),
            ty: ty.duplicate(),
            span: *span,
        },
    }
}

proof fn lemma_names_of_push(v: Seq<String>, s: String)
    ensures
        names_of(v.push(s)) == names_of(v).push(s@),
{
    assert(names_of(v.push(s)) =~= names_of(v).push(s@));
}

fn copy_names(v: &Vec<String>) -> (r: Vec<String>)
    ensures
        names_of(r@) == names_of(v@),
{
    let mut r: Vec<String> = Vec::new();
    let mut i: usize = 0;
    while i < v.len()
        invariant
            i <= v@.len(),
            names_of(r@) == names_of(v@).subrange(0, i as int),
        decreases v@.len() - i,
    {
        let ghost before = r@;
        let c = v[i].clone();
        r.push(c);
        proof {
            lemma_names_of_push(before, c);
        }
        i += 1;
        assert(names_of(r@) =~= names_of(v@).subrange(0, i as int));
    }
    assert(names_of(v@).subrange(0, i as int) =~= names_of(v@));
    r
}

/// The block with its parameter uses renamed; the names that its `let`
/// statements bind shadow the parameters from there on.
fn rename_block(
    b: &TypedBlock,
    f: &String,
    params: &Vec<TypedParam>,
    shadowed: &Vec<String>,
) -> (r: TypedBlock)
    ensures
        r.span == b.span,
        renamed_stmts(b.stmts@, f@, param_names(params@), names_of(shadowed@), r.stmts@),
    decreases *b, 0nat,
{
    let ghost whole = *b;
    let ghost sh0 = names_of(shadowed@);
    let mut local = copy_names(shadowed);
    let mut out: Vec<TypedStmt> = Vec::new();
    let mut i: usize = 0;
    assert(lets_of(b.stmts@.subrange(0, 0)) =~= Seq::<Seq<char>>::empty());
    assert(sh0 + Seq::<Seq<char>>::empty() =~= sh0);
    while i < b.stmts.len()
        invariant
            whole == *b,
            i <= b.stmts@.len(),
            out@.len() == i,
            names_of(local@) == sh0 + lets_of(b.stmts@.subrange(0, i as int)),
            forall|k: int|
                #![trigger b.stmts@[k]]
                #![trigger out@[k]]
                0 <= k < i ==> renamed_stmt(
                    b.stmts@[k],
                    f@,
                    param_names(params@),
                    sh0 + lets_of(b.stmts@.subrange(0, k)),
                    out@[k],
                ),
        decreases b.stmts@.len() - i,
    {
        proof {
            assert(decreases_to!(whole => whole.stmts));
            assert(decreases_to!(whole.stmts => whole.stmts@));
            assert(decreases_to!(whole.stmts@ => whole.stmts@[i as int]));
        }
        let r = rename_stmt(&b.stmts[i], f, params, &local);
        out.push(r);
        let ghost pre = b.stmts@.subrange(0, i + 1);
        assert(pre.drop_last() =~= b.stmts@.subrange(0, i as int));
        match &b.stmts[i] {
            TypedStmt::Let { name, .. } => {
                let ghost before = local@;
                let c = name.clone();
                local.push(c);
                proof {
                    lemma_names_of_push(before, c);
                }
                assert(names_of(local@) =~= sh0 + lets_of(pre));
            },
            _ => {
                assert(names_of(local@) =~= sh0 + lets_of(pre));
            },
        }
        i += 1;
    }
    assert(b.stmts@.subrange(0, i as int) =~= b.stmts@);
    TypedBlock { stmts: out, span: b.span }
}

fn rename_stmt(s: &TypedStmt, f: &String, params: &Vec<TypedParam>, shadowed: &Vec<String>) -> (r: TypedStmt)
    ensures
        renamed_stmt(*s, f@, param_names(params@), names_of(shadowed@), r),
    decreases *s, 1nat,
{
    match s {
        TypedStmt::Let { name, is_mutable, ty, value, span } => TypedStmt::Let {
            name: name.clone(),
            is_mutable: *is_mutable,
            ty: ty.duplicate(),
            value: rename_expr(value, f, params, shadowed),
            span: *span,
        },
        TypedStmt::Assign { name, value, span } => TypedStmt::Assign {
            name: rename(name, f, params, shadowed),
            value: rename_expr(value, f, params, shadowed),
            span: *span,
        },
        TypedStmt::IndexAssign { target, index, value, is_safe, span } => TypedStmt::IndexAssign {
            target: rename(target, f, params, shadowed),
            index: rename_expr(index, f, params, shadowed),
            value: rename_expr(value, f, params, shadowed),
            is_safe: *is_safe,
            span: *span,
        },
        TypedStmt::Return(v, span) => match v {
            Some(e) => TypedStmt::Return(Some(rename_expr(e, f, params, shadowed)), *span),
            None => TypedStmt::Return(None, *span),
        },
        TypedStmt::Break(span) => TypedStmt::Break(*span),
        TypedStmt::Expr(e) => TypedStmt::Expr(rename_expr(e, f, params, shadowed)),
        TypedStmt::If { condition, then_branch, else_branch, span } => {
            let c2 = rename_expr(condition, f, params, shadowed);
            let t2 = rename_block(then_branch, f, params, shadowed);
            let e2 = match else_branch {
                Some(b) => Some(rename_block(b, f, params, shadowed)),
                None => None,
            };
            TypedStmt::If { condition: c2, then_branch: t2, else_branch: e2, span: *span }
        },
        TypedStmt::While { condition, body, span } => {
            let c2 = rename_expr(condition, f, params, shadowed);
            let b2 = rename_block(body, f, params, shadowed);
            TypedStmt::While { condition: c2, body: b2, span: *span }
        },
    }
}

// ---------------------------------------------------------------------------
// Tail calls
// ---------------------------------------------------------------------------

/// The block ends in `return f(...)`, or its last statement is an `if` with
/// a branch that does.
pub open spec fn ends_in_self_call(ss: Seq<TypedStmt>, f: Seq<char>) -> bool
    decreases ss,
{
    if ss.len() == 0 {
        false
    } else {
        match ss[ss.len() - 1] {
            TypedStmt::Return(Some(e), _) => match e {
                TypedExpr::Call { callee, .. } => callee@ == f,
                _ => false,
            },
            TypedStmt::If { then_branch, else_branch, .. } => ends_in_self_call(then_branch.stmts@, f)
                || match else_branch {
                Some(b) => ends_in_self_call(b.stmts@, f),
                None => false,
            },
            _ => false,
        }
    }
}

/// Each `return f(...)` that ends the block (or, through a final `if`, one
/// of its branches) passes at least `n` arguments.
pub open spec fn tail_calls_have_args(ss: Seq<TypedStmt>, f: Seq<char>, n: nat) -> bool
    decreases ss,
{
    if ss.len() == 0 {
        true
    } else {
        match ss[ss.len() - 1] {
            TypedStmt::Return(Some(e), _) => match e {
                TypedExpr::Call { callee, args, .. } => callee@ == f ==> args@.len() >= n,
                _ => true,
            },
            TypedStmt::If { then_branch, else_branch, .. } => tail_calls_have_args(
                then_branch.stmts@,
                f,
                n,
            ) && match else_branch {
                Some(b) => tail_calls_have_args(b.stmts@, f, n),
                None => true,
            },
            _ => true,
        }
    }
}

/// `s` is `let <temp i> = arg;`, at the call's span.
pub open spec fn temp_let(arg: TypedExpr, i: int, span: Span, s: TypedStmt) -> bool {
    match s {
        TypedStmt::Let { name, is_mutable, ty, value, span: sp } => name@ == temp_name(
            i as nat,
            span.start as nat,
        ) && !is_mutable && ty == arg.spec_ty() && value == arg && sp == span,
        _ => false,
    }
}

/// `s` is `<shadow of p> = <temp i>;`, at the call's span.
pub open spec fn shadow_update(f: Seq<char>, p: TypedParam, arg: TypedExpr, i: int, span: Span, s: TypedStmt) -> bool {
    match s {
        TypedStmt::Assign { name, value, span: sp } => name@ == shadow_name(f, p.name@) && sp == span
            && match value {
            TypedExpr::Ident { name: vn, ty: vt, span: vs } => vn@ == temp_name(i as nat, span.start as nat)
                && vt == arg.spec_ty() && vs == span,
            _ => false,
        },
        _ => false,
    }
}

/// `rs` is `ss` with each tail call `return f(args)` (at its end, or through
/// a final `if`) replaced by `let`s of the arguments to temporaries and
/// assignments of the temporaries to the parameters' shadow variables.
pub open spec fn tail_replaced(ss: Seq<TypedStmt>, f: Seq<char>, params: Seq<TypedParam>, rs: Seq<TypedStmt>) -> bool
    decreases ss,
{
    if ss.len() == 0 {
        rs == ss
    } else {
        let pre = ss.subrange(0, ss.len() - 1);
        match ss[ss.len() - 1] {
            TypedStmt::Return(Some(e), _) => match e {
                TypedExpr::Call { callee, args, span: cs, .. } => if callee@ == f {
                    let na = args@.len() as int;
                    let np = params.len() as int;
                    &&& rs.len() == pre.len() + na + np
                    &&& rs.subrange(0, pre.len() as int) == pre
                    &&& forall|i: int|
                        0 <= i < na ==> temp_let(args@[i], i, cs, #[trigger] rs[pre.len() + i])
                    &&& forall|i: int|
                        0 <= i < np ==> shadow_update(
                            f,
                            params[i],
                            args@[i],
                            i,
                            cs,
                            #[trigger] rs[pre.len() + na + i],
                        )
                } else {
                    rs == ss
                },
                _ => rs == ss,
            },
            TypedStmt::If { condition, then_branch, else_branch, span } => {
                &&& rs.len() == ss.len()
                &&& rs.subrange(0, ss.len() - 1) == pre
                &&& match rs[ss.len() - 1] {
                    TypedStmt::If { condition: c2, then_branch: t2, else_branch: e2, span: s2 } => {
                        &&& c2 == condition && s2 == span && t2.span == then_branch.span
                        &&& tail_replaced(then_branch.stmts@, f, params, t2.stmts@)
                        &&& match else_branch {
                            Some(b) => e2 matches Some(b2) && b2.span == b.span && tail_replaced(
                                b.stmts@,
                                f,
                                params,
                                b2.stmts@,
                            ),
                            None => e2 is None,
                        }
                    },
                    _ => false,
                }
            },
            _ => rs == ss,
        }
    }
}

/// Renaming changes no call's callee or argument count.
proof fn lemma_renaming_keeps_tail_calls(
    ss: Seq<TypedStmt>,
    f: Seq<char>,
    ps: Seq<Seq<char>>,
    sh: Seq<Seq<char>>,
    rs: Seq<TypedStmt>,
    n: nat,
)
    requires
        renamed_stmts(ss, f, ps, sh, rs),
    ensures
        tail_calls_have_args(ss, f, n) ==> tail_calls_have_args(rs, f, n),
        ends_in_self_call(ss, f) == ends_in_self_call(rs, f),
    decreases ss,
{
    if ss.len() > 0 {
        let k = ss.len() - 1;
        let sh2 = sh + lets_of(ss.subrange(0, k));
        assert(renamed_stmt(ss[k], f, ps, sh2, rs[k]));
        match ss[k] {
            TypedStmt::Return(Some(e), _) => {
                match rs[k] {
                    TypedStmt::Return(Some(e2), _) => {
                        assert(renamed_expr(e, f, ps, sh2, e2));
                        match e {
                            TypedExpr::Call { args, .. } => {
                                match e2 {
                                    TypedExpr::Call { args: a2, .. } => {
                                        assert(renamed_all(args@, f, ps, sh2, a2@));
                                        assert(a2@.len() == args@.len());
                                    },
                                    _ => {},
                                }
                            },
                            _ => {},
                        }
                    },
                    _ => {},
                }
            },
            TypedStmt::If { then_branch, else_branch, .. } => {
                match rs[k] {
                    TypedStmt::If { then_branch: t2, else_branch: e2, .. } => {
                        lemma_renaming_keeps_tail_calls(then_branch.stmts@, f, ps, sh2, t2.stmts@, n);
                        match else_branch {
                            Some(b) => {
                                match e2 {
                                    Some(b2) => {
                                        lemma_renaming_keeps_tail_calls(b.stmts@, f, ps, sh2, b2.stmts@, n);
                                    },
                                    None => {},
                                }
                            },
                            None => {},
                        }
                    },
                    _ => {},
                }
            },
            _ => {},
        }
    }
}

fn ends_in_self_call_exec(b: &TypedBlock, f: &String) -> (r: bool)
    ensures
        r == ends_in_self_call(b.stmts@, f@),
    decreases *b,
{
    let ghost whole = *b;
    if b.stmts.len() == 0 {
        return false;
    }
    let k = b.stmts.len() - 1;
    proof {
        assert(decreases_to!(whole => whole.stmts));
        assert(decreases_to!(whole.stmts => whole.stmts@));
        assert(decreases_to!(whole.stmts@ => whole.stmts@[k as int]));
    }
    match &b.stmts[k] {
        TypedStmt::Return(Some(e), _) => match e {
            TypedExpr::Call { callee, .. } => *callee == *f,
            _ => false,
        },
        TypedStmt::If { then_branch, else_branch, .. } => {
            if ends_in_self_call_exec(then_branch, f) {
                true
            } else {
                match else_branch {
                    Some(eb) => ends_in_self_call_exec(eb, f),
                    None => false,
                }
            }
        },
        _ => false,
    }
}

/// The tail call with arguments `args` at `cs`, replaced by its `let`s and
/// shadow updates appended to `out`.
fn push_tail_update(
    out: &mut Vec<TypedStmt>,
    args: Vec<TypedExpr>,
    cs: Span,
    f: &String,
    params: &Vec<TypedParam>,
)
    requires
        args@.len() >= params@.len(),
    ensures
        final(out)@.len() == old(out)@.len() + args@.len() + params@.len(),
        final(out)@.subrange(0, old(out)@.len() as int) == old(out)@,
        forall|i: int|
            0 <= i < args@.len() ==> temp_let(args@[i], i, cs, #[trigger] final(out)@[old(out)@.len() + i]),
        forall|i: int|
            0 <= i < params@.len() ==> shadow_update(
                f@,
                params@[i],
                args@[i],
                i,
                cs,
                #[trigger] final(out)@[old(out)@.len() + args@.len() + i],
            ),
{
    let ghost orig = args@;
    let ghost base = out@.len();
    let n = args.len();
    let mut tys: Vec<Type> = Vec::new();
    let mut i: usize = 0;
    while i < n
        invariant
            n == orig.len(),
            args@ == orig,
            i <= n,
            tys@.len() == i,
            forall|k: int| 0 <= k < i ==> tys@[k] == orig[k].spec_ty(),
        decreases n - i,
    {
        tys.push(args[i].ty());
        i += 1;
    }
    let mut args = args;
    let mut i: usize = 0;
    while i < n
        invariant
            n == orig.len(),
            i <= n,
            args@ == orig.subrange(i as int, n as int),
            out@.len() == base + i,
            out@.subrange(0, base as int) == old(out)@,
            base == old(out)@.len(),
            forall|k: int| 0 <= k < i ==> temp_let(orig[k], k, cs, #[trigger] out@[base + k]),
        decreases n - i,
    {
        let a = args.remove(0);
        assert(a == orig[i as int]);
        let t = a.ty();
        let s = TypedStmt::Let { name: temp_name_of(i, cs.start), is_mutable: false, ty: t, value: a, span: cs };
        out.push(s);
        i += 1;
        assert(args@ =~= orig.subrange(i as int, n as int));
        assert(out@.subrange(0, base as int) =~= old(out)@);
    }
    let mut j: usize = 0;
    while j < params.len()
        invariant
            n == orig.len(),
            n >= params@.len(),
            tys@.len() == n,
            forall|k: int| 0 <= k < n ==> tys@[k] == orig[k].spec_ty(),
            j <= params@.len(),
            base == old(out)@.len(),
            out@.len() == base + n + j,
            out@.subrange(0, base as int) == old(out)@,
            forall|k: int| 0 <= k < n ==> temp_let(orig[k], k, cs, #[trigger] out@[base + k]),
            forall|k: int|
                0 <= k < j ==> shadow_update(f@, params@[k], orig[k], k, cs, #[trigger] out@[base + n + k]),
        decreases params@.len() - j,
    {
        let value = TypedExpr::Ident { name: temp_name_of(j, cs.start), ty: tys[j].duplicate(), span: cs };
        let s = TypedStmt::Assign { name: shadow_name_of(f, &params[j].name), value, span: cs };
        out.push(s);
        j += 1;
        assert(out@.subrange(0, base as int) =~= old(out)@);
    }
}

/// The block with its tail calls to `f` replaced by parameter updates.
fn replace_tail_calls(b: TypedBlock, f: &String, params: &Vec<TypedParam>) -> (r: TypedBlock)
    requires
        tail_calls_have_args(b.stmts@, f@, params@.len()),
    ensures
        r.span == b.span,
        tail_replaced(b.stmts@, f@, params@, r.stmts@),
    decreases b,
{
    let ghost whole = b;
    let ghost ss = b.stmts@;
    let TypedBlock { stmts, span } = b;
    let mut stmts = stmts;
    if stmts.len() == 0 {
        return TypedBlock { stmts, span };
    }
    let k = stmts.len() - 1;
    proof {
        assert(decreases_to!(whole => whole.stmts));
        assert(decreases_to!(whole.stmts => whole.stmts@));
        assert(decreases_to!(whole.stmts@ => whole.stmts@[k as int]));
    }
    let last = stmts.pop().unwrap();
    assert(stmts@ =~= ss.subrange(0, k as int));
    match last {
        TypedStmt::Return(v, rspan) => match v {
            Some(e) => match e {
                TypedExpr::Call { callee, args, ty, span: cs } => {
                    if callee == *f {
                        push_tail_update(&mut stmts, args, cs, f, params);
                        TypedBlock { stmts, span }
                    } else {
                        stmts.push(TypedStmt::Return(Some(TypedExpr::Call { callee, args, ty, span: cs }), rspan));
                        assert(stmts@ =~= ss);
                        TypedBlock { stmts, span }
                    }
                },
                other => {
                    stmts.push(TypedStmt::Return(Some(other), rspan));
                    assert(stmts@ =~= ss);
                    TypedBlock { stmts, span }
                },
            },
            None => {
                stmts.push(TypedStmt::Return(None, rspan));
                assert(stmts@ =~= ss);
                TypedBlock { stmts, span }
            },
        },
        TypedStmt::If { condition, then_branch, else_branch, span: ispan } => {
            let t2 = replace_tail_calls(then_branch, f, params);
            let e2 = match else_branch {
                Some(eb) => Some(replace_tail_calls(eb, f, params)),
                None => None,
            };
            stmts.push(TypedStmt::If { condition, then_branch: t2, else_branch: e2, span: ispan });
            assert(stmts@.subrange(0, k as int) =~= ss.subrange(0, k as int));
            TypedBlock { stmts, span }
        },
        other => {
            stmts.push(other);
            assert(stmts@ =~= ss);
            TypedBlock { stmts, span }
        },
    }
}

// ---------------------------------------------------------------------------
// The transformation
// ---------------------------------------------------------------------------

/// `s` is `let mut <shadow of p> = p;` for the `i`-th parameter, at the
/// function's span.
pub open spec fn shadow_let(func: TypedFunction, i: int, s: TypedStmt) -> bool {
    let p = func.params@[i];
    match s {
        TypedStmt::Let { name, is_mutable, ty, value, span } => name@ == shadow_name(func.name@, p.name@)
            && is_mutable && ty == p.ty && span == func.span && match value {
            TypedExpr::Ident { name: vn, ty: vt, span: vs } => vn == p.name && vt == p.ty && vs == func.span,
            _ => false,
        },
        _ => false,
    }
}

/// `b` is the loop form of `func`: the shadow `let`s of its parameters; a
/// `while true` loop whose body is `func`'s body with the parameter uses
/// renamed to the shadows and its tail calls turned into shadow updates;
/// and `return <shadow of the first parameter>`.
pub open spec fn tail_lowered(func: TypedFunction, b: TypedBlock) -> bool {
    let n = func.params@.len() as int;
    let sp = func.span;
    let f = func.name@;
    &&& b.span == sp
    &&& b.stmts@.len() == n + 2
    &&& forall|i: int| 0 <= i < n ==> shadow_let(func, i, #[trigger] b.stmts@[i])
    &&& match b.stmts@[n] {
        TypedStmt::While { condition, body, span } => {
            &&& condition == TypedExpr::Literal { lit: TypedLiteral::Bool(true), ty: Type::Bool, span: sp }
            &&& span == sp
            &&& body.span == func.body.span
            &&& exists|renamed: Seq<TypedStmt>|
                renamed_stmts(func.body.stmts@, f, param_names(func.params@), Seq::empty(), renamed)
                    && #[trigger] tail_replaced(renamed, f, func.params@, body.stmts@)
        },
        _ => false,
    }
    &&& match b.stmts@[n + 1] {
        TypedStmt::Return(Some(e), s2) => s2 == sp && match e {
            TypedExpr::Ident { name, ty, span } => name@ == shadow_name(f, func.params@[0].name@) && ty
                == func.return_ty && span == sp,
            _ => false,
        },
        _ => false,
    }
}

/// The loop form of a function whose body ends in a call to itself (see
/// `tail_lowered`); `None` for a function without parameters or without
/// such a call.
pub fn try_lower_tail_calls(func: &TypedFunction) -> (r: Option<TypedBlock>)
    requires
        tail_calls_have_args(func.body.stmts@, func.name@, func.params@.len()),
    ensures
        match r {
            Some(b) => func.params@.len() > 0 && ends_in_self_call(func.body.stmts@, func.name@)
                && tail_lowered(*func, b),
            None => func.params@.len() == 0 || !ends_in_self_call(func.body.stmts@, func.name@),
        },
{
    if func.params.len() == 0 {
        return None;
    }
    if !ends_in_self_call_exec(&func.body, &func.name) {
        return None;
    }
    let span = func.span;
    let no_shadows: Vec<String> = Vec::new();
    assert(names_of(no_shadows@) =~= Seq::<Seq<char>>::empty());
    let renamed = rename_block(&func.body, &func.name, &func.params, &no_shadows);
    proof {
        lemma_renaming_keeps_tail_calls(
            func.body.stmts@,
            func.name@,
            param_names(func.params@),
            Seq::empty(),
            renamed.stmts@,
            func.params@.len(),
        );
    }
    let ghost renamed_stmts_view = renamed.stmts@;
    let transformed = replace_tail_calls(renamed, &func.name, &func.params);
    let mut stmts: Vec<TypedStmt> = Vec::new();
    let mut i: usize = 0;
    while i < func.params.len()
        invariant
            i <= func.params@.len(),
            span == func.span,
            stmts@.len() == i,
            forall|k: int| 0 <= k < i ==> shadow_let(*func, k, #[trigger] stmts@[k]),
        decreases func.params@.len() - i,
    {
        let p = &func.params[i];
        stmts.push(
            TypedStmt::Let {
                name: shadow_name_of(&func.name, &p.name),
                is_mutable: true,
                ty: p.ty.duplicate(),
                value: TypedExpr::Ident { name: p.name.clone(), ty: p.ty.duplicate(), span },
                span,
            },
        );
        i += 1;
    }
    let body_span = transformed.span;
    stmts.push(
        TypedStmt::While {
            condition: TypedExpr::Literal { lit: TypedLiteral::Bool(true), ty: Type::Bool, span },
            body: transformed,
            span,
        },
    );
    stmts.push(
        TypedStmt::Return(
            Some(
                TypedExpr::Ident {
                    name: shadow_name_of(&func.name, &func.params[0].name),
                    ty: func.return_ty.duplicate(),
                    span,
                },
            ),
            span,
        ),
    );
    let b = TypedBlock { stmts, span };
    proof {
        let n = func.params@.len() as int;
        assert(forall|k: int| 0 <= k < n ==> b.stmts@[k] == stmts@[k]);
        match b.stmts@[n] {
            TypedStmt::While { body, .. } => {
                assert(renamed_stmts(func.body.stmts@, func.name@, param_names(func.params@), Seq::empty(), renamed_stmts_view));
                assert(tail_replaced(renamed_stmts_view, func.name@, func.params@, body.stmts@));
            },
            _ => {},
        }
    }
    Some(b)
}

// ---------------------------------------------------------------------------
// Binary recurrences
// ---------------------------------------------------------------------------

/// `e` is the variable `p`.
pub open spec fn names_var(e: TypedExpr, p: Seq<char>) -> bool {
    match e {
        TypedExpr::Ident { name, .. } => name@ == p,
        _ => false,
    }
}

/// `e` is the integer literal `v`.
pub open spec fn is_int(e: TypedExpr, v: i64) -> bool {
    match e {
        TypedExpr::Literal { lit: TypedLiteral::Int(n, _), .. } => n == v,
        _ => false,
    }
}

/// `e` is the call `f(p - off)`.
pub open spec fn self_call_minus(e: TypedExpr, f: Seq<char>, p: Seq<char>, off: i64) -> bool {
    match e {
        TypedExpr::Call { callee, args, .. } => callee@ == f && args@.len() == 1 && match args@[0] {
            TypedExpr::Binary { op: BinaryOp::Sub, left, right, .. } => names_var(*left, p) && is_int(
                *right,
                off,
            ),
            _ => false,
        },
        _ => false,
    }
}

/// `f` is `fn f(p: i64) -> i64 { if p <= 1 { return p; } else { return
/// f(p - 1) + f(p - 2); } }`, the two calls in either order.
pub open spec fn is_binary_recurrence(f: TypedFunction) -> bool {
    &&& f.params@.len() == 1
    &&& f.return_ty == Type::I64
    &&& f.params@[0].ty == Type::I64
    &&& f.body.stmts@.len() == 1
    &&& {
        let p = f.params@[0].name@;
        match f.body.stmts@[0] {
            TypedStmt::If { condition, then_branch, else_branch: Some(eb), .. } => {
                &&& match condition {
                    TypedExpr::Binary { op: BinaryOp::Le, left, right, .. } => names_var(*left, p)
                        && is_int(*right, 1),
                    _ => false,
                }
                &&& then_branch.stmts@.len() == 1
                &&& match then_branch.stmts@[0] {
                    TypedStmt::Return(Some(r), _) => names_var(r, p),
                    _ => false,
                }
                &&& eb.stmts@.len() == 1
                &&& match eb.stmts@[0] {
                    TypedStmt::Return(Some(TypedExpr::Binary { op: BinaryOp::Add, left, right, .. }), _) => {
                        ||| self_call_minus(*left, f.name@, p, 1) && self_call_minus(*right, f.name@, p, 2)
                        ||| self_call_minus(*left, f.name@, p, 2) && self_call_minus(*right, f.name@, p, 1)
                    },
                    _ => false,
                }
            },
            _ => false,
        }
    }
}

/// `e` is the `i64` variable `n`, at `sp`.
pub open spec fn var_at(e: TypedExpr, n: Seq<char>, sp: Span) -> bool {
    match e {
        TypedExpr::Ident { name, ty, span } => name@ == n && ty == Type::I64 && span == sp,
        _ => false,
    }
}

/// `e` is the `i64` literal `v`, at `sp`.
pub open spec fn int_at(e: TypedExpr, v: i64, sp: Span) -> bool {
    match e {
        TypedExpr::Literal { lit: TypedLiteral::Int(n, t), ty, span } => n == v && t == Type::I64 && ty
            == Type::I64 && span == sp,
        _ => false,
    }
}

/// The operands of `e` when it applies `o` at `sp` and has type `t`.
pub open spec fn operands(e: TypedExpr, o: BinaryOp, t: Type, sp: Span) -> Option<(TypedExpr, TypedExpr)> {
    match e {
        TypedExpr::Binary { op, left, right, ty, span } => if op == o && ty == t && span == sp {
            Some((*left, *right))
        } else {
            None
        },
        _ => None,
    }
}

/// The accumulator variable of the loop form of a recurrence in `p`.
pub open spec fn rec_sum_name(p: Seq<char>) -> Seq<char> {
    "__rec_sum_"@ + p
}

/// The counter variable of the loop form of a recurrence in `p`.
pub open spec fn rec_cur_name(p: Seq<char>) -> Seq<char> {
    "__rec_cur_"@ + p
}

/// `b` is the loop form of the recurrence `f` (parameter `p`, everything at
/// the function's span, all of type `i64`):
/// `let mut cur = p; let mut sum = 0; while cur >= 2 { sum = sum + f(cur - 1);
/// cur = cur - 2; } return sum + cur;`.
pub open spec fn recurrence_unrolled(f: TypedFunction, b: TypedBlock) -> bool {
    let sp = f.span;
    let p = f.params@[0].name@;
    let cur = rec_cur_name(p);
    let sum = rec_sum_name(p);
    &&& b.span == sp
    &&& b.stmts@.len() == 4
    &&& match b.stmts@[0] {
        TypedStmt::Let { name, is_mutable, ty, value, span } => name@ == cur && is_mutable && ty == Type::I64
            && var_at(value, p, sp) && span == sp,
        _ => false,
    }
    &&& match b.stmts@[1] {
        TypedStmt::Let { name, is_mutable, ty, value, span } => name@ == sum && is_mutable && ty == Type::I64
            && int_at(value, 0, sp) && span == sp,
        _ => false,
    }
    &&& match b.stmts@[2] {
        TypedStmt::While { condition, body, span } => {
            &&& span == sp
            &&& body.span == sp
            &&& operands(condition, BinaryOp::Ge, Type::Bool, sp) matches Some((l, r)) && var_at(l, cur, sp)
                && int_at(r, 2, sp)
            &&& body.stmts@.len() == 2
            &&& match body.stmts@[0] {
                TypedStmt::Assign { name, value, span } => {
                    &&& name@ == sum
                    &&& span == sp
                    &&& operands(value, BinaryOp::Add, Type::I64, sp) matches Some((l, r))
                    &&& var_at(l, sum, sp)
                    &&& match r {
                        TypedExpr::Call { callee, args, ty, span } => {
                            &&& callee == f.name
                            &&& ty == Type::I64
                            &&& span == sp
                            &&& args@.len() == 1
                            &&& operands(args@[0], BinaryOp::Sub, Type::I64, sp) matches Some((a, k))
                            &&& var_at(a, cur, sp)
                            &&& int_at(k, 1, sp)
                        },
                        _ => false,
                    }
                },
                _ => false,
            }
            &&& match body.stmts@[1] {
                TypedStmt::Assign { name, value, span } => {
                    &&& name@ == cur
                    &&& span == sp
                    &&& operands(value, BinaryOp::Sub, Type::I64, sp) matches Some((l, r))
                    &&& var_at(l, cur, sp)
                    &&& int_at(r, 2, sp)
                },
                _ => false,
            }
        },
        _ => false,
    }
    &&& match b.stmts@[3] {
        TypedStmt::Return(Some(e), span) => {
            &&& span == sp
            &&& operands(e, BinaryOp::Add, Type::I64, sp) matches Some((l, r))
            &&& var_at(l, sum, sp)
            &&& var_at(r, cur, sp)
        },
        _ => false,
    }
}

fn names_var_exec(e: &TypedExpr, p: &String) -> (b: bool)
    ensures
        b == names_var(*e, p@),
{
    match e {
        TypedExpr::Ident { name, .. } => *name == *p,
        _ => false,
    }
}

fn is_int_exec(e: &TypedExpr, v: i64) -> (b: bool)
    ensures
        b == is_int(*e, v),
{
    match e {
        TypedExpr::Literal { lit: TypedLiteral::Int(n, _), .. } => *n == v,
        _ => false,
    }
}

fn self_call_minus_exec(e: &TypedExpr, f: &String, p: &String, off: i64) -> (b: bool)
    ensures
        b == self_call_minus(*e, f@, p@, off),
{
    match e {
        TypedExpr::Call { callee, args, .. } => {
            if *callee == *f && args.len() == 1 {
                match &args[0] {
                    TypedExpr::Binary { op: BinaryOp::Sub, left, right, .. } => names_var_exec(left, p)
                        && is_int_exec(right, off),
                    _ => false,
                }
            } else {
                false
            }
        },
        _ => false,
    }
}

fn var_i64(name: &String, span: Span) -> (e: TypedExpr)
    ensures
        var_at(e, name@, span),
{
    TypedExpr::Ident { name: name.clone(), ty: Type::I64, span }
}

fn int_i64(v: i64, span: Span) -> (e: TypedExpr)
    ensures
        int_at(e, v, span),
{
    TypedExpr::Literal { lit: TypedLiteral::Int(v, Type::I64), ty: Type::I64, span }
}

fn binary_i64(op: BinaryOp, left: TypedExpr, right: TypedExpr, ty: Type, span: Span) -> (e: TypedExpr)
    ensures
        operands(e, op, ty, span) == Some((left, right)),
{
    TypedExpr::Binary { op, left: Box::new(left), right: Box::new(right), ty, span }
}

/// The loop form of a function that computes the binary recurrence
/// `f(n) = f(n - 1) + f(n - 2)` with `f(n) = n` for `n <= 1` (see
/// `is_binary_recurrence` and `recurrence_unrolled`): one of the two calls
/// per step is kept, the other becomes a loop; `None` for any other function.
pub fn try_lower_binary_recurrence_tree(func: &TypedFunction) -> (r: Option<TypedBlock>)
    ensures
        match r {
            Some(b) => is_binary_recurrence(*func) && recurrence_unrolled(*func, b),
            None => !is_binary_recurrence(*func),
        },
{
    if func.params.len() != 1 || !func.return_ty.same(&Type::I64) {
        return None;
    }
    let p_name = &func.params[0].name;
    if !func.params[0].ty.same(&Type::I64) {
        return None;
    }
    if func.body.stmts.len() != 1 {
        return None;
    }
    let (cond, then_b, else_b) = match &func.body.stmts[0] {
        TypedStmt::If { condition, then_branch, else_branch: Some(eb), .. } => (condition, then_branch, eb),
        _ => return None,
    };
    let cond_ok = match cond {
        TypedExpr::Binary { op: BinaryOp::Le, left, right, .. } => names_var_exec(left, p_name) && is_int_exec(
            right,
            1,
        ),
        _ => false,
    };
    if !cond_ok {
        return None;
    }
    if then_b.stmts.len() != 1 {
        return None;
    }
    let then_ok = match &then_b.stmts[0] {
        TypedStmt::Return(Some(e), _) => names_var_exec(e, p_name),
        _ => false,
    };
    if !then_ok {
        return None;
    }
    if else_b.stmts.len() != 1 {
        return None;
    }
    let else_ok = match &else_b.stmts[0] {
        TypedStmt::Return(Some(TypedExpr::Binary { op: BinaryOp::Add, left, right, .. }), _) => {
            (self_call_minus_exec(left, &func.name, p_name, 1) && self_call_minus_exec(
                right,
                &func.name,
                p_name,
                2,
            )) || (self_call_minus_exec(left, &func.name, p_name, 2) && self_call_minus_exec(
                right,
                &func.name,
                p_name,
                1,
            ))
        },
        _ => false,
    };
    if !else_ok {
        return None;
    }
    let span = func.span;
    let mut cur = String::from_str("__rec_cur_");
    cur.append(p_name.as_str());
    let mut sum = String::from_str("__rec_sum_");
    sum.append(p_name.as_str());
    let cur_init = TypedStmt::Let {
        name: cur.clone(),
        is_mutable: true,
        ty: Type::I64,
        value: var_i64(p_name, span),
        span,
    };
    let sum_init = TypedStmt::Let { name: sum.clone(), is_mutable: true, ty: Type::I64, value: int_i64(0, span), span };
    let while_cond = binary_i64(BinaryOp::Ge, var_i64(&cur, span), int_i64(2, span), Type::Bool, span);
    let mut call_args: Vec<TypedExpr> = Vec::new();
    call_args.push(binary_i64(BinaryOp::Sub, var_i64(&cur, span), int_i64(1, span), Type::I64, span));
    let call_f = TypedExpr::Call { callee: func.name.clone(), args: call_args, ty: Type::I64, span };
    let sum_add = TypedStmt::Assign {
        name: sum.clone(),
        value: binary_i64(BinaryOp::Add, var_i64(&sum, span), call_f, Type::I64, span),
        span,
    };
    let cur_sub = TypedStmt::Assign {
        name: cur.clone(),
        value: binary_i64(BinaryOp::Sub, var_i64(&cur, span), int_i64(2, span), Type::I64, span),
        span,
    };
    let mut body_stmts: Vec<TypedStmt> = Vec::new();
    body_stmts.push(sum_add);
    body_stmts.push(cur_sub);
    let while_stmt = TypedStmt::While { condition: while_cond, body: TypedBlock { stmts: body_stmts, span }, span };
    let final_ret = TypedStmt::Return(
        Some(binary_i64(BinaryOp::Add, var_i64(&sum, span), var_i64(&cur, span), Type::I64, span)),
        span,
    );
    let mut stmts: Vec<TypedStmt> = Vec::new();
    stmts.push(cur_init);
    stmts.push(sum_init);
    stmts.push(while_stmt);
    stmts.push(final_ret);
    Some(TypedBlock { stmts, span })
}

/// Tail calls are lowered when functions are compiled, so the program is
/// left as it is.
pub fn optimize_program(program: &mut TypedProgram)
    ensures
        *final(program) == *old(program),
{
}

} // verus!
