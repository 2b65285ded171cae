//! Whole-program propagation of literal function arguments.
//!
//! Programs are compiled as a closed unit, so when every call to a
//! non-recursive function passes the same literal for a parameter, reads of
//! that parameter can be replaced by the literal. Immutable local variables
//! bound to a literal at the top of a function body are replaced first, so
//! that calls passing them take part.

use vstd::prelude::*;
use crate::span::Span;
use crate::typecheck::typed_ast::{TypedBlock, TypedExpr, TypedFunction, TypedLiteral, TypedParam, TypedProgram, TypedStmt};
use crate::typecheck::types::Type;
use crate::opt::value::int_value;

verus! {

// ---------------------------------------------------------------------------
// Substitution of literals for names
// ---------------------------------------------------------------------------

/// A name whose reads are replaced by a literal expression.
pub struct LiteralBinding {
    pub name: String,
    pub lit: TypedLiteral,
    pub ty: Type,
    pub span: Span,
}

/// The literal expression that replaces reads of the binding's name.
pub open spec fn binding_expr(b: LiteralBinding) -> TypedExpr {
    TypedExpr::Literal { lit: b.lit, ty: b.ty, span: b.span }
}

/// The first binding of `name`.
pub open spec fn binding_for(bs: Seq<LiteralBinding>, name: Seq<char>) -> Option<LiteralBinding>
    decreases bs.len(),
{
    if bs.len() == 0 {
        None
    } else if bs[0].name@ == name {
        Some(bs[0])
    } else {
        binding_for(bs.drop_first(), name)
    }
}

/// `r` is `e` with every read of a bound name replaced by its literal.
pub open spec fn subst_expr(e: TypedExpr, bs: Seq<LiteralBinding>, r: TypedExpr) -> bool
    decreases e, 1nat,
{
    match e {
        TypedExpr::Ident { name, .. } => match binding_for(bs, name@) {
            Some(b) => r == binding_expr(b),
            None => r == e,
        },
        TypedExpr::Literal { .. } => r == e,
        TypedExpr::Unary { op, expr, ty, span } => match r {
            TypedExpr::Unary { op: op2, expr: e2, ty: ty2, span: sp2 } => {
                &&& op2 == op && ty2 == ty && sp2 == span
                &&& subst_expr(*expr, bs, *e2)
            },
            _ => false,
        },
        TypedExpr::Binary { op, left, right, ty, span } => match r {
            TypedExpr::Binary { op: op2, left: l2, right: r2, ty: ty2, span: sp2 } => {
                &&& op2 == op && ty2 == ty && sp2 == span
                &&& subst_expr(*left, bs, *l2)
                &&& subst_expr(*right, bs, *r2)
            },
            _ => false,
        },
        TypedExpr::Call { callee, args, ty, span } => match r {
            TypedExpr::Call { callee: c2, args: a2, ty: ty2, span: sp2 } => {
                &&& c2 == callee && ty2 == ty && sp2 == span
                &&& subst_all(args@, bs, a2@)
            },
            _ => false,
        },
        TypedExpr::ArrayLiteral { elements, ty, span } => match r {
            TypedExpr::ArrayLiteral { elements: e2, ty: ty2, span: sp2 } => {
                &&& ty2 == ty && sp2 == span
                &&& subst_all(elements@, bs, e2@)
            },
            _ => false,
        },
        TypedExpr::Index { target, index, is_safe, ty, span } => match r {
            TypedExpr::Index { target: t2, index: i2, is_safe: s2, ty: ty2, span: sp2 } => {
                &&& s2 == is_safe && ty2 == ty && sp2 == span
                &&& subst_expr(*target, bs, *t2)
                &&& subst_expr(*index, bs, *i2)
            },
            _ => false,
        },
    }
}

pub open spec fn subst_all(es: Seq<TypedExpr>, bs: Seq<LiteralBinding>, rs: Seq<TypedExpr>) -> bool
    decreases es, 0nat,
{
    &&& rs.len() == es.len()
    &&& forall|i: int|
        #![trigger es[i]]
        #![trigger rs[i]]
        0 <= i < es.len() ==> subst_expr(es[i], bs, rs[i])
}

pub open spec fn subst_stmt(s: TypedStmt, bs: Seq<LiteralBinding>, r: TypedStmt) -> bool
    decreases s,
{
    match s {
        TypedStmt::Let { name, is_mutable, ty, value, span } => match r {
            TypedStmt::Let { name: n2, is_mutable: m2, ty: t2, value: v2, span: s2 } => {
                &&& n2 == name && m2 == is_mutable && t2 == ty && s2 == span
                &&& subst_expr(value, bs, v2)
            },
            _ => false,
        },
        TypedStmt::Assign { name, value, span } => match r {
            TypedStmt::Assign { name: n2, value: v2, span: s2 } => {
                &&& n2 == name && s2 == span
                &&& subst_expr(value, bs, v2)
            },
            _ => false,
        },
        TypedStmt::IndexAssign { target, index, value, is_safe, span } => match r {
            TypedStmt::IndexAssign { target: t2, index: i2, value: v2, is_safe: f2, span: s2 } => {
                &&& t2 == target && f2 == is_safe && s2 == span
                &&& subst_expr(index, bs, i2)
                &&& subst_expr(value, bs, v2)
            },
            _ => false,
        },
        TypedStmt::Return(v, span) => match r {
            TypedStmt::Return(v2, s2) => s2 == span && match v {
                Some(e) => v2 matches Some(e2) && subst_expr(e, bs, e2),
                None => v2 is None,
            },
            _ => false,
        },
        TypedStmt::Break(span) => r == s,
        TypedStmt::Expr(e) => match r {
            TypedStmt::Expr(e2) => subst_expr(e, bs, e2),
            _ => false,
        },
        TypedStmt::If { condition, then_branch, else_branch, span } => match r {
            TypedStmt::If { condition: c2, then_branch: t2, else_branch: e2, span: s2 } => {
                &&& s2 == span
                &&& subst_expr(condition, bs, c2)
                &&& t2.span == then_branch.span
                &&& subst_stmts(then_branch.stmts@, bs, t2.stmts@)
                &&& match else_branch {
                    Some(b) => e2 matches Some(b2) && b2.span == b.span && subst_stmts(
                        b.stmts@,
                        bs,
                        b2.stmts@,
                    ),
                    None => e2 is None,
                }
            },
            _ => false,
        },
        TypedStmt::While { condition, body, span } => match r {
            TypedStmt::While { condition: c2, body: b2, span: s2 } => {
                &&& s2 == span
                &&& subst_expr(condition, bs, c2)
                &&& b2.span == body.span
                &&& subst_stmts(body.stmts@, bs, b2.stmts@)
            },
            _ => false,
        },
    }
}

pub open spec fn subst_stmts(ss: Seq<TypedStmt>, bs: Seq<LiteralBinding>, rs: Seq<TypedStmt>) -> bool
    decreases ss,
{
    &&& rs.len() == ss.len()
    &&& forall|i: int|
        #![trigger ss[i]]
        #![trigger rs[i]]
        0 <= i < ss.len() ==> subst_stmt(ss[i], bs, rs[i])
}

/// Every name bound in `bs` is bound to an integer literal whose value is
/// the name's value in `env`.
pub open spec fn env_agrees(bs: Seq<LiteralBinding>, env: Map<Seq<char>, i64>) -> bool {
    forall|name: Seq<char>|
        #[trigger] binding_for(bs, name) matches Some(b) ==> (env.contains_key(name) && (b.lit matches TypedLiteral::Int(v, _) && env[name] == v))
}

/// Substitution keeps the value: where each bound name's value is its
/// literal's, an expression and its substituted form have the same value.
pub proof fn lemma_subst_keeps_value(e: TypedExpr, bs: Seq<LiteralBinding>, r: TypedExpr, env: Map<Seq<char>, i64>)
    requires
        subst_expr(e, bs, r),
        env_agrees(bs, env),
    ensures
        int_value(r, env) == int_value(e, env),
    decreases e,
{
    match e {
        TypedExpr::Ident { name, .. } => {
            if let Some(b) = binding_for(bs, name@) {
                assert(env.contains_key(name@));
            }
        },
        TypedExpr::Unary { op, expr, .. } => {
            if let TypedExpr::Unary { expr: e2, .. } = r {
                lemma_subst_keeps_value(*expr, bs, *e2, env);
            }
        },
        TypedExpr::Binary { left, right, .. } => {
            if let TypedExpr::Binary { left: l2, right: r2, .. } = r {
                lemma_subst_keeps_value(*left, bs, *l2, env);
                lemma_subst_keeps_value(*right, bs, *r2, env);
            }
        },
        _ => {},
    }
}

impl LiteralBinding {
    /// The literal expression that replaces reads of the name.
    pub fn expr(&self) -> (e: TypedExpr)
        ensures
            e == binding_expr(*self),
    {
        TypedExpr::Literal { lit: self.lit.duplicate(), ty: self.ty.duplicate(), span: self.span }
    }
}

/// The first binding of `name`, by position.
fn find_binding(bs: &Vec<LiteralBinding>, name: &String) -> (r: Option<usize>)
    ensures
        match r {
            Some(i) => i < bs@.len() && binding_for(bs@, name@) == Some(bs@[i as int]),
            None => binding_for(bs@, name@) is None,
        },
{
    let mut i: usize = 0;
    assert(bs@.subrange(0, bs@.len() as int) =~= bs@);
    while i < bs.len()
        invariant
            i <= bs@.len(),
            binding_for(bs@, name@) == binding_for(bs@.subrange(i as int, bs@.len() as int), name@),
        decreases bs.len() - i,
    {
        let ghost rest = bs@.subrange(i as int, bs@.len() as int);
        assert(rest[0] == bs@[i as int]);
        if bs[i].name == *name {
            return Some(i);
        }
        assert(rest.drop_first() =~= bs@.subrange(i + 1, bs@.len() as int));
        i += 1;
    }
    None
}

fn subst_exprs(es: Vec<TypedExpr>, bs: &Vec<LiteralBinding>, Ghost(whole): Ghost<TypedExpr>) -> (rs: Vec<TypedExpr>)
    requires
        forall|i: int| 0 <= i < es@.len() ==> decreases_to!(whole => #[trigger] es@[i]),
    ensures
        subst_all(es@, bs@, rs@),
    decreases whole, 0nat,
{
    let ghost orig = es@;
    let mut es = es;
    let mut rs: Vec<TypedExpr> = Vec::new();
    let n = es.len();
    while es.len() > 0
        invariant
            n == orig.len(),
            rs@.len() + es@.len() == n,
            es@ == orig.subrange(rs@.len() as int, n as int),
            forall|i: int| 0 <= i < orig.len() ==> decreases_to!(whole => #[trigger] orig[i]),
            forall|i: int|
                #![trigger orig[i]]
                #![trigger rs@[i]]
                0 <= i < rs@.len() ==> subst_expr(orig[i], bs@, rs@[i]),
        decreases es@.len(),
    {
        let ghost k = rs@.len() as int;
        let e = es.remove(0);
        assert(e == orig[k]);
        let r = subst_in_expr(e, bs);
        rs.push(r);
        assert(es@ =~= orig.subrange(rs@.len() as int, n as int));
    }
    rs
}

/// Replaces every read of a bound name in `e` by its literal.
pub fn subst_in_expr(e: TypedExpr, bs: &Vec<LiteralBinding>) -> (r: TypedExpr)
    ensures
        subst_expr(e, bs@, r),
    decreases e, 1nat,
{
    let ghost whole = e;
    match e {
        TypedExpr::Ident { name, ty, span } => match find_binding(bs, &name) {
            Some(i) => bs[i].expr(),
            None => TypedExpr::Ident { name, ty, span },
        },
        TypedExpr::Literal { lit, ty, span } => TypedExpr::Literal { lit, ty, span },
        TypedExpr::Unary { op, expr, ty, span } => {
            let e2 = subst_in_expr(*expr, bs);
            TypedExpr::Unary { op, expr: Box::new(e2), ty, span }
        },
        TypedExpr::Binary { op, left, right, ty, span } => {
            let l2 = subst_in_expr(*left, bs);
            let r2 = subst_in_expr(*right, bs);
            TypedExpr::Binary { op, left: Box::new(l2), right: Box::new(r2), ty, span }
        },
        TypedExpr::Call { callee, args, ty, span } => {
            proof {
                assert forall|i: int| 0 <= i < args@.len() implies decreases_to!(whole => #[trigger] args@[i]) by {
                    assert(decreases_to!(whole => whole->Call_args));
                }
            }
            let a2 = subst_exprs(args, bs, Ghost(whole));
            TypedExpr::Call { callee, args: a2, ty, span }
        },
        TypedExpr::ArrayLiteral { elements, ty, span } => {
            proof {
                assert forall|i: int| 0 <= i < elements@.len() implies decreases_to!(whole => #[trigger] elements@[i]) by {
                    assert(decreases_to!(whole => whole->ArrayLiteral_elements));
                }
            }
            let e2 = subst_exprs(elements, bs, Ghost(whole));
            TypedExpr::ArrayLiteral { elements: e2, ty, span }
        },
        TypedExpr::Index { target, index, is_safe, ty, span } => {
            let t2 = subst_in_expr(*target, bs);
            let i2 = subst_in_expr(*index, bs);
            TypedExpr::Index { target: Box::new(t2), index: Box::new(i2), is_safe, ty, span }
        },
    }
}

fn subst_stmt_list(ss: Vec<TypedStmt>, bs: &Vec<LiteralBinding>, Ghost(whole): Ghost<TypedBlock>) -> (rs: Vec<TypedStmt>)
    requires
        whole.stmts@ == ss@,
    ensures
        subst_stmts(ss@, bs@, rs@),
    decreases whole, 0nat,
{
    let ghost orig = ss@;
    let mut ss = ss;
    let mut rs: Vec<TypedStmt> = Vec::new();
    let n = ss.len();
    while ss.len() > 0
        invariant
            whole.stmts@ == orig,
            n == orig.len(),
            rs@.len() + ss@.len() == n,
            ss@ == orig.subrange(rs@.len() as int, n as int),
            forall|i: int|
                #![trigger orig[i]]
                #![trigger rs@[i]]
                0 <= i < rs@.len() ==> subst_stmt(orig[i], bs@, rs@[i]),
        decreases ss@.len(),
    {
        let ghost k = rs@.len() as int;
        let s = ss.remove(0);
        assert(s == orig[k]);
        proof {
            assert(decreases_to!(whole => whole.stmts));
            assert(decreases_to!(whole.stmts => whole.stmts@));
            assert(decreases_to!(whole.stmts@ => whole.stmts@[k]));
        }
        let r = subst_in_stmt(s, bs);
        rs.push(r);
        assert(ss@ =~= orig.subrange(rs@.len() as int, n as int));
    }
    rs
}

/// Replaces every read of a bound name in the block by its literal.
pub fn subst_in_block(b: TypedBlock, bs: &Vec<LiteralBinding>) -> (r: TypedBlock)
    ensures
        r.span == b.span,
        subst_stmts(b.stmts@, bs@, r.stmts@),
    decreases b, 1nat,
{
    let ghost whole = b;
    let TypedBlock { stmts, span } = b;
    let stmts2 = subst_stmt_list(stmts, bs, Ghost(whole));
    TypedBlock { stmts: stmts2, span }
}

/// Replaces every read of a bound name in the statement by its literal.
pub fn subst_in_stmt(s: TypedStmt, bs: &Vec<LiteralBinding>) -> (r: TypedStmt)
    ensures
        subst_stmt(s, bs@, r),
    decreases s, 2nat,
{
    match s {
        TypedStmt::Let { name, is_mutable, ty, value, span } => {
            let v2 = subst_in_expr(value, bs);
            TypedStmt::Let { name, is_mutable, ty, value: v2, span }
        },
        TypedStmt::Assign { name, value, span } => {
            let v2 = subst_in_expr(value, bs);
            TypedStmt::Assign { name, value: v2, span }
        },
        TypedStmt::IndexAssign { target, index, value, is_safe, span } => {
            let i2 = subst_in_expr(index, bs);
            let v2 = subst_in_expr(value, bs);
            TypedStmt::IndexAssign { target, index: i2, value: v2, is_safe, span }
        },
        TypedStmt::Return(v, span) => match v {
            Some(e) => {
                let e2 = subst_in_expr(e, bs);
                TypedStmt::Return(Some(e2), span)
            },
            None => TypedStmt::Return(None, span),
        },
        TypedStmt::Break(span) => TypedStmt::Break(span),
        TypedStmt::Expr(e) => {
            let e2 = subst_in_expr(e, bs);
            TypedStmt::Expr(e2)
        },
        TypedStmt::If { condition, then_branch, else_branch, span } => {
            let c2 = subst_in_expr(condition, bs);
            let t2 = subst_in_block(then_branch, bs);
            let e2 = match else_branch {
                Some(b) => Some(subst_in_block(b, bs)),
                None => None,
            };
            TypedStmt::If { condition: c2, then_branch: t2, else_branch: e2, span }
        },
        TypedStmt::While { condition, body, span } => {
            let c2 = subst_in_expr(condition, bs);
            let b2 = subst_in_block(body, bs);
            TypedStmt::While { condition: c2, body: b2, span }
        },
    }
}

// ---------------------------------------------------------------------------
// Names that a statement assigns
// ---------------------------------------------------------------------------

/// `s` assigns `name`, or an element of it, somewhere (nested blocks included).
pub open spec fn stmt_assigns(s: TypedStmt, name: Seq<char>) -> bool
    decreases s,
{
    match s {
        TypedStmt::Assign { name: n, .. } => n@ == name,
        TypedStmt::IndexAssign { target, .. } => target@ == name,
        TypedStmt::If { then_branch, else_branch, .. } => stmts_assign(then_branch.stmts@, name) || match else_branch {
            Some(b) => stmts_assign(b.stmts@, name),
            None => false,
        },
        TypedStmt::While { body, .. } => stmts_assign(body.stmts@, name),
        _ => false,
    }
}

pub open spec fn stmts_assign(ss: Seq<TypedStmt>, name: Seq<char>) -> bool
    decreases ss,
{
    if ss.len() == 0 {
        false
    } else {
        stmts_assign(ss.subrange(0, ss.len() - 1), name) || stmt_assigns(ss[ss.len() - 1], name)
    }
}

fn block_assigns(b: &TypedBlock, name: &String) -> (r: bool)
    ensures
        r == stmts_assign(b.stmts@, name@),
    decreases *b, 0nat,
{
    let ghost whole = *b;
    let mut i: usize = 0;
    let mut found = false;
    assert(b.stmts@.subrange(0, 0) =~= Seq::<TypedStmt>::empty());
    while i < b.stmts.len()
        invariant
            whole == *b,
            i <= b.stmts@.len(),
            found == stmts_assign(b.stmts@.subrange(0, i as int), name@),
        decreases b.stmts@.len() - i,
    {
        proof {
            assert(decreases_to!(whole => whole.stmts));
            assert(decreases_to!(whole.stmts => whole.stmts@));
            assert(decreases_to!(whole.stmts@ => whole.stmts@[i as int]));
        }
        let here = stmt_assigns_name(&b.stmts[i], name);
        proof {
            let pre = b.stmts@.subrange(0, i + 1);
            assert(pre.subrange(0, pre.len() - 1) =~= b.stmts@.subrange(0, i as int));
        }
        found = found || here;
        i += 1;
    }
    assert(b.stmts@.subrange(0, i as int) =~= b.stmts@);
    found
}

fn stmt_assigns_name(s: &TypedStmt, name: &String) -> (r: bool)
    ensures
        r == stmt_assigns(*s, name@),
    decreases *s, 1nat,
{
    match s {
        TypedStmt::Assign { name: n, .. } => *n == *name,
        TypedStmt::IndexAssign { target, .. } => *target == *name,
        TypedStmt::If { then_branch, else_branch, .. } => {
            if block_assigns(then_branch, name) {
                true
            } else {
                match else_branch {
                    Some(b) => block_assigns(b, name),
                    None => false,
                }
            }
        },
        TypedStmt::While { body, .. } => block_assigns(body, name),
        _ => false,
    }
}

// ---------------------------------------------------------------------------
// Immutable local literals
// ---------------------------------------------------------------------------

/// The top-level `let name = literal;` statements of a body, for names that
/// the body never assigns; the first binding of a name is kept.
pub open spec fn local_bindings(ss: Seq<TypedStmt>, body: Seq<TypedStmt>) -> Seq<LiteralBinding>
    decreases ss.len(),
{
    if ss.len() == 0 {
        Seq::empty()
    } else {
        let prev = local_bindings(ss.drop_last(), body);
        match ss.last() {
            TypedStmt::Let { name, value, .. } => match value {
                TypedExpr::Literal { lit, ty, span } => if !stmts_assign(body, name@) && binding_for(
                    prev,
                    name@,
                ) is None {
                    prev.push(LiteralBinding { name, lit, ty, span })
                } else {
                    prev
                },
                _ => prev,
            },
            _ => prev,
        }
    }
}

/// A function whose body is `body`, its other parts those of `f`.
pub open spec fn same_but_body(f: TypedFunction, g: TypedFunction) -> bool {
    &&& g.name == f.name
    &&& g.params == f.params
    &&& g.return_ty == f.return_ty
    &&& g.span == f.span
    &&& g.body.span == f.body.span
}

fn collect_local_bindings(body: &TypedBlock) -> (bs: Vec<LiteralBinding>)
    ensures
        bs@ == local_bindings(body.stmts@, body.stmts@),
{
    let mut bs: Vec<LiteralBinding> = Vec::new();
    let mut i: usize = 0;
    while i < body.stmts.len()
        invariant
            i <= body.stmts@.len(),
            bs@ == local_bindings(body.stmts@.subrange(0, i as int), body.stmts@),
        decreases body.stmts@.len() - i,
    {
        proof {
            let pre = body.stmts@.subrange(0, i + 1);
            assert(pre.drop_last() =~= body.stmts@.subrange(0, i as int));
        }
        match &body.stmts[i] {
            TypedStmt::Let { name, value, .. } => match value {
                TypedExpr::Literal { lit, ty, span } => {
                    if !block_assigns(body, name) {
                        if find_binding(&bs, name).is_none() {
                            bs.push(
                                LiteralBinding {
                                    name: name.clone(),
                                    lit: lit.duplicate(),
                                    ty: ty.duplicate(),
                                    span: *span,
                                },
                            );
                        }
                    }
                },
                _ => {},
            },
            _ => {},
        }
        i += 1;
    }
    assert(body.stmts@.subrange(0, i as int) =~= body.stmts@);
    bs
}

/// Replaces reads of the function's immutable local literals by the literals.
pub fn propagate_local_literals(function: TypedFunction) -> (r: TypedFunction)
    ensures
        same_but_body(function, r),
        subst_stmts(
            function.body.stmts@,
            local_bindings(function.body.stmts@, function.body.stmts@),
            r.body.stmts@,
        ),
{
    let bs = collect_local_bindings(&function.body);
    let TypedFunction { name, params, return_ty, body, span } = function;
    let body2 = subst_in_block(body, &bs);
    TypedFunction { name, params, return_ty, body: body2, span }
}

// ---------------------------------------------------------------------------
// Calls and the literals they pass
// ---------------------------------------------------------------------------

/// The argument lists of the calls to `f` in `e`, in evaluation order
/// (the calls inside an argument list before the call itself).
pub open spec fn calls_in_expr(e: TypedExpr, f: Seq<char>) -> Seq<Seq<TypedExpr>>
    decreases e, 1nat,
{
    match e {
        TypedExpr::Unary { expr, .. } => calls_in_expr(*expr, f),
        TypedExpr::Binary { left, right, .. } => calls_in_expr(*left, f) + calls_in_expr(*right, f),
        TypedExpr::Call { callee, args, .. } => calls_in_exprs(args@, f) + if callee@ == f {
            seq![args@]
        } else {
            Seq::empty()
        },
        TypedExpr::ArrayLiteral { elements, .. } => calls_in_exprs(elements@, f),
        TypedExpr::Index { target, index, .. } => calls_in_expr(*target, f) + calls_in_expr(*index, f),
        _ => Seq::empty(),
    }
}

pub open spec fn calls_in_exprs(es: Seq<TypedExpr>, f: Seq<char>) -> Seq<Seq<TypedExpr>>
    decreases es, 0nat,
{
    if es.len() == 0 {
        Seq::empty()
    } else {
        calls_in_exprs(es.subrange(0, es.len() - 1), f) + calls_in_expr(es[es.len() - 1], f)
    }
}

pub open spec fn calls_in_stmt(s: TypedStmt, f: Seq<char>) -> Seq<Seq<TypedExpr>>
    decreases s,
{
    match s {
        TypedStmt::Let { value, .. } => calls_in_expr(value, f),
        TypedStmt::Assign { value, .. } => calls_in_expr(value, f),
        TypedStmt::Expr(value) => calls_in_expr(value, f),
        TypedStmt::IndexAssign { index, value, .. } => calls_in_expr(index, f) + calls_in_expr(value, f),
        TypedStmt::Return(Some(value), _) => calls_in_expr(value, f),
        TypedStmt::Return(None, _) => Seq::empty(),
        TypedStmt::Break(_) => Seq::empty(),
        TypedStmt::If { condition, then_branch, else_branch, .. } => calls_in_expr(condition, f)
            + calls_in_stmts(then_branch.stmts@, f) + match else_branch {
            Some(b) => calls_in_stmts(b.stmts@, f),
            None => Seq::empty(),
        },
        TypedStmt::While { condition, body, .. } => calls_in_expr(condition, f) + calls_in_stmts(
            body.stmts@,
            f,
        ),
    }
}

pub open spec fn calls_in_stmts(ss: Seq<TypedStmt>, f: Seq<char>) -> Seq<Seq<TypedExpr>>
    decreases ss,
{
    if ss.len() == 0 {
        Seq::empty()
    } else {
        calls_in_stmts(ss.subrange(0, ss.len() - 1), f) + calls_in_stmt(ss[ss.len() - 1], f)
    }
}

/// The calls to `f` in all function bodies, in order.
pub open spec fn calls_in_functions(fs: Seq<TypedFunction>, f: Seq<char>) -> Seq<Seq<TypedExpr>>
    decreases fs.len(),
{
    if fs.len() == 0 {
        Seq::empty()
    } else {
        calls_in_functions(fs.drop_last(), f) + calls_in_stmts(fs.last().body.stmts@, f)
    }
}

/// Two literals are equal, float spellings compared as text.
pub open spec fn same_literal(a: TypedLiteral, b: TypedLiteral) -> bool {
    match (a, b) {
        (TypedLiteral::Int(x, t), TypedLiteral::Int(y, u)) => x == y && t == u,
        (TypedLiteral::Float(x, t), TypedLiteral::Float(y, u)) => x@ == y@ && t == u,
        (TypedLiteral::Bool(x), TypedLiteral::Bool(y)) => x == y,
        _ => false,
    }
}

/// `e` is the literal expression `l`.
pub open spec fn is_same_literal_expr(e: TypedExpr, l: TypedExpr) -> bool {
    match (e, l) {
        (TypedExpr::Literal { lit: a, ty: t, span: s }, TypedExpr::Literal { lit: b, ty: u, span: v }) =>
            same_literal(a, b) && t == u && s == v,
        _ => false,
    }
}

/// The argument at `i` of the call `args` is the literal expression `l`.
pub open spec fn passes(args: Seq<TypedExpr>, i: int, l: TypedExpr) -> bool {
    0 <= i < args.len() && is_same_literal_expr(args[i], l)
}

/// The literal that every call passes at position `i`, when there is a call
/// and all of them pass the literal of the first.
pub open spec fn shared_literal(calls: Seq<Seq<TypedExpr>>, i: int) -> Option<TypedExpr> {
    if calls.len() > 0 && 0 <= i < calls[0].len() && calls[0][i] is Literal && forall|k: int|
        0 <= k < calls.len() ==> passes(#[trigger] calls[k], i, calls[0][i]) {
        Some(calls[0][i])
    } else {
        None
    }
}

/// The parameters that every call fills with one literal, with that literal;
/// a later parameter of the same name comes first.
pub open spec fn param_bindings(ps: Seq<TypedParam>, calls: Seq<Seq<TypedExpr>>) -> Seq<LiteralBinding>
    decreases ps.len(),
{
    if ps.len() == 0 {
        Seq::empty()
    } else {
        let prev = param_bindings(ps.drop_last(), calls);
        match shared_literal(calls, ps.len() - 1) {
            Some(TypedExpr::Literal { lit, ty, span }) => seq![
                LiteralBinding { name: ps.last().name, lit, ty, span },
            ] + prev,
            _ => prev,
        }
    }
}

/// Some parameter of `f` is assigned in its body.
pub open spec fn params_assigned(f: TypedFunction) -> bool {
    exists|i: int| 0 <= i < f.params@.len() && stmts_assign(f.body.stmts@, (#[trigger] f.params@[i]).name@)
}

/// The literals that replace the parameters of the `j`-th function: none for
/// a function that calls itself, assigns a parameter, or is never called.
pub open spec fn argument_bindings(fs: Seq<TypedFunction>, j: int) -> Seq<LiteralBinding> {
    let f = fs[j];
    let calls = calls_in_functions(fs, f.name@);
    if calls_in_stmts(f.body.stmts@, f.name@).len() > 0 || params_assigned(f) || calls.len() == 0 {
        Seq::empty()
    } else {
        param_bindings(f.params@, calls)
    }
}

fn literal_same(a: &TypedLiteral, b: &TypedLiteral) -> (r: bool)
    ensures
        r == same_literal(*a, *b),
{
    match (a, b) {
        (TypedLiteral::Int(x, t), TypedLiteral::Int(y, u)) => *x == *y && t.same(u),
        (TypedLiteral::Float(x, t), TypedLiteral::Float(y, u)) => *x == *y && t.same(u),
        (TypedLiteral::Bool(x), TypedLiteral::Bool(y)) => *x == *y,
        _ => false,
    }
}

fn literal_expr_same(e: &TypedExpr, l: &TypedExpr) -> (r: bool)
    ensures
        r == is_same_literal_expr(*e, *l),
{
    match (e, l) {
        (TypedExpr::Literal { lit: a, ty: t, span: s }, TypedExpr::Literal { lit: b, ty: u, span: v }) =>
            literal_same(a, b) && t.same(u) && *s == *v,
        _ => false,
    }
}

/// What is known of the calls seen so far: none, or the first call's
/// arguments and, per position, whether every call passed its literal.
pub struct CallVotes<'a> {
    pub first: Option<&'a Vec<TypedExpr>>,
    pub agree: Vec<bool>,
}

/// `agree` holds, for each position below `n`, whether all `calls` pass the
/// first call's literal there.
pub open spec fn votes_of(calls: Seq<Seq<TypedExpr>>, n: nat) -> Seq<bool> {
    Seq::new(
        n,
        |i: int| calls.len() > 0 && i < calls[0].len() && calls[0][i] is Literal && forall|k: int|
            0 <= k < calls.len() ==> passes(#[trigger] calls[k], i, calls[0][i]),
    )
}

impl<'a> CallVotes<'a> {
    pub open spec fn state_of(&self, calls: Seq<Seq<TypedExpr>>, n: nat) -> bool {
        &&& (calls.len() == 0) == (self.first is None)
        &&& (self.first matches Some(a) ==> a@ == calls[0])
        &&& self.agree@ == votes_of(calls, n)
    }

    /// Records one more call.
    fn record(&mut self, args: &'a Vec<TypedExpr>, Ghost(calls): Ghost<Seq<Seq<TypedExpr>>>, n: usize)
        requires
            old(self).state_of(calls, n as nat),
        ensures
            final(self).state_of(calls.push(args@), n as nat),
    {
        let ghost all = calls.push(args@);
        match self.first {
            None => {
                let mut agree: Vec<bool> = Vec::new();
                let mut i: usize = 0;
                while i < n
                    invariant
                        i <= n,
                        calls.len() == 0,
                        all == calls.push(args@),
                        agree@ == votes_of(all, n as nat).subrange(0, i as int),
                    decreases n - i,
                {
                    let v = i < args.len() && match &args[i] {
                        TypedExpr::Literal { .. } => literal_expr_same(&args[i], &args[i]),
                        _ => false,
                    };
                    proof {
                        assert(all.len() == 1 && all[0] == args@);
                        if v {
                            assert forall|k: int| 0 <= k < all.len() implies passes(#[trigger] all[k], i as int, all[0][i as int]) by {
                                assert(k == 0);
                            }
                        }
                        assert(v == votes_of(all, n as nat)[i as int]);
                    }
                    agree.push(v);
                    i += 1;
                    assert(agree@ =~= votes_of(all, n as nat).subrange(0, i as int));
                }
                assert(agree@ =~= votes_of(all, n as nat));
                self.first = Some(args);
                self.agree = agree;
            },
            Some(first) => {
                let mut i: usize = 0;
                let ghost before = self.agree@;
                while i < n
                    invariant
                        i <= n,
                        calls.len() > 0,
                        first@ == calls[0],
                        self.first == Some(first),
                        all == calls.push(args@),
                        before == votes_of(calls, n as nat),
                        self.agree@.len() == n,
                        forall|k: int| 0 <= k < i ==> self.agree@[k] == votes_of(all, n as nat)[k],
                        forall|k: int| i <= k < n ==> self.agree@[k] == before[k],
                    decreases n - i,
                {
                    if self.agree[i] {
                        proof {
                            assert(self.agree@[i as int] == before[i as int]);
                            assert(votes_of(calls, n as nat)[i as int]);
                            assert(i < calls[0].len());
                        }
                        let keep = i < args.len() && literal_expr_same(&args[i], &first[i]);
                        proof {
                            assert(all[0] == calls[0]);
                            if keep {
                                assert forall|k: int| 0 <= k < all.len() implies passes(#[trigger] all[k], i as int, all[0][i as int]) by {
                                    if k < calls.len() {
                                        assert(all[k] == calls[k]);
                                        assert(passes(calls[k], i as int, calls[0][i as int]));
                                    }
                                }
                            } else {
                                assert(!passes(all[calls.len() as int], i as int, all[0][i as int]));
                            }
                            assert(keep == votes_of(all, n as nat)[i as int]);
                        }
                        self.agree.set(i, keep);
                    } else {
                        proof {
                            assert(self.agree@[i as int] == before[i as int]);
                            assert(!votes_of(calls, n as nat)[i as int]);
                            assert(all[0] == calls[0]);
                            if i < calls[0].len() && calls[0][i as int] is Literal {
                                assert(!(forall|k: int|
                                    0 <= k < calls.len() ==> passes(#[trigger] calls[k], i as int, calls[0][i as int])));
                                let k = choose|k: int|
                                    0 <= k < calls.len() && !passes(#[trigger] calls[k], i as int, calls[0][i as int]);
                                assert(all[k] == calls[k]);
                                assert(!passes(all[k], i as int, all[0][i as int]));
                            }
                            assert(!votes_of(all, n as nat)[i as int]);
                        }
                    }
                    i += 1;
                }
                assert(self.agree@ =~= votes_of(all, n as nat));
            },
        }
    }
}

fn vote_exprs<'a>(
    es: &'a Vec<TypedExpr>,
    f: &String,
    votes: &mut CallVotes<'a>,
    Ghost(seen): Ghost<Seq<Seq<TypedExpr>>>,
    n: usize,
    Ghost(whole): Ghost<TypedExpr>,
)
    requires
        old(votes).state_of(seen, n as nat),
        forall|i: int| 0 <= i < es@.len() ==> decreases_to!(whole => #[trigger] es@[i]),
    ensures
        final(votes).state_of(seen + calls_in_exprs(es@, f@), n as nat),
    decreases whole, 0nat,
{
    let mut i: usize = 0;
    assert(es@.subrange(0, 0) =~= Seq::<TypedExpr>::empty());
    assert(seen + calls_in_exprs(es@.subrange(0, 0), f@) =~= seen);
    while i < es.len()
        invariant
            i <= es@.len(),
            forall|k: int| 0 <= k < es@.len() ==> decreases_to!(whole => #[trigger] es@[k]),
            votes.state_of(seen + calls_in_exprs(es@.subrange(0, i as int), f@), n as nat),
        decreases es@.len() - i,
    {
        let ghost before = seen + calls_in_exprs(es@.subrange(0, i as int), f@);
        vote_expr(&es[i], f, votes, Ghost(before), n);
        proof {
            let pre = es@.subrange(0, i + 1);
            assert(pre.subrange(0, pre.len() - 1) =~= es@.subrange(0, i as int));
            assert(before + calls_in_expr(es@[i as int], f@) =~= seen + calls_in_exprs(pre, f@));
        }
        i += 1;
    }
    assert(es@.subrange(0, i as int) =~= es@);
}

/// Records the calls to `f` in `e`, in evaluation order.
fn vote_expr<'a>(
    e: &'a TypedExpr,
    f: &String,
    votes: &mut CallVotes<'a>,
    Ghost(seen): Ghost<Seq<Seq<TypedExpr>>>,
    n: usize,
)
    requires
        old(votes).state_of(seen, n as nat),
    ensures
        final(votes).state_of(seen + calls_in_expr(*e, f@), n as nat),
    decreases *e, 1nat,
{
    let ghost whole = *e;
    match e {
        TypedExpr::Unary { expr, .. } => {
            vote_expr(expr, f, votes, Ghost(seen), n);
        },
        TypedExpr::Binary { left, right, .. } => {
            vote_expr(left, f, votes, Ghost(seen), n);
            let ghost mid = seen + calls_in_expr(**left, f@);
            vote_expr(right, f, votes, Ghost(mid), n);
            assert(mid + calls_in_expr(**right, f@) =~= seen + calls_in_expr(*e, f@));
        },
        TypedExpr::Call { callee, args, .. } => {
            proof {
                assert forall|i: int| 0 <= i < args@.len() implies decreases_to!(whole => #[trigger] args@[i]) by {
                    assert(decreases_to!(whole => whole->Call_args));
                }
            }
            vote_exprs(args, f, votes, Ghost(seen), n, Ghost(whole));
            let ghost mid = seen + calls_in_exprs(args@, f@);
            if *callee == *f {
                votes.record(args, Ghost(mid), n);
                assert(mid.push(args@) =~= seen + calls_in_expr(*e, f@));
            } else {
                assert(mid =~= seen + calls_in_expr(*e, f@));
            }
        },
        TypedExpr::ArrayLiteral { elements, .. } => {
            proof {
                assert forall|i: int| 0 <= i < elements@.len() implies decreases_to!(whole => #[trigger] elements@[i]) by {
                    assert(decreases_to!(whole => whole->ArrayLiteral_elements));
                }
            }
            vote_exprs(elements, f, votes, Ghost(seen), n, Ghost(whole));
        },
        TypedExpr::Index { target, index, .. } => {
            vote_expr(target, f, votes, Ghost(seen), n);
            let ghost mid = seen + calls_in_expr(**target, f@);
            vote_expr(index, f, votes, Ghost(mid), n);
            assert(mid + calls_in_expr(**index, f@) =~= seen + calls_in_expr(*e, f@));
        },
        _ => {
            assert(seen + calls_in_expr(*e, f@) =~= seen);
        },
    }
}

fn vote_block<'a>(
    b: &'a TypedBlock,
    f: &String,
    votes: &mut CallVotes<'a>,
    Ghost(seen): Ghost<Seq<Seq<TypedExpr>>>,
    n: usize,
)
    requires
        old(votes).state_of(seen, n as nat),
    ensures
        final(votes).state_of(seen + calls_in_stmts(b.stmts@, f@), n as nat),
    decreases *b, 0nat,
{
    let ghost whole = *b;
    let mut i: usize = 0;
    assert(b.stmts@.subrange(0, 0) =~= Seq::<TypedStmt>::empty());
    assert(seen + calls_in_stmts(b.stmts@.subrange(0, 0), f@) =~= seen);
    while i < b.stmts.len()
        invariant
            whole == *b,
            i <= b.stmts@.len(),
            votes.state_of(seen + calls_in_stmts(b.stmts@.subrange(0, i as int), f@), n as nat),
        decreases b.stmts@.len() - i,
    {
        proof {
            assert(decreases_to!(whole => whole.stmts));
            assert(decreases_to!(whole.stmts => whole.stmts@));
            assert(decreases_to!(whole.stmts@ => whole.stmts@[i as int]));
        }
        let ghost before = seen + calls_in_stmts(b.stmts@.subrange(0, i as int), f@);
        vote_stmt(&b.stmts[i], f, votes, Ghost(before), n);
        proof {
            let pre = b.stmts@.subrange(0, i + 1);
            assert(pre.subrange(0, pre.len() - 1) =~= b.stmts@.subrange(0, i as int));
            assert(before + calls_in_stmt(b.stmts@[i as int], f@) =~= seen + calls_in_stmts(pre, f@));
        }
        i += 1;
    }
    assert(b.stmts@.subrange(0, i as int) =~= b.stmts@);
}

fn vote_stmt<'a>(
    s: &'a TypedStmt,
    f: &String,
    votes: &mut CallVotes<'a>,
    Ghost(seen): Ghost<Seq<Seq<TypedExpr>>>,
    n: usize,
)
    requires
        old(votes).state_of(seen, n as nat),
    ensures
        final(votes).state_of(seen + calls_in_stmt(*s, f@), n as nat),
    decreases *s, 1nat,
{
    match s {
        TypedStmt::Let { value, .. } => {
            vote_expr(value, f, votes, Ghost(seen), n);
        },
        TypedStmt::Assign { value, .. } => {
            vote_expr(value, f, votes, Ghost(seen), n);
        },
        TypedStmt::Expr(value) => {
            vote_expr(value, f, votes, Ghost(seen), n);
        },
        TypedStmt::IndexAssign { index, value, .. } => {
            vote_expr(index, f, votes, Ghost(seen), n);
            let ghost mid = seen + calls_in_expr(*index, f@);
            vote_expr(value, f, votes, Ghost(mid), n);
            assert(mid + calls_in_expr(*value, f@) =~= seen + calls_in_stmt(*s, f@));
        },
        TypedStmt::Return(v, _) => match v {
            Some(value) => {
                vote_expr(value, f, votes, Ghost(seen), n);
            },
            None => {
                assert(seen + calls_in_stmt(*s, f@) =~= seen);
            },
        },
        TypedStmt::Break(_) => {
            assert(seen + calls_in_stmt(*s, f@) =~= seen);
        },
        TypedStmt::If { condition, then_branch, else_branch, .. } => {
            vote_expr(condition, f, votes, Ghost(seen), n);
            let ghost m1 = seen + calls_in_expr(*condition, f@);
            vote_block(then_branch, f, votes, Ghost(m1), n);
            let ghost m2 = m1 + calls_in_stmts(then_branch.stmts@, f@);
            match else_branch {
                Some(b) => {
                    vote_block(b, f, votes, Ghost(m2), n);
                    assert(m2 + calls_in_stmts(b.stmts@, f@) =~= seen + calls_in_stmt(*s, f@));
                },
                None => {
                    assert(m2 =~= seen + calls_in_stmt(*s, f@));
                },
            }
        },
        TypedStmt::While { condition, body, .. } => {
            vote_expr(condition, f, votes, Ghost(seen), n);
            let ghost m1 = seen + calls_in_expr(*condition, f@);
            vote_block(body, f, votes, Ghost(m1), n);
            assert(m1 + calls_in_stmts(body.stmts@, f@) =~= seen + calls_in_stmt(*s, f@));
        },
    }
}

/// The votes of all calls to `f` in the functions `fs`, over `n` positions.
fn votes_in_functions<'a>(fs: &'a Vec<TypedFunction>, f: &String, n: usize) -> (v: CallVotes<'a>)
    ensures
        v.state_of(calls_in_functions(fs@, f@), n as nat),
{
    let mut agree: Vec<bool> = Vec::new();
    let mut i: usize = 0;
    while i < n
        invariant
            i <= n,
            agree@ == votes_of(Seq::empty(), n as nat).subrange(0, i as int),
        decreases n - i,
    {
        agree.push(false);
        i += 1;
        assert(agree@ =~= votes_of(Seq::empty(), n as nat).subrange(0, i as int));
    }
    assert(agree@ =~= votes_of(Seq::empty(), n as nat));
    let mut votes = CallVotes { first: None, agree };
    let mut j: usize = 0;
    assert(fs@.subrange(0, 0) =~= Seq::<TypedFunction>::empty());
    while j < fs.len()
        invariant
            j <= fs@.len(),
            votes.state_of(calls_in_functions(fs@.subrange(0, j as int), f@), n as nat),
        decreases fs@.len() - j,
    {
        let ghost before = calls_in_functions(fs@.subrange(0, j as int), f@);
        vote_block(&fs[j].body, f, &mut votes, Ghost(before), n);
        proof {
            let pre = fs@.subrange(0, j + 1);
            assert(pre.drop_last() =~= fs@.subrange(0, j as int));
        }
        j += 1;
    }
    assert(fs@.subrange(0, j as int) =~= fs@);
    votes
}

/// The parameter bindings that the votes call for.
fn bindings_from_votes(ps: &Vec<TypedParam>, votes: &CallVotes, Ghost(calls): Ghost<Seq<Seq<TypedExpr>>>) -> (bs: Vec<
    LiteralBinding,
>)
    requires
        votes.state_of(calls, ps@.len()),
    ensures
        bs@ == param_bindings(ps@, calls),
{
    let mut bs: Vec<LiteralBinding> = Vec::new();
    let mut i: usize = 0;
    assert(ps@.subrange(0, 0) =~= Seq::<TypedParam>::empty());
    while i < ps.len()
        invariant
            i <= ps@.len(),
            votes.state_of(calls, ps@.len()),
            bs@ == param_bindings(ps@.subrange(0, i as int), calls),
        decreases ps@.len() - i,
    {
        proof {
            let pre = ps@.subrange(0, i + 1);
            assert(pre.drop_last() =~= ps@.subrange(0, i as int));
            assert(pre.last() == ps@[i as int]);
            assert(votes.agree@[i as int] == (shared_literal(calls, i as int) is Some));
        }
        if votes.agree[i] {
            match votes.first {
                Some(first) => {
                    proof {
                        assert(shared_literal(calls, i as int) == Some(first@[i as int]));
                    }
                    match &first[i] {
                        TypedExpr::Literal { lit, ty, span } => {
                            let b = LiteralBinding {
                                name: ps[i].name.clone(),
                                lit: lit.duplicate(),
                                ty: ty.duplicate(),
                                span: *span,
                            };
                            let ghost prev = bs@;
                            bs.insert(0, b);
                            assert(bs@ =~= seq![b] + prev);
                        },
                        _ => {},
                    }
                },
                None => {},
            }
        }
        i += 1;
    }
    assert(ps@.subrange(0, i as int) =~= ps@);
    bs
}

/// Whether some parameter of `f` is assigned in its body.
fn assigns_a_param(f: &TypedFunction) -> (r: bool)
    ensures
        r == params_assigned(*f),
{
    let mut i: usize = 0;
    while i < f.params.len()
        invariant
            i <= f.params@.len(),
            forall|k: int| 0 <= k < i ==> !stmts_assign(f.body.stmts@, (#[trigger] f.params@[k]).name@),
        decreases f.params@.len() - i,
    {
        if block_assigns(&f.body, &f.params[i].name) {
            return true;
        }
        i += 1;
    }
    false
}

/// The literals that replace the parameters of the `j`-th function.
fn bindings_for_function(fs: &Vec<TypedFunction>, j: usize) -> (bs: Vec<LiteralBinding>)
    requires
        j < fs@.len(),
    ensures
        bs@ == argument_bindings(fs@, j as int),
{
    let f = &fs[j];
    let mut own = CallVotes { first: None, agree: Vec::new() };
    proof {
        assert(own.agree@ =~= votes_of(Seq::empty(), 0));
    }
    vote_block(&f.body, &f.name, &mut own, Ghost(Seq::empty()), 0);
    assert(Seq::<Seq<TypedExpr>>::empty() + calls_in_stmts(f.body.stmts@, f.name@) =~= calls_in_stmts(
        f.body.stmts@,
        f.name@,
    ));
    if own.first.is_some() || assigns_a_param(f) {
        return Vec::new();
    }
    let votes = votes_in_functions(fs, &f.name, f.params.len());
    if votes.first.is_none() {
        return Vec::new();
    }
    bindings_from_votes(&f.params, &votes, Ghost(calls_in_functions(fs@, f.name@)))
}

/// Every function's body is its old body with its local literals substituted.
pub open spec fn locals_propagated(fs: Seq<TypedFunction>, gs: Seq<TypedFunction>) -> bool {
    &&& gs.len() == fs.len()
    &&& forall|j: int|
        0 <= j < fs.len() ==> {
            &&& same_but_body(fs[j], #[trigger] gs[j])
            &&& subst_stmts(
                fs[j].body.stmts@,
                local_bindings(fs[j].body.stmts@, fs[j].body.stmts@),
                gs[j].body.stmts@,
            )
        }
}

/// Every function's body is its old body with its literal arguments substituted.
pub open spec fn arguments_propagated(fs: Seq<TypedFunction>, gs: Seq<TypedFunction>) -> bool {
    &&& gs.len() == fs.len()
    &&& forall|j: int|
        0 <= j < fs.len() ==> {
            &&& same_but_body(fs[j], #[trigger] gs[j])
            &&& subst_stmts(fs[j].body.stmts@, argument_bindings(fs, j), gs[j].body.stmts@)
        }
}

/// Replaces, in every function, reads of parameters that every call fills
/// with one literal by that literal.
pub fn propagate_literal_arguments(program: &mut TypedProgram)
    ensures
        arguments_propagated(old(program).functions@, final(program).functions@),
{
    let n = program.functions.len();
    let mut all: Vec<Vec<LiteralBinding>> = Vec::new();
    let mut k: usize = 0;
    while k < n
        invariant
            n == program.functions@.len(),
            k <= n,
            all@.len() == k,
            forall|j: int| 0 <= j < k ==> (#[trigger] all@[j])@ == argument_bindings(program.functions@, j),
        decreases n - k,
    {
        let bs = bindings_for_function(&program.functions, k);
        all.push(bs);
        k += 1;
    }
    let ghost orig = program.functions@;
    let mut taken = TypedProgram { functions: Vec::new() };
    core::mem::swap(program, &mut taken);
    let mut fs = taken.functions;
    let mut out: Vec<TypedFunction> = Vec::new();
    while fs.len() > 0
        invariant
            n == orig.len(),
            orig == old(program).functions@,
            all@.len() == n,
            forall|j: int| 0 <= j < n ==> (#[trigger] all@[j])@ == argument_bindings(orig, j),
            out@.len() + fs@.len() == n,
            fs@ == orig.subrange(out@.len() as int, n as int),
            forall|j: int|
                0 <= j < out@.len() ==> {
                    &&& same_but_body(orig[j], #[trigger] out@[j])
                    &&& subst_stmts(orig[j].body.stmts@, argument_bindings(orig, j), out@[j].body.stmts@)
                },
        decreases fs@.len(),
    {
        let j = out.len();
        let f = fs.remove(0);
        assert(f == orig[j as int]);
        let TypedFunction { name, params, return_ty, body, span } = f;
        let body2 = subst_in_block(body, &all[j]);
        out.push(TypedFunction { name, params, return_ty, body: body2, span });
        assert(fs@ =~= orig.subrange(out@.len() as int, n as int));
    }
    *program = TypedProgram { functions: out };
}

/// Replaces reads of immutable local literals in every function, then reads
/// of parameters that every call (in the program so rewritten) fills with one
/// literal.
pub fn optimize_program(program: &mut TypedProgram)
    ensures
        exists|mid: Seq<TypedFunction>|
            locals_propagated(old(program).functions@, mid) && arguments_propagated(
                mid,
                final(program).functions@,
            ),
{
    let ghost orig = program.functions@;
    let mut taken = TypedProgram { functions: Vec::new() };
    core::mem::swap(program, &mut taken);
    let mut fs = taken.functions;
    let n = fs.len();
    let mut out: Vec<TypedFunction> = Vec::new();
    while fs.len() > 0
        invariant
            n == orig.len(),
            orig == old(program).functions@,
            out@.len() + fs@.len() == n,
            fs@ == orig.subrange(out@.len() as int, n as int),
            forall|j: int|
                0 <= j < out@.len() ==> {
                    &&& same_but_body(orig[j], #[trigger] out@[j])
                    &&& subst_stmts(
                        orig[j].body.stmts@,
                        local_bindings(orig[j].body.stmts@, orig[j].body.stmts@),
                        out@[j].body.stmts@,
                    )
                },
        decreases fs@.len(),
    {
        let j = out.len();
        let f = fs.remove(0);
        assert(f == orig[j as int]);
        let g = propagate_local_literals(f);
        out.push(g);
        assert(fs@ =~= orig.subrange(out@.len() as int, n as int));
    }
    let ghost mid = out@;
    assert(locals_propagated(orig, mid));
    *program = TypedProgram { functions: out };
    propagate_literal_arguments(program);
}

} // verus!
