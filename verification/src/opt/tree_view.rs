//! The typed syntax tree as a value: names as character sequences and
//! lists as sequences, so that two trees are equal exactly when they hold
//! the same nodes.

use vstd::prelude::*;
use crate::ast::{BinaryOp, UnaryOp};
use crate::opt::array_opt::{copy_expr, same_tree, same_trees};
use crate::span::Span;
use crate::typecheck::typed_ast::{TypedBlock, TypedExpr, TypedFunction, TypedLiteral, TypedParam, TypedStmt};
use crate::typecheck::types::Type;

verus! {

// ---------------------------------------------------------------------------
// The typed syntax tree as a value
// ---------------------------------------------------------------------------

/// A literal, with its text as a character sequence.
pub enum LitV {
    Int(i64, Type),
    Float(Seq<char>, Type),
    Bool(bool),
}

/// An expression, with names as character sequences and operands as
/// sequences.
pub enum ExprV {
    Literal { lit: LitV, ty: Type, span: Span },
    Ident { name: Seq<char>, ty: Type, span: Span },
    Unary { op: UnaryOp, expr: Box<ExprV>, ty: Type, span: Span },
    Binary { op: BinaryOp, left: Box<ExprV>, right: Box<ExprV>, ty: Type, span: Span },
    Call { callee: Seq<char>, args: Seq<ExprV>, ty: Type, span: Span },
    ArrayLiteral { elements: Seq<ExprV>, ty: Type, span: Span },
    Index { target: Box<ExprV>, index: Box<ExprV>, is_safe: bool, ty: Type, span: Span },
}

/// A block of statements.
pub struct BlockV {
    pub stmts: Seq<StmtV>,
    pub span: Span,
}

/// A statement.
pub enum StmtV {
    Let { name: Seq<char>, is_mutable: bool, ty: Type, value: ExprV, span: Span },
    Assign { name: Seq<char>, value: ExprV, span: Span },
    IndexAssign { target: Seq<char>, index: ExprV, value: ExprV, is_safe: bool, span: Span },
    Return(Option<ExprV>, Span),
    Break(Span),
    Expr(ExprV),
    If { condition: ExprV, then_branch: BlockV, else_branch: Option<BlockV>, span: Span },
    While { condition: ExprV, body: BlockV, span: Span },
}

pub open spec fn lit_view(l: TypedLiteral) -> LitV {
    match l {
        TypedLiteral::Int(v, t) => LitV::Int(v, t),
        TypedLiteral::Float(s, t) => LitV::Float(s@, t),
        TypedLiteral::Bool(b) => LitV::Bool(b),
    }
}

/// The expression as a value.
pub open spec fn expr_view(e: TypedExpr) -> ExprV
    decreases e, 1nat,
{
    match e {
        TypedExpr::Literal { lit, ty, span } => ExprV::Literal { lit: lit_view(lit), ty, span },
        TypedExpr::Ident { name, ty, span } => ExprV::Ident { name: name@, ty, span },
        TypedExpr::Unary { op, expr, ty, span } => ExprV::Unary { op, expr: Box::new(expr_view(*expr)), ty, span },
        TypedExpr::Binary { op, left, right, ty, span } => ExprV::Binary {
            op,
            left: Box::new(expr_view(*left)),
            right: Box::new(expr_view(*right)),
            ty,
            span,
        },
        TypedExpr::Call { callee, args, ty, span } => ExprV::Call {
            callee: callee@,
            args: exprs_view(args@),
            ty,
            span,
        },
        TypedExpr::ArrayLiteral { elements, ty, span } => ExprV::ArrayLiteral {
            elements: exprs_view(elements@),
            ty,
            span,
        },
        TypedExpr::Index { target, index, is_safe, ty, span } => ExprV::Index {
            target: Box::new(expr_view(*target)),
            index: Box::new(expr_view(*index)),
            is_safe,
            ty,
            span,
        },
    }
}

pub open spec fn exprs_view(es: Seq<TypedExpr>) -> Seq<ExprV>
    decreases es, 0nat,
{
    if es.len() == 0 {
        Seq::empty()
    } else {
        exprs_view(es.drop_last()).push(expr_view(es.last()))
    }
}

/// The statement as a value.
pub open spec fn stmt_view(s: TypedStmt) -> StmtV
    decreases s, 0nat,
{
    match s {
        TypedStmt::Let { name, is_mutable, ty, value, span } => StmtV::Let {
            name: name@,
            is_mutable,
            ty,
            value: expr_view(value),
            span,
        },
        TypedStmt::Assign { name, value, span } => StmtV::Assign { name: name@, value: expr_view(value), span },
        TypedStmt::IndexAssign { target, index, value, is_safe, span } => StmtV::IndexAssign {
            target: target@,
            index: expr_view(index),
            value: expr_view(value),
            is_safe,
            span,
        },
        TypedStmt::Return(v, span) => StmtV::Return(
            match v {
                Some(e) => Some(expr_view(e)),
                None => None,
            },
            span,
        ),
        TypedStmt::Break(span) => StmtV::Break(span),
        TypedStmt::Expr(e) => StmtV::Expr(expr_view(e)),
        TypedStmt::If { condition, then_branch, else_branch, span } => StmtV::If {
            condition: expr_view(condition),
            then_branch: BlockV { stmts: stmts_view(then_branch.stmts@), span: then_branch.span },
            else_branch: match else_branch {
                Some(b) => Some(BlockV { stmts: stmts_view(b.stmts@), span: b.span }),
                None => None,
            },
            span,
        },
        TypedStmt::While { condition, body, span } => StmtV::While {
            condition: expr_view(condition),
            body: BlockV { stmts: stmts_view(body.stmts@), span: body.span },
            span,
        },
    }
}

pub open spec fn stmts_view(ss: Seq<TypedStmt>) -> Seq<StmtV>
    decreases ss, 1nat,
{
    if ss.len() == 0 {
        Seq::empty()
    } else {
        stmts_view(ss.drop_last()).push(stmt_view(ss.last()))
    }
}

/// A copy has the value of what it copies.
pub proof fn lemma_same_tree_view(a: TypedExpr, b: TypedExpr)
    requires
        same_tree(a, b),
    ensures
        expr_view(a) == expr_view(b),
    decreases a, 1nat,
{
    match a {
        TypedExpr::Unary { expr, .. } => match b {
            TypedExpr::Unary { expr: e2, .. } => lemma_same_tree_view(*expr, *e2),
            _ => {},
        },
        TypedExpr::Binary { left, right, .. } => match b {
            TypedExpr::Binary { left: l2, right: r2, .. } => {
                lemma_same_tree_view(*left, *l2);
                lemma_same_tree_view(*right, *r2);
            },
            _ => {},
        },
        TypedExpr::Call { args, .. } => match b {
            TypedExpr::Call { args: a2, .. } => lemma_same_trees_view(args@, a2@),
            _ => {},
        },
        TypedExpr::ArrayLiteral { elements, .. } => match b {
            TypedExpr::ArrayLiteral { elements: e2, .. } => lemma_same_trees_view(elements@, e2@),
            _ => {},
        },
        TypedExpr::Index { target, index, .. } => match b {
            TypedExpr::Index { target: t2, index: i2, .. } => {
                lemma_same_tree_view(*target, *t2);
                lemma_same_tree_view(*index, *i2);
            },
            _ => {},
        },
        _ => {},
    }
}

pub proof fn lemma_same_trees_view(a: Seq<TypedExpr>, b: Seq<TypedExpr>)
    requires
        same_trees(a, b),
    ensures
        exprs_view(a) == exprs_view(b),
    decreases a, 0nat,
{
    if a.len() > 0 {
        assert(same_trees(a.drop_last(), b.drop_last()));
        lemma_same_trees_view(a.drop_last(), b.drop_last());
        lemma_same_tree_view(a.last(), b.last());
    }
}

/// A parameter.
pub struct ParamV {
    pub name: Seq<char>,
    pub ty: Type,
    pub span: Span,
}

/// A function.
pub struct FunctionV {
    pub name: Seq<char>,
    pub params: Seq<ParamV>,
    pub return_ty: Type,
    pub body: BlockV,
    pub span: Span,
}

pub open spec fn param_view(p: TypedParam) -> ParamV {
    ParamV { name: p.name@, ty: p.ty, span: p.span }
}

pub open spec fn block_view(b: TypedBlock) -> BlockV {
    BlockV { stmts: stmts_view(b.stmts@), span: b.span }
}

/// The function as a value.
pub open spec fn function_view(f: TypedFunction) -> FunctionV {
    FunctionV {
        name: f.name@,
        params: f.params@.map_values(|p: TypedParam| param_view(p)),
        return_ty: f.return_ty,
        body: block_view(f.body),
        span: f.span,
    }
}

pub open spec fn functions_view(fs: Seq<TypedFunction>) -> Seq<FunctionV> {
    fs.map_values(|f: TypedFunction| function_view(f))
}

/// A copy of the block.
pub fn copy_block(b: &TypedBlock) -> (r: TypedBlock)
    ensures
        block_view(r) == block_view(*b),
    decreases *b, 1nat,
{
    let ss = &b.stmts;
    let mut out: Vec<TypedStmt> = Vec::new();
    let mut i: usize = 0;
    assert(ss@.subrange(0, 0) =~= Seq::<TypedStmt>::empty());
    while i < ss.len()
        invariant
            ss == &b.stmts,
            i <= ss@.len(),
            stmts_view(out@) == stmts_view(ss@.subrange(0, i as int)),
        decreases ss@.len() - i,
    {
        proof {
            assert(decreases_to!(*b => b.stmts));
            assert(decreases_to!(b.stmts => b.stmts@));
            assert(decreases_to!(b.stmts@ => b.stmts@[i as int]));
        }
        let r = copy_stmt(&ss[i]);
        let ghost out0 = out@;
        out.push(r);
        proof {
            assert(out@.drop_last() =~= out0);
            let next = ss@.subrange(0, i + 1);
            assert(next.drop_last() =~= ss@.subrange(0, i as int));
            assert(next.last() == ss@[i as int]);
        }
        i += 1;
    }
    assert(ss@.subrange(0, ss@.len() as int) =~= ss@);
    TypedBlock { stmts: out, span: b.span }
}

pub fn copy_expr_view(e: &TypedExpr) -> (r: TypedExpr)
    ensures
        expr_view(r) == expr_view(*e),
{
    let r = copy_expr(e);
    proof {
        lemma_same_tree_view(*e, r);
    }
    r
}

/// A copy of the statement.
pub fn copy_stmt(s: &TypedStmt) -> (r: TypedStmt)
    ensures
        stmt_view(r) == stmt_view(*s),
    decreases *s, 0nat,
{
    match s {
        TypedStmt::Let { name, is_mutable, ty, value, span } => TypedStmt::Let {
            name: name.clone(),
            is_mutable: *is_mutable,
            ty: ty.duplicate(),
            value: copy_expr_view(value),
            span: *span,
        },
        TypedStmt::Assign { name, value, span } => TypedStmt::Assign {
            name: name.clone(),
            value: copy_expr_view(value),
            span: *span,
        },
        TypedStmt::IndexAssign { target, index, value, is_safe, span } => TypedStmt::IndexAssign {
            target: target.clone(),
            index: copy_expr_view(index),
            value: copy_expr_view(value),
            is_safe: *is_safe,
            span: *span,
        },
        TypedStmt::Return(v, span) => TypedStmt::Return(
            match v {
                Some(e) => Some(copy_expr_view(e)),
                None => None,
            },
            *span,
        ),
        TypedStmt::Break(span) => TypedStmt::Break(*span),
        TypedStmt::Expr(e) => TypedStmt::Expr(copy_expr_view(e)),
        TypedStmt::If { condition, then_branch, else_branch, span } => {
            let t = copy_block(then_branch);
            let e = match else_branch {
                Some(b) => Some(copy_block(b)),
                None => None,
            };
            TypedStmt::If { condition: copy_expr_view(condition), then_branch: t, else_branch: e, span: *span }
        },
        TypedStmt::While { condition, body, span } => TypedStmt::While {
            condition: copy_expr_view(condition),
            body: copy_block(body),
            span: *span,
        },
    }
}

/// A copy of the function.
pub fn copy_function(f: &TypedFunction) -> (r: TypedFunction)
    ensures
        function_view(r) == function_view(*f),
{
    let mut params: Vec<TypedParam> = Vec::new();
    let mut i: usize = 0;
    while i < f.params.len()
        invariant
            i <= f.params@.len(),
            params@.len() == i,
            forall|k: int| 0 <= k < i ==> param_view(#[trigger] params@[k]) == param_view(f.params@[k]),
        decreases f.params@.len() - i,
    {
        let p = &f.params[i];
        params.push(TypedParam { name: p.name.clone(), ty: p.ty.duplicate(), span: p.span });
        i += 1;
    }
    let r = TypedFunction {
        name: f.name.clone(),
        params,
        return_ty: f.return_ty.duplicate(),
        body: copy_block(&f.body),
        span: f.span,
    };
    assert(r.params@.map_values(|p: TypedParam| param_view(p)) =~= f.params@.map_values(
        |p: TypedParam| param_view(p),
    ));
    r
}

/// A copy of the functions.
pub fn copy_functions(fs: &Vec<TypedFunction>) -> (r: Vec<TypedFunction>)
    ensures
        r@.len() == fs@.len(),
        functions_view(r@) == functions_view(fs@),
{
    let mut out: Vec<TypedFunction> = Vec::new();
    let mut i: usize = 0;
    while i < fs.len()
        invariant
            i <= fs@.len(),
            out@.len() == i,
            forall|k: int| 0 <= k < i ==> function_view(#[trigger] out@[k]) == function_view(fs@[k]),
        decreases fs@.len() - i,
    {
        out.push(copy_function(&fs[i]));
        i += 1;
    }
    assert(functions_view(out@) =~= functions_view(fs@));
    out
}

} // verus!
