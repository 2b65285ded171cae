use vstd::prelude::*;
use crate::ast::{BinaryOp, UnaryOp};
use crate::span::Span;
use crate::typecheck::types::Type;

verus! {

#[derive(Debug, PartialEq)]
pub enum TypedLiteral {
    Int(i64, Type),
    /// A decimal literal, kept as its source text.
    Float(String, Type),
    Bool(bool),
}

impl TypedLiteral {
    /// A copy of the literal.
    pub fn duplicate(&self) -> (r: TypedLiteral)
        ensures
            r == *self,
    {
        match self {
            TypedLiteral::Int(n, t) => TypedLiteral::Int(*n, t.duplicate()),
            TypedLiteral::Float(s, t) => TypedLiteral::Float(s.clone(), t.duplicate()),
            TypedLiteral::Bool(b) => TypedLiteral::Bool(*b),
        }
    }
}

#[derive(Debug, PartialEq)]
pub enum TypedExpr {
    Literal { lit: TypedLiteral, ty: Type, span: Span },
    Ident { name: String, ty: Type, span: Span },
    Unary { op: UnaryOp, expr: Box<TypedExpr>, ty: Type, span: Span },
    Binary { op: BinaryOp, left: Box<TypedExpr>, right: Box<TypedExpr>, ty: Type, span: Span },
    Call { callee: String, args: Vec<TypedExpr>, ty: Type, span: Span },
    ArrayLiteral { elements: Vec<TypedExpr>, ty: Type, span: Span },
    Index {
        target: Box<TypedExpr>,
        index: Box<TypedExpr>,
        is_safe: bool,
        ty: Type,
        span: Span,
    },
}

impl TypedExpr {
    pub open spec fn spec_ty(&self) -> Type {
        match self {
            TypedExpr::Literal { ty, .. } => *ty,
            TypedExpr::Ident { ty, .. } => *ty,
            TypedExpr::Unary { ty, .. } => *ty,
            TypedExpr::Binary { ty, .. } => *ty,
            TypedExpr::Call { ty, .. } => *ty,
            TypedExpr::ArrayLiteral { ty, .. } => *ty,
            TypedExpr::Index { ty, .. } => *ty,
        }
    }

    pub open spec fn spec_span(&self) -> Span {
        match self {
            TypedExpr::Literal { span, .. } => *span,
            TypedExpr::Ident { span, .. } => *span,
            TypedExpr::Unary { span, .. } => *span,
            TypedExpr::Binary { span, .. } => *span,
            TypedExpr::Call { span, .. } => *span,
            TypedExpr::ArrayLiteral { span, .. } => *span,
            TypedExpr::Index { span, .. } => *span,
        }
    }

    /// The type of the expression.
    pub fn ty(&self) -> (t: Type)
        ensures
            t == self.spec_ty(),
    {
        match self {
            TypedExpr::Literal { ty, .. } => ty.duplicate(),
            TypedExpr::Ident { ty, .. } => ty.duplicate(),
            TypedExpr::Unary { ty, .. } => ty.duplicate(),
            TypedExpr::Binary { ty, .. } => ty.duplicate(),
            TypedExpr::Call { ty, .. } => ty.duplicate(),
            TypedExpr::ArrayLiteral { ty, .. } => ty.duplicate(),
            TypedExpr::Index { ty, .. } => ty.duplicate(),
        }
    }

    /// The source span of the expression.
    pub fn span(&self) -> (s: Span)
        ensures
            s == self.spec_span(),
    {
        match self {
            TypedExpr::Literal { span, .. } => *span,
            TypedExpr::Ident { span, .. } => *span,
            TypedExpr::Unary { span, .. } => *span,
            TypedExpr::Binary { span, .. } => *span,
            TypedExpr::Call { span, .. } => *span,
            TypedExpr::ArrayLiteral { span, .. } => *span,
            TypedExpr::Index { span, .. } => *span,
        }
    }
}

#[derive(Debug, PartialEq)]
pub enum TypedStmt {
    Let { name: String, is_mutable: bool, ty: Type, value: TypedExpr, span: Span },
    Assign { name: String, value: TypedExpr, span: Span },
    IndexAssign {
        target: String,
        index: TypedExpr,
        value: TypedExpr,
        is_safe: bool,
        span: Span,
    },
    Return(Option<TypedExpr>, Span),
    Break(Span),
    Expr(TypedExpr),
    If {
        condition: TypedExpr,
        then_branch: TypedBlock,
        else_branch: Option<TypedBlock>,
        span: Span,
    },
    While { condition: TypedExpr, body: TypedBlock, span: Span },
}

impl TypedStmt {
    pub open spec fn spec_span(&self) -> Span {
        match self {
            TypedStmt::Let { span, .. } => *span,
            TypedStmt::Assign { span, .. } => *span,
            TypedStmt::IndexAssign { span, .. } => *span,
            TypedStmt::Return(_, span) => *span,
            TypedStmt::Break(span) => *span,
            TypedStmt::Expr(e) => e.spec_span(),
            TypedStmt::If { span, .. } => *span,
            TypedStmt::While { span, .. } => *span,
        }
    }

    /// The source span of the statement.
    pub fn span(&self) -> (s: Span)
        ensures
            s == self.spec_span(),
    {
        match self {
            TypedStmt::Let { span, .. } => *span,
            TypedStmt::Assign { span, .. } => *span,
            TypedStmt::IndexAssign { span, .. } => *span,
            TypedStmt::Return(_, span) => *span,
            TypedStmt::Break(span) => *span,
            TypedStmt::Expr(e) => e.span(),
            TypedStmt::If { span, .. } => *span,
            TypedStmt::While { span, .. } => *span,
        }
    }
}

#[derive(Debug, PartialEq)]
pub struct TypedBlock {
    pub stmts: Vec<TypedStmt>,
    pub span: Span,
}

#[derive(Debug, PartialEq)]
pub struct TypedParam {
    pub name: String,
    pub ty: Type,
    pub span: Span,
}

#[derive(Debug, PartialEq)]
pub struct TypedFunction {
    pub name: String,
    pub params: Vec<TypedParam>,
    pub return_ty: Type,
    pub body: TypedBlock,
    pub span: Span,
}

#[derive(Debug, PartialEq)]
pub struct TypedProgram {
    pub functions: Vec<TypedFunction>,
}

} // verus!
