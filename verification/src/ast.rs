use vstd::prelude::*;
use crate::span::Span;

verus! {

#[derive(Debug, Clone, PartialEq)]
pub enum Literal {
    Int(i64),
    /// A decimal literal, kept as its source text.
    Float(String),
    Bool(bool),
}

#[derive(Debug, Clone, Copy, PartialEq, Eq, Structural)]
pub enum UnaryOp {
    Neg,
    Not,
}

#[derive(Debug, Clone, Copy, PartialEq, Eq, Structural)]
pub enum BinaryOp {
    Add,
    Sub,
    Mul,
    Div,
    Mod,
    Pow,
    Eq,
    Ne,
    Lt,
    Le,
    Gt,
    Ge,
    BitAnd,
    BitOr,
    BitXor,
    Shl,
    Shr,
}

#[derive(Debug, PartialEq)]
pub enum Expr {
    Literal(Literal, Span),
    Ident(String, Span),
    Group(Box<Expr>, Span),
    Unary { op: UnaryOp, expr: Box<Expr>, span: Span },
    Binary { op: BinaryOp, left: Box<Expr>, right: Box<Expr>, span: Span },
    Call { callee: String, args: Vec<Expr>, span: Span },
    ArrayLiteral { elements: Vec<Expr>, span: Span },
    Index { target: Box<Expr>, index: Box<Expr>, span: Span },
}

impl Expr {
    pub open spec fn spec_span(&self) -> Span {
        match self {
            Expr::Literal(_, s) => *s,
            Expr::Ident(_, s) => *s,
            Expr::Group(_, s) => *s,
            Expr::Unary { span, .. } => *span,
            Expr::Binary { span, .. } => *span,
            Expr::Call { span, .. } => *span,
            Expr::ArrayLiteral { span, .. } => *span,
            Expr::Index { span, .. } => *span,
        }
    }

    /// The source span of the expression.
    #[verifier::when_used_as_spec(spec_span)]
    pub fn span(&self) -> (s: Span)
        ensures
            s == self.spec_span(),
    {
        match self {
            Expr::Literal(_, s) => *s,
            Expr::Ident(_, s) => *s,
            Expr::Group(_, s) => *s,
            Expr::Unary { span, .. } => *span,
            Expr::Binary { span, .. } => *span,
            Expr::Call { span, .. } => *span,
            Expr::ArrayLiteral { span, .. } => *span,
            Expr::Index { span, .. } => *span,
        }
    }
}

#[derive(Debug, PartialEq)]
pub enum Stmt {
    Let { name: String, is_mutable: bool, ty: Option<String>, value: Expr, span: Span },
    Assign { name: String, value: Expr, span: Span },
    IndexAssign { target: String, index: Expr, value: Expr, span: Span },
    Return(Option<Expr>, Span),
    Break(Span),
    Expr(Expr),
    If { condition: Expr, then_branch: Block, else_branch: Option<Block>, span: Span },
    While { condition: Expr, body: Block, span: Span },
}

#[derive(Debug, PartialEq)]
pub struct Block {
    pub stmts: Vec<Stmt>,
    pub span: Span,
}

#[derive(Debug, Clone, PartialEq)]
pub struct Param {
    pub name: String,
    pub ty: String,
    pub span: Span,
}

#[derive(Debug, PartialEq)]
pub struct Function {
    pub name: String,
    pub params: Vec<Param>,
    pub return_ty: Option<String>,
    pub body: Block,
    pub span: Span,
}

#[derive(Debug, PartialEq)]
pub struct Program {
    pub functions: Vec<Function>,
}

} // verus!
