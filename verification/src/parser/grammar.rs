//! What the parser makes of a token sequence, stated as functions from a
//! position in the tokens to the tree read there and the position after it,
//! or to the failure met on the way.
//!
//! The trees are stated over views that hold sequences where the syntax
//! tree holds vectors and character sequences where it holds strings.

use vstd::prelude::*;
use crate::ast::{BinaryOp, Block, Expr, Function, Literal, Param, Stmt, UnaryOp};
use crate::parser::ParseError;
use crate::parser::expr::{binop_of, left_bp, right_bp};
use crate::span::{Span, merged};
use crate::text::int_text;
use crate::token::{SpannedToken, Token};

verus! {

/// An expression tree.
pub enum ExprV {
    Lit(Literal, Span),
    Ident(Seq<char>, Span),
    Group(Box<ExprV>, Span),
    Unary { op: UnaryOp, expr: Box<ExprV>, span: Span },
    Binary { op: BinaryOp, left: Box<ExprV>, right: Box<ExprV>, span: Span },
    Call { callee: Seq<char>, args: Seq<ExprV>, span: Span },
    Array { elements: Seq<ExprV>, span: Span },
    Index { target: Box<ExprV>, index: Box<ExprV>, span: Span },
}

/// A statement tree.
pub enum StmtV {
    Let { name: Seq<char>, is_mutable: bool, ty: Option<Seq<char>>, value: ExprV, span: Span },
    Assign { name: Seq<char>, value: ExprV, span: Span },
    IndexAssign { target: Seq<char>, index: ExprV, value: ExprV, span: Span },
    Return(Option<ExprV>, Span),
    Break(Span),
    Expr(ExprV),
    If { condition: ExprV, then_branch: BlockV, else_branch: Option<BlockV>, span: Span },
    While { condition: ExprV, body: BlockV, span: Span },
}

pub struct BlockV {
    pub stmts: Seq<StmtV>,
    pub span: Span,
}

pub struct ParamV {
    pub name: Seq<char>,
    pub ty: Seq<char>,
    pub span: Span,
}

pub struct FunctionV {
    pub name: Seq<char>,
    pub params: Seq<ParamV>,
    pub return_ty: Option<Seq<char>>,
    pub body: BlockV,
    pub span: Span,
}

/// Why parsing stopped: the tokens ran out where something was expected, a
/// token other than the expected one stood there, or a token cannot begin
/// an expression.
pub enum ParseFailure {
    Eof { expected: Seq<char>, span: Span },
    Unexpected { found: Token, expected: Seq<char>, span: Span },
    Prefix { found: Token, span: Span },
}

pub open spec fn failure_of(e: ParseError) -> ParseFailure {
    match e {
        ParseError::UnexpectedEof { expected, span } => ParseFailure::Eof { expected: expected@, span },
        ParseError::UnexpectedToken { found, expected, span } => ParseFailure::Unexpected {
            found,
            expected: expected@,
            span,
        },
        ParseError::InvalidPrefix { found, span } => ParseFailure::Prefix { found, span },
    }
}

// ---------------------------------------------------------------------------
// Views of the syntax tree
// ---------------------------------------------------------------------------

pub open spec fn expr_v(e: Expr) -> ExprV
    decreases e, 1nat,
{
    match e {
        Expr::Literal(l, s) => ExprV::Lit(l, s),
        Expr::Ident(n, s) => ExprV::Ident(n@, s),
        Expr::Group(inner, s) => ExprV::Group(Box::new(expr_v(*inner)), s),
        Expr::Unary { op, expr, span } => ExprV::Unary { op, expr: Box::new(expr_v(*expr)), span },
        Expr::Binary { op, left, right, span } => ExprV::Binary {
            op,
            left: Box::new(expr_v(*left)),
            right: Box::new(expr_v(*right)),
            span,
        },
        Expr::Call { callee, args, span } => ExprV::Call { callee: callee@, args: exprs_v(args@), span },
        Expr::ArrayLiteral { elements, span } => ExprV::Array { elements: exprs_v(elements@), span },
        Expr::Index { target, index, span } => ExprV::Index {
            target: Box::new(expr_v(*target)),
            index: Box::new(expr_v(*index)),
            span,
        },
    }
}

pub open spec fn exprs_v(es: Seq<Expr>) -> Seq<ExprV>
    decreases es, 0nat,
{
    if es.len() == 0 {
        Seq::empty()
    } else {
        exprs_v(es.subrange(0, es.len() - 1)).push(expr_v(es[es.len() - 1]))
    }
}

pub open spec fn opt_expr_v(e: Option<Expr>) -> Option<ExprV> {
    match e {
        Some(x) => Some(expr_v(x)),
        None => None,
    }
}

pub open spec fn opt_text(s: Option<String>) -> Option<Seq<char>> {
    match s {
        Some(x) => Some(x@),
        None => None,
    }
}

pub open spec fn stmt_v(s: Stmt) -> StmtV
    decreases s, 1nat,
{
    match s {
        Stmt::Let { name, is_mutable, ty, value, span } => StmtV::Let {
            name: name@,
            is_mutable,
            ty: opt_text(ty),
            value: expr_v(value),
            span,
        },
        Stmt::Assign { name, value, span } => StmtV::Assign { name: name@, value: expr_v(value), span },
        Stmt::IndexAssign { target, index, value, span } => StmtV::IndexAssign {
            target: target@,
            index: expr_v(index),
            value: expr_v(value),
            span,
        },
        Stmt::Return(v, span) => StmtV::Return(opt_expr_v(v), span),
        Stmt::Break(span) => StmtV::Break(span),
        Stmt::Expr(e) => StmtV::Expr(expr_v(e)),
        Stmt::If { condition, then_branch, else_branch, span } => StmtV::If {
            condition: expr_v(condition),
            then_branch: BlockV { stmts: stmts_v(then_branch.stmts@), span: then_branch.span },
            else_branch: match else_branch {
                Some(b) => Some(BlockV { stmts: stmts_v(b.stmts@), span: b.span }),
                None => None,
            },
            span,
        },
        Stmt::While { condition, body, span } => StmtV::While {
            condition: expr_v(condition),
            body: BlockV { stmts: stmts_v(body.stmts@), span: body.span },
            span,
        },
    }
}

pub open spec fn stmts_v(ss: Seq<Stmt>) -> Seq<StmtV>
    decreases ss, 0nat,
{
    if ss.len() == 0 {
        Seq::empty()
    } else {
        stmts_v(ss.subrange(0, ss.len() - 1)).push(stmt_v(ss[ss.len() - 1]))
    }
}

pub open spec fn block_v(b: Block) -> BlockV {
    BlockV { stmts: stmts_v(b.stmts@), span: b.span }
}

pub open spec fn param_v(p: Param) -> ParamV {
    ParamV { name: p.name@, ty: p.ty@, span: p.span }
}

pub open spec fn params_v(ps: Seq<Param>) -> Seq<ParamV> {
    ps.map_values(|p: Param| param_v(p))
}

pub open spec fn function_v(f: Function) -> FunctionV {
    FunctionV {
        name: f.name@,
        params: params_v(f.params@),
        return_ty: opt_text(f.return_ty),
        body: block_v(f.body),
        span: f.span,
    }
}

pub open spec fn functions_v(fs: Seq<Function>) -> Seq<FunctionV> {
    fs.map_values(|f: Function| function_v(f))
}

pub open spec fn span_of(e: ExprV) -> Span {
    match e {
        ExprV::Lit(_, s) => s,
        ExprV::Ident(_, s) => s,
        ExprV::Group(_, s) => s,
        ExprV::Unary { span, .. } => span,
        ExprV::Binary { span, .. } => span,
        ExprV::Call { span, .. } => span,
        ExprV::Array { span, .. } => span,
        ExprV::Index { span, .. } => span,
    }
}

pub proof fn lemma_span_of_view(e: Expr)
    ensures
        span_of(expr_v(e)) == e.spec_span(),
{
}

pub proof fn lemma_exprs_v_push(es: Seq<Expr>, e: Expr)
    ensures
        exprs_v(es.push(e)) == exprs_v(es).push(expr_v(e)),
{
    assert(es.push(e).subrange(0, es.len() as int) =~= es);
}

pub proof fn lemma_stmts_v_push(ss: Seq<Stmt>, s: Stmt)
    ensures
        stmts_v(ss.push(s)) == stmts_v(ss).push(stmt_v(s)),
{
    assert(ss.push(s).subrange(0, ss.len() as int) =~= ss);
}

// ---------------------------------------------------------------------------
// Token positions
// ---------------------------------------------------------------------------

/// The token at `c` is `t`.
pub open spec fn at(ts: Seq<SpannedToken>, c: int, t: Token) -> bool {
    0 <= c < ts.len() && ts[c].token == t
}

/// The span of the token before `c`; an empty span at the start.
pub open spec fn prev_span(ts: Seq<SpannedToken>, c: int) -> Span {
    if 0 < c <= ts.len() {
        ts[c - 1].span
    } else {
        Span { start: 0, end: 0 }
    }
}

/// The tokens remaining from `c`.
pub open spec fn rest(ts: Seq<SpannedToken>, c: int) -> nat {
    if c < ts.len() {
        (ts.len() - c) as nat
    } else {
        0
    }
}

/// Reading the token `t` at `c`: its span, or what stood there instead.
pub open spec fn expect_token(ts: Seq<SpannedToken>, c: int, t: Token, expected: Seq<char>) -> Result<
    (Span, int),
    ParseFailure,
> {
    if at(ts, c, t) {
        Ok((ts[c].span, c + 1))
    } else if 0 <= c < ts.len() {
        Err(ParseFailure::Unexpected { found: ts[c].token, expected, span: ts[c].span })
    } else {
        Err(ParseFailure::Eof { expected, span: prev_span(ts, c) })
    }
}

/// Reading a name at `c`; `eof_span` is reported when the tokens ran out.
pub open spec fn expect_name(ts: Seq<SpannedToken>, c: int, expected: Seq<char>, eof_span: Span) -> Result<
    (Seq<char>, int),
    ParseFailure,
> {
    if !(0 <= c < ts.len()) {
        Err(ParseFailure::Eof { expected, span: eof_span })
    } else {
        match ts[c].token {
            Token::Ident(id) => Ok((id@, c + 1)),
            other => Err(ParseFailure::Unexpected { found: other, expected, span: ts[c].span }),
        }
    }
}

// ---------------------------------------------------------------------------
// Expressions
// ---------------------------------------------------------------------------

/// An expression at `c` whose binary operators bind at least as tightly as `min_bp`.
pub open spec fn read_expr(ts: Seq<SpannedToken>, c: int, min_bp: u8) -> Result<(ExprV, int), ParseFailure>
    decreases rest(ts, c), 3nat,
{
    match read_prefix(ts, c) {
        Err(e) => Err(e),
        Ok((lhs, c1)) => if c < c1 && c < ts.len() {
            read_infix(ts, lhs, c1, min_bp)
        } else {
            Ok((lhs, c1))
        },
    }
}

/// The postfix indexes and binary operators that follow `lhs` at `c`.
pub open spec fn read_infix(ts: Seq<SpannedToken>, lhs: ExprV, c: int, min_bp: u8) -> Result<
    (ExprV, int),
    ParseFailure,
>
    decreases rest(ts, c), 4nat,
{
    if at(ts, c, Token::LBracket) {
        if min_bp > 20 {
            Ok((lhs, c))
        } else {
            match read_expr(ts, c + 1, 0) {
                Err(e) => Err(e),
                Ok((index, c2)) => match expect_token(ts, c2, Token::RBracket, "']' after array index"@) {
                    Err(e) => Err(e),
                    Ok((end, c3)) => {
                        let e = ExprV::Index {
                            target: Box::new(lhs),
                            index: Box::new(index),
                            span: merged(span_of(lhs), end),
                        };
                        if c < c3 {
                            read_infix(ts, e, c3, min_bp)
                        } else {
                            Ok((e, c3))
                        }
                    },
                },
            }
        }
    } else if 0 <= c < ts.len() && binop_of(ts[c].token) is Some {
        let op = binop_of(ts[c].token).unwrap();
        if left_bp(op) < min_bp {
            Ok((lhs, c))
        } else {
            match read_expr(ts, c + 1, right_bp(op)) {
                Err(e) => Err(e),
                Ok((rhs, c2)) => {
                    let e = ExprV::Binary {
                        op,
                        left: Box::new(lhs),
                        right: Box::new(rhs),
                        span: merged(span_of(lhs), span_of(rhs)),
                    };
                    if c < c2 {
                        read_infix(ts, e, c2, min_bp)
                    } else {
                        Ok((e, c2))
                    }
                },
            }
        }
    } else {
        Ok((lhs, c))
    }
}

/// Array elements from `c`, after those in `acc`: expressions separated by
/// commas, with an optional comma before the closing `]`.
pub open spec fn read_elements(ts: Seq<SpannedToken>, c: int, acc: Seq<ExprV>) -> Result<
    (Seq<ExprV>, int),
    ParseFailure,
>
    decreases rest(ts, c), 4nat,
{
    match read_expr(ts, c, 0) {
        Err(e) => Err(e),
        Ok((e, c2)) => {
            let acc2 = acc.push(e);
            if at(ts, c2, Token::Comma) {
                if at(ts, c2 + 1, Token::RBracket) {
                    Ok((acc2, c2 + 1))
                } else if c < c2 {
                    read_elements(ts, c2 + 1, acc2)
                } else {
                    Ok((acc2, c2 + 1))
                }
            } else {
                Ok((acc2, c2))
            }
        },
    }
}

/// Call arguments from `c`, after those in `acc`: expressions separated by commas.
pub open spec fn read_arguments(ts: Seq<SpannedToken>, c: int, acc: Seq<ExprV>) -> Result<
    (Seq<ExprV>, int),
    ParseFailure,
>
    decreases rest(ts, c), 4nat,
{
    match read_expr(ts, c, 0) {
        Err(e) => Err(e),
        Ok((e, c2)) => {
            let acc2 = acc.push(e);
            if at(ts, c2, Token::Comma) && c < c2 {
                read_arguments(ts, c2 + 1, acc2)
            } else if at(ts, c2, Token::Comma) {
                Ok((acc2, c2 + 1))
            } else {
                Ok((acc2, c2))
            }
        },
    }
}

/// A literal, identifier, call, grouped or array expression, or a prefix
/// operator and its operand, at `c`.
pub open spec fn read_prefix(ts: Seq<SpannedToken>, c: int) -> Result<(ExprV, int), ParseFailure>
    decreases rest(ts, c), 2nat,
{
    if !(0 <= c < ts.len()) {
        Err(ParseFailure::Eof { expected: "expression"@, span: prev_span(ts, c) })
    } else {
        let sp = ts[c].span;
        match ts[c].token {
            Token::IntLiteral(n) => Ok((ExprV::Lit(Literal::Int(n), sp), c + 1)),
            Token::FloatLiteral(f) => Ok((ExprV::Lit(Literal::Float(f), sp), c + 1)),
            Token::True => Ok((ExprV::Lit(Literal::Bool(true), sp), c + 1)),
            Token::False => Ok((ExprV::Lit(Literal::Bool(false), sp), c + 1)),
            Token::LBracket => {
                let items = if at(ts, c + 1, Token::RBracket) {
                    Ok((Seq::<ExprV>::empty(), c + 1))
                } else {
                    read_elements(ts, c + 1, Seq::empty())
                };
                match items {
                    Err(e) => Err(e),
                    Ok((elements, c2)) => match expect_token(
                        ts,
                        c2,
                        Token::RBracket,
                        "']' after array elements"@,
                    ) {
                        Err(e) => Err(e),
                        Ok((end, c3)) => Ok((ExprV::Array { elements, span: merged(sp, end) }, c3)),
                    },
                }
            },
            Token::Ident(name) => if at(ts, c + 1, Token::LParen) {
                let items = if at(ts, c + 2, Token::RParen) {
                    Ok((Seq::<ExprV>::empty(), c + 2))
                } else {
                    read_arguments(ts, c + 2, Seq::empty())
                };
                match items {
                    Err(e) => Err(e),
                    Ok((args, c2)) => match expect_token(
                        ts,
                        c2,
                        Token::RParen,
                        "')' after function arguments"@,
                    ) {
                        Err(e) => Err(e),
                        Ok((end, c3)) => Ok(
                            (ExprV::Call { callee: name@, args, span: merged(sp, end) }, c3),
                        ),
                    },
                }
            } else {
                Ok((ExprV::Ident(name@, sp), c + 1))
            },
            Token::LParen => match read_expr(ts, c + 1, 0) {
                Err(e) => Err(e),
                Ok((inner, c2)) => match expect_token(
                    ts,
                    c2,
                    Token::RParen,
                    "')' after grouped expression"@,
                ) {
                    Err(e) => Err(e),
                    Ok((end, c3)) => Ok((ExprV::Group(Box::new(inner), merged(sp, end)), c3)),
                },
            },
            Token::Minus => match read_expr(ts, c + 1, 19) {
                Err(e) => Err(e),
                Ok((inner, c2)) => Ok(
                    (
                        ExprV::Unary {
                            op: UnaryOp::Neg,
                            expr: Box::new(inner),
                            span: merged(sp, span_of(inner)),
                        },
                        c2,
                    ),
                ),
            },
            Token::Not => match read_expr(ts, c + 1, 19) {
                Err(e) => Err(e),
                Ok((inner, c2)) => Ok(
                    (
                        ExprV::Unary {
                            op: UnaryOp::Not,
                            expr: Box::new(inner),
                            span: merged(sp, span_of(inner)),
                        },
                        c2,
                    ),
                ),
            },
            other => Err(ParseFailure::Prefix { found: other, span: sp }),
        }
    }
}

/// A whole token sequence read as one expression.
pub open spec fn read_whole_expr(ts: Seq<SpannedToken>) -> Result<ExprV, ParseFailure> {
    match read_expr(ts, 0, 0) {
        Err(e) => Err(e),
        Ok((e, c)) => if c >= ts.len() {
            Ok(e)
        } else {
            Err(ParseFailure::Unexpected { found: ts[c].token, expected: "end of input"@, span: ts[c].span })
        },
    }
}

// ---------------------------------------------------------------------------
// Types
// ---------------------------------------------------------------------------

/// The spelling `[elem; len]` of an array type.
pub open spec fn array_spelling(elem: Seq<char>, len: i64) -> Seq<char> {
    seq!['['] + elem + seq![';', ' '] + int_text(len as int) + seq![']']
}

/// A type at `c`: a name, or `[T; N]`, as its spelling.
pub open spec fn read_type(ts: Seq<SpannedToken>, c: int) -> Result<(Seq<char>, int), ParseFailure>
    decreases rest(ts, c),
{
    if !(0 <= c < ts.len()) {
        Err(ParseFailure::Eof { expected: "type identifier or array type"@, span: prev_span(ts, c) })
    } else {
        match ts[c].token {
            Token::Ident(id) => Ok((id@, c + 1)),
            Token::LBracket => match read_type(ts, c + 1) {
                Err(e) => Err(e),
                Ok((elem, c2)) => match expect_token(ts, c2, Token::Semi, "';' in array type [T; N]"@) {
                    Err(e) => Err(e),
                    Ok((_, c3)) => if !(0 <= c3 < ts.len()) {
                        Err(ParseFailure::Eof { expected: "array length integer"@, span: prev_span(ts, c3) })
                    } else {
                        match ts[c3].token {
                            Token::IntLiteral(n) => match expect_token(
                                ts,
                                c3 + 1,
                                Token::RBracket,
                                "']' after array type"@,
                            ) {
                                Err(e) => Err(e),
                                Ok((_, c4)) => Ok((array_spelling(elem, n), c4)),
                            },
                            other => Err(
                                ParseFailure::Unexpected {
                                    found: other,
                                    expected: "array length integer"@,
                                    span: ts[c3].span,
                                },
                            ),
                        }
                    },
                },
            },
            other => Err(
                ParseFailure::Unexpected {
                    found: other,
                    expected: "type identifier or array type"@,
                    span: ts[c].span,
                },
            ),
        }
    }
}

// ---------------------------------------------------------------------------
// Statements
// ---------------------------------------------------------------------------

/// The name at `c`, or nothing when no identifier stands there.
pub open spec fn name_at(ts: Seq<SpannedToken>, c: int) -> Seq<char> {
    match ts[c].token {
        Token::Ident(id) => id@,
        _ => Seq::empty(),
    }
}

/// An identifier followed by `=` starts at `c`.
pub open spec fn starts_assignment(ts: Seq<SpannedToken>, c: int) -> bool {
    0 <= c && c + 1 < ts.len() && ts[c].token is Ident && ts[c + 1].token == Token::Assign
}

/// Scanning from `i` with `depth` brackets open: the bracket that closes the
/// first one is reached before any `;`, and `=` follows it.
pub open spec fn index_target_then_assign(ts: Seq<SpannedToken>, i: int, depth: int) -> bool
    decreases rest(ts, i),
{
    if !(0 <= i < ts.len()) {
        false
    } else if ts[i].token == Token::LBracket {
        index_target_then_assign(ts, i + 1, depth + 1)
    } else if ts[i].token == Token::RBracket {
        if depth - 1 == 0 {
            at(ts, i + 1, Token::Assign)
        } else {
            index_target_then_assign(ts, i + 1, depth - 1)
        }
    } else if ts[i].token == Token::Semi {
        false
    } else {
        index_target_then_assign(ts, i + 1, depth)
    }
}

/// `name[...] = ...` starts at `c`.
pub open spec fn starts_index_assignment(ts: Seq<SpannedToken>, c: int) -> bool {
    0 <= c && c + 1 < ts.len() && ts[c].token is Ident && ts[c + 1].token == Token::LBracket
        && index_target_then_assign(ts, c + 1, 0)
}

/// `let [mut] name [: type] = value;` at `c`.
pub open spec fn read_let(ts: Seq<SpannedToken>, c: int) -> Result<(StmtV, int), ParseFailure> {
    let let_span = ts[c].span;
    let is_mutable = at(ts, c + 1, Token::Mut);
    let c1 = if is_mutable {
        c + 2
    } else {
        c + 1
    };
    match expect_name(ts, c1, "variable name"@, let_span) {
        Err(e) => Err(e),
        Ok((name, c2)) => {
            let annotated = if at(ts, c2, Token::Colon) {
                match read_type(ts, c2 + 1) {
                    Err(e) => Err(e),
                    Ok((t, c3)) => Ok((Some(t), c3)),
                }
            } else {
                Ok((None, c2))
            };
            match annotated {
                Err(e) => Err(e),
                Ok((ty, c3)) => match expect_token(ts, c3, Token::Assign, "'=' in variable binding"@) {
                    Err(e) => Err(e),
                    Ok((_, c4)) => match read_expr(ts, c4, 0) {
                        Err(e) => Err(e),
                        Ok((value, c5)) => match expect_token(
                            ts,
                            c5,
                            Token::Semi,
                            "';' after variable binding"@,
                        ) {
                            Err(e) => Err(e),
                            Ok((semi, c6)) => Ok(
                                (
                                    StmtV::Let {
                                        name,
                                        is_mutable,
                                        ty,
                                        value,
                                        span: merged(let_span, semi),
                                    },
                                    c6,
                                ),
                            ),
                        },
                    },
                },
            }
        },
    }
}

/// `return [value];` at `c`.
pub open spec fn read_return(ts: Seq<SpannedToken>, c: int) -> Result<(StmtV, int), ParseFailure> {
    let value = if at(ts, c + 1, Token::Semi) {
        Ok((None, c + 1))
    } else {
        match read_expr(ts, c + 1, 0) {
            Err(e) => Err(e),
            Ok((v, c2)) => Ok((Some(v), c2)),
        }
    };
    match value {
        Err(e) => Err(e),
        Ok((v, c2)) => match expect_token(ts, c2, Token::Semi, "';' after return statement"@) {
            Err(e) => Err(e),
            Ok((semi, c3)) => Ok((StmtV::Return(v, merged(ts[c].span, semi)), c3)),
        },
    }
}

/// `name = value;` at `c`.
pub open spec fn read_assign(ts: Seq<SpannedToken>, c: int) -> Result<(StmtV, int), ParseFailure> {
    match expect_token(ts, c + 1, Token::Assign, "'=' in assignment"@) {
        Err(e) => Err(e),
        Ok((_, c2)) => match read_expr(ts, c2, 0) {
            Err(e) => Err(e),
            Ok((value, c3)) => match expect_token(ts, c3, Token::Semi, "';' after assignment"@) {
                Err(e) => Err(e),
                Ok((semi, c4)) => Ok(
                    (StmtV::Assign { name: name_at(ts, c), value, span: merged(ts[c].span, semi) }, c4),
                ),
            },
        },
    }
}

/// `name[index] = value;` at `c`.
pub open spec fn read_index_assign(ts: Seq<SpannedToken>, c: int) -> Result<(StmtV, int), ParseFailure> {
    match expect_token(ts, c + 1, Token::LBracket, "'[' in array index assignment"@) {
        Err(e) => Err(e),
        Ok((_, c2)) => match read_expr(ts, c2, 0) {
            Err(e) => Err(e),
            Ok((index, c3)) => match expect_token(
                ts,
                c3,
                Token::RBracket,
                "']' in array index assignment"@,
            ) {
                Err(e) => Err(e),
                Ok((_, c4)) => match expect_token(
                    ts,
                    c4,
                    Token::Assign,
                    "'=' in array element assignment"@,
                ) {
                    Err(e) => Err(e),
                    Ok((_, c5)) => match read_expr(ts, c5, 0) {
                        Err(e) => Err(e),
                        Ok((value, c6)) => match expect_token(
                            ts,
                            c6,
                            Token::Semi,
                            "';' after assignment"@,
                        ) {
                            Err(e) => Err(e),
                            Ok((semi, c7)) => Ok(
                                (
                                    StmtV::IndexAssign {
                                        target: name_at(ts, c),
                                        index,
                                        value,
                                        span: merged(ts[c].span, semi),
                                    },
                                    c7,
                                ),
                            ),
                        },
                    },
                },
            },
        },
    }
}

/// `expr;` at `c`.
pub open spec fn read_expr_stmt(ts: Seq<SpannedToken>, c: int) -> Result<(StmtV, int), ParseFailure> {
    match read_expr(ts, c, 0) {
        Err(e) => Err(e),
        Ok((e, c2)) => match expect_token(ts, c2, Token::Semi, "';' after expression statement"@) {
            Err(err) => Err(err),
            Ok((_, c3)) => Ok((StmtV::Expr(e), c3)),
        },
    }
}

/// A statement at `c`. (Each `c < ...` test below holds wherever it is made:
/// see `lemma_expr_advances` and the lemmas beside it.)
pub open spec fn read_stmt(ts: Seq<SpannedToken>, c: int) -> Result<(StmtV, int), ParseFailure>
    decreases rest(ts, c), 1nat,
{
    if at(ts, c, Token::Let) {
        read_let(ts, c)
    } else if at(ts, c, Token::Return) {
        read_return(ts, c)
    } else if at(ts, c, Token::Break) {
        match expect_token(ts, c + 1, Token::Semi, "';' after break"@) {
            Err(e) => Err(e),
            Ok((semi, c2)) => Ok((StmtV::Break(merged(ts[c].span, semi)), c2)),
        }
    } else if at(ts, c, Token::If) {
        match read_expr(ts, c + 1, 0) {
            Err(e) => Err(e),
            Ok((condition, c2)) => if c < c2 {
                match read_block(ts, c2) {
                    Err(e) => Err(e),
                    Ok((then_branch, c3)) => if at(ts, c3, Token::Else) && c < c3 {
                        match read_block(ts, c3 + 1) {
                            Err(e) => Err(e),
                            Ok((else_block, c4)) => Ok(
                                (
                                    StmtV::If {
                                        condition,
                                        then_branch,
                                        else_branch: Some(else_block),
                                        span: merged(ts[c].span, else_block.span),
                                    },
                                    c4,
                                ),
                            ),
                        }
                    } else {
                        Ok(
                            (
                                StmtV::If {
                                    condition,
                                    then_branch,
                                    else_branch: None,
                                    span: merged(ts[c].span, then_branch.span),
                                },
                                c3,
                            ),
                        )
                    },
                }
            } else {
                Ok((StmtV::Expr(condition), c2))
            },
        }
    } else if at(ts, c, Token::While) {
        match read_expr(ts, c + 1, 0) {
            Err(e) => Err(e),
            Ok((condition, c2)) => if c < c2 {
                match read_block(ts, c2) {
                    Err(e) => Err(e),
                    Ok((body, c3)) => Ok(
                        (StmtV::While { condition, body, span: merged(ts[c].span, body.span) }, c3),
                    ),
                }
            } else {
                Ok((StmtV::Expr(condition), c2))
            },
        }
    } else if starts_assignment(ts, c) {
        read_assign(ts, c)
    } else if starts_index_assignment(ts, c) {
        read_index_assign(ts, c)
    } else {
        read_expr_stmt(ts, c)
    }
}

/// Statements from `c`, after those in `acc`, up to a `}` or the end.
pub open spec fn read_stmts(ts: Seq<SpannedToken>, c: int, acc: Seq<StmtV>) -> Result<
    (Seq<StmtV>, int),
    ParseFailure,
>
    decreases rest(ts, c), 2nat,
{
    if at(ts, c, Token::RBrace) || !(0 <= c < ts.len()) {
        Ok((acc, c))
    } else {
        match read_stmt(ts, c) {
            Err(e) => Err(e),
            Ok((s, c2)) => if c < c2 {
                read_stmts(ts, c2, acc.push(s))
            } else {
                Ok((acc.push(s), c2))
            },
        }
    }
}

/// `{ stmt* }` at `c`.
pub open spec fn read_block(ts: Seq<SpannedToken>, c: int) -> Result<(BlockV, int), ParseFailure>
    decreases rest(ts, c), 3nat,
{
    match expect_token(ts, c, Token::LBrace, "'{' to begin block"@) {
        Err(e) => Err(e),
        Ok((open, c1)) => match read_stmts(ts, c1, Seq::empty()) {
            Err(e) => Err(e),
            Ok((stmts, c2)) => match expect_token(ts, c2, Token::RBrace, "'}' to close block"@) {
                Err(e) => Err(e),
                Ok((close, c3)) => Ok((BlockV { stmts, span: merged(open, close) }, c3)),
            },
        },
    }
}

// ---------------------------------------------------------------------------
// Functions and programs
// ---------------------------------------------------------------------------

/// `name: type` at `c`.
pub open spec fn read_param(ts: Seq<SpannedToken>, c: int) -> Result<(ParamV, int), ParseFailure> {
    match expect_name(ts, c, "parameter name"@, prev_span(ts, c)) {
        Err(e) => Err(e),
        Ok((name, c1)) => match expect_token(ts, c1, Token::Colon, "':' after parameter name"@) {
            Err(e) => Err(e),
            Ok((_, c2)) => match read_type(ts, c2) {
                Err(e) => Err(e),
                Ok((ty, c3)) => Ok((ParamV { name, ty, span: ts[c].span }, c3)),
            },
        },
    }
}

/// Parameters from `c`, after those in `acc`, separated by commas.
pub open spec fn read_params(ts: Seq<SpannedToken>, c: int, acc: Seq<ParamV>) -> Result<
    (Seq<ParamV>, int),
    ParseFailure,
>
    decreases rest(ts, c),
{
    match read_param(ts, c) {
        Err(e) => Err(e),
        Ok((p, c2)) => {
            let acc2 = acc.push(p);
            if at(ts, c2, Token::Comma) && c < c2 {
                read_params(ts, c2 + 1, acc2)
            } else if at(ts, c2, Token::Comma) {
                Ok((acc2, c2 + 1))
            } else {
                Ok((acc2, c2))
            }
        },
    }
}

/// `fn name(params) [-> type] { body }` at `c`.
pub open spec fn read_function(ts: Seq<SpannedToken>, c: int) -> Result<(FunctionV, int), ParseFailure> {
    match expect_token(ts, c, Token::Fn, "'fn' keyword"@) {
        Err(e) => Err(e),
        Ok((fn_span, c1)) => match expect_name(ts, c1, "function name"@, fn_span) {
            Err(e) => Err(e),
            Ok((name, c2)) => match expect_token(ts, c2, Token::LParen, "'(' after function name"@) {
                Err(e) => Err(e),
                Ok((_, c3)) => {
                    let params = if at(ts, c3, Token::RParen) {
                        Ok((Seq::<ParamV>::empty(), c3))
                    } else {
                        read_params(ts, c3, Seq::empty())
                    };
                    match params {
                        Err(e) => Err(e),
                        Ok((params, c4)) => match expect_token(
                            ts,
                            c4,
                            Token::RParen,
                            "')' after parameters"@,
                        ) {
                            Err(e) => Err(e),
                            Ok((_, c5)) => {
                                let ret = if at(ts, c5, Token::Arrow) {
                                    match read_type(ts, c5 + 1) {
                                        Err(e) => Err(e),
                                        Ok((t, c6)) => Ok((Some(t), c6)),
                                    }
                                } else {
                                    Ok((None, c5))
                                };
                                match ret {
                                    Err(e) => Err(e),
                                    Ok((return_ty, c6)) => match read_block(ts, c6) {
                                        Err(e) => Err(e),
                                        Ok((body, c7)) => Ok(
                                            (
                                                FunctionV {
                                                    name,
                                                    params,
                                                    return_ty,
                                                    body,
                                                    span: merged(fn_span, body.span),
                                                },
                                                c7,
                                            ),
                                        ),
                                    },
                                }
                            },
                        },
                    }
                },
            },
        },
    }
}

/// Function definitions from `c` to the end, after those in `acc`.
pub open spec fn read_functions(ts: Seq<SpannedToken>, c: int, acc: Seq<FunctionV>) -> Result<
    Seq<FunctionV>,
    ParseFailure,
>
    decreases rest(ts, c),
{
    if !(0 <= c < ts.len()) {
        Ok(acc)
    } else {
        match read_function(ts, c) {
            Err(e) => Err(e),
            Ok((f, c2)) => if c < c2 {
                read_functions(ts, c2, acc.push(f))
            } else {
                Ok(acc.push(f))
            },
        }
    }
}

/// A whole token sequence read as a program.
pub open spec fn read_program(ts: Seq<SpannedToken>) -> Result<Seq<FunctionV>, ParseFailure> {
    read_functions(ts, 0, Seq::empty())
}

// ---------------------------------------------------------------------------
// Every read moves forward
// ---------------------------------------------------------------------------
//
// The reading functions above test `c < c2` before they go on from a
// position `c2` that a read reached from `c`; that makes their recursion
// well founded on its face. By the lemmas below every such test holds, so
// none of their `else` branches is ever taken.

/// A prefix expression takes at least one token, and starts at one.
pub proof fn lemma_prefix_advances(ts: Seq<SpannedToken>, c: int)
    ensures
        read_prefix(ts, c) matches Ok((_, c2)) ==> 0 <= c < ts.len() && c < c2,
    decreases rest(ts, c), 2nat,
{
    if 0 <= c < ts.len() {
        match ts[c].token {
            Token::LBracket => {
                if !at(ts, c + 1, Token::RBracket) {
                    lemma_elements_advance(ts, c + 1, Seq::empty());
                }
            },
            Token::Ident(_) => {
                if at(ts, c + 1, Token::LParen) && !at(ts, c + 2, Token::RParen) {
                    lemma_arguments_advance(ts, c + 2, Seq::empty());
                }
            },
            Token::LParen => lemma_expr_advances(ts, c + 1, 0),
            Token::Minus => lemma_expr_advances(ts, c + 1, 19),
            Token::Not => lemma_expr_advances(ts, c + 1, 19),
            _ => {},
        }
    }
}

/// An expression takes at least one token.
pub proof fn lemma_expr_advances(ts: Seq<SpannedToken>, c: int, min_bp: u8)
    ensures
        read_expr(ts, c, min_bp) matches Ok((_, c2)) ==> c < c2,
    decreases rest(ts, c), 3nat,
{
    lemma_prefix_advances(ts, c);
    if let Ok((lhs, c1)) = read_prefix(ts, c) {
        if c < c1 && c < ts.len() {
            lemma_infix_advances(ts, lhs, c1, min_bp);
        }
    }
}

/// The operators after an operand never move back.
pub proof fn lemma_infix_advances(ts: Seq<SpannedToken>, lhs: ExprV, c: int, min_bp: u8)
    ensures
        read_infix(ts, lhs, c, min_bp) matches Ok((_, c2)) ==> c <= c2,
    decreases rest(ts, c), 4nat,
{
    if at(ts, c, Token::LBracket) {
        if min_bp <= 20 {
            lemma_expr_advances(ts, c + 1, 0);
            if let Ok((index, c2)) = read_expr(ts, c + 1, 0) {
                if let Ok((end, c3)) = expect_token(ts, c2, Token::RBracket, "']' after array index"@) {
                    let e = ExprV::Index {
                        target: Box::new(lhs),
                        index: Box::new(index),
                        span: merged(span_of(lhs), end),
                    };
                    if c < c3 {
                        lemma_infix_advances(ts, e, c3, min_bp);
                    }
                }
            }
        }
    } else if 0 <= c < ts.len() && binop_of(ts[c].token) is Some {
        let op = binop_of(ts[c].token).unwrap();
        if left_bp(op) >= min_bp {
            lemma_expr_advances(ts, c + 1, right_bp(op));
            if let Ok((rhs, c2)) = read_expr(ts, c + 1, right_bp(op)) {
                let e = ExprV::Binary {
                    op,
                    left: Box::new(lhs),
                    right: Box::new(rhs),
                    span: merged(span_of(lhs), span_of(rhs)),
                };
                if c < c2 {
                    lemma_infix_advances(ts, e, c2, min_bp);
                }
            }
        }
    }
}

/// Array elements take at least one token.
pub proof fn lemma_elements_advance(ts: Seq<SpannedToken>, c: int, acc: Seq<ExprV>)
    ensures
        read_elements(ts, c, acc) matches Ok((_, c2)) ==> c < c2,
    decreases rest(ts, c), 4nat,
{
    lemma_expr_advances(ts, c, 0);
    if let Ok((e, c2)) = read_expr(ts, c, 0) {
        if at(ts, c2, Token::Comma) && !at(ts, c2 + 1, Token::RBracket) && c < c2 {
            lemma_elements_advance(ts, c2 + 1, acc.push(e));
        }
    }
}

/// Call arguments take at least one token.
pub proof fn lemma_arguments_advance(ts: Seq<SpannedToken>, c: int, acc: Seq<ExprV>)
    ensures
        read_arguments(ts, c, acc) matches Ok((_, c2)) ==> c < c2,
    decreases rest(ts, c), 4nat,
{
    lemma_expr_advances(ts, c, 0);
    if let Ok((e, c2)) = read_expr(ts, c, 0) {
        if at(ts, c2, Token::Comma) && c < c2 {
            lemma_arguments_advance(ts, c2 + 1, acc.push(e));
        }
    }
}

/// A type takes at least one token.
pub proof fn lemma_type_advances(ts: Seq<SpannedToken>, c: int)
    ensures
        read_type(ts, c) matches Ok((_, c2)) ==> c < c2,
    decreases rest(ts, c),
{
    if 0 <= c < ts.len() && ts[c].token == Token::LBracket {
        lemma_type_advances(ts, c + 1);
    }
}

/// A `let` statement takes at least one token.
proof fn lemma_let_advances(ts: Seq<SpannedToken>, c: int)
    requires
        at(ts, c, Token::Let),
    ensures
        read_let(ts, c) matches Ok((_, c2)) ==> c < c2,
{
    let c1 = if at(ts, c + 1, Token::Mut) { c + 2 } else { c + 1 };
    lemma_type_advances(ts, c1 + 2);
    let c3 = if at(ts, c1 + 1, Token::Colon) {
        match read_type(ts, c1 + 2) {
            Ok((_, c3)) => c3,
            Err(_) => c1 + 1,
        }
    } else {
        c1 + 1
    };
    lemma_expr_advances(ts, c3 + 1, 0);
}

/// A `return` statement takes at least one token.
proof fn lemma_return_advances(ts: Seq<SpannedToken>, c: int)
    requires
        at(ts, c, Token::Return),
    ensures
        read_return(ts, c) matches Ok((_, c2)) ==> c < c2,
{
    lemma_expr_advances(ts, c + 1, 0);
}

/// An assignment takes at least one token.
proof fn lemma_assign_advances(ts: Seq<SpannedToken>, c: int)
    requires
        0 <= c,
    ensures
        read_assign(ts, c) matches Ok((_, c2)) ==> c < c2,
{
    lemma_expr_advances(ts, c + 2, 0);
}

/// An index assignment takes at least one token.
proof fn lemma_index_assign_advances(ts: Seq<SpannedToken>, c: int)
    requires
        0 <= c,
    ensures
        read_index_assign(ts, c) matches Ok((_, c2)) ==> c < c2,
{
    lemma_expr_advances(ts, c + 2, 0);
    if let Ok((_, c3)) = read_expr(ts, c + 2, 0) {
        lemma_expr_advances(ts, c3 + 2, 0);
    }
}

/// An expression statement takes at least one token.
proof fn lemma_expr_stmt_advances(ts: Seq<SpannedToken>, c: int)
    ensures
        read_expr_stmt(ts, c) matches Ok((_, c2)) ==> c < c2,
{
    lemma_expr_advances(ts, c, 0);
}

/// A statement takes at least one token.
pub proof fn lemma_stmt_advances(ts: Seq<SpannedToken>, c: int)
    ensures
        read_stmt(ts, c) matches Ok((_, c2)) ==> c < c2,
    decreases rest(ts, c), 1nat,
{
    if at(ts, c, Token::Let) {
        lemma_let_advances(ts, c);
    } else if at(ts, c, Token::Return) {
        lemma_return_advances(ts, c);
    } else if at(ts, c, Token::Break) {
    } else if at(ts, c, Token::If) {
        lemma_expr_advances(ts, c + 1, 0);
        if let Ok((_, c2)) = read_expr(ts, c + 1, 0) {
            lemma_block_advances(ts, c2);
            if let Ok((_, c3)) = read_block(ts, c2) {
                if at(ts, c3, Token::Else) {
                    lemma_block_advances(ts, c3 + 1);
                }
            }
        }
    } else if at(ts, c, Token::While) {
        lemma_expr_advances(ts, c + 1, 0);
        if let Ok((_, c2)) = read_expr(ts, c + 1, 0) {
            lemma_block_advances(ts, c2);
        }
    } else if starts_assignment(ts, c) {
        lemma_assign_advances(ts, c);
    } else if starts_index_assignment(ts, c) {
        lemma_index_assign_advances(ts, c);
    } else {
        lemma_expr_stmt_advances(ts, c);
    }
}

/// Statements never move back.
pub proof fn lemma_stmts_advance(ts: Seq<SpannedToken>, c: int, acc: Seq<StmtV>)
    ensures
        read_stmts(ts, c, acc) matches Ok((_, c2)) ==> c <= c2,
    decreases rest(ts, c), 2nat,
{
    if !(at(ts, c, Token::RBrace) || !(0 <= c < ts.len())) {
        lemma_stmt_advances(ts, c);
        if let Ok((s, c2)) = read_stmt(ts, c) {
            if c < c2 {
                lemma_stmts_advance(ts, c2, acc.push(s));
            }
        }
    }
}

/// A block takes at least its braces.
pub proof fn lemma_block_advances(ts: Seq<SpannedToken>, c: int)
    ensures
        read_block(ts, c) matches Ok((_, c2)) ==> c < c2,
    decreases rest(ts, c), 3nat,
{
    if at(ts, c, Token::LBrace) {
        lemma_stmts_advance(ts, c + 1, Seq::empty());
    }
}

/// A function takes at least one token.
pub proof fn lemma_function_advances(ts: Seq<SpannedToken>, c: int)
    ensures
        read_function(ts, c) matches Ok((_, c2)) ==> c < c2,
{
    if let Ok((fn_span, c1)) = expect_token(ts, c, Token::Fn, "'fn' keyword"@) {
        if let Ok((_, c2)) = expect_name(ts, c1, "function name"@, fn_span) {
            if let Ok((_, c3)) = expect_token(ts, c2, Token::LParen, "'(' after function name"@) {
                if !at(ts, c3, Token::RParen) {
                    lemma_params_advance(ts, c3, Seq::empty());
                }
                let params = if at(ts, c3, Token::RParen) {
                    Ok((Seq::<ParamV>::empty(), c3))
                } else {
                    read_params(ts, c3, Seq::empty())
                };
                if let Ok((_, c4)) = params {
                    lemma_type_advances(ts, c4 + 2);
                    let c6 = if at(ts, c4 + 1, Token::Arrow) {
                        match read_type(ts, c4 + 2) {
                            Ok((_, c6)) => c6,
                            Err(_) => c4 + 1,
                        }
                    } else {
                        c4 + 1
                    };
                    lemma_block_advances(ts, c6);
                }
            }
        }
    }
}

/// Parameters take at least one token.
pub proof fn lemma_params_advance(ts: Seq<SpannedToken>, c: int, acc: Seq<ParamV>)
    ensures
        read_params(ts, c, acc) matches Ok((_, c2)) ==> c < c2,
    decreases rest(ts, c),
{
    lemma_type_advances(ts, c + 2);
    if let Ok((p, c2)) = read_param(ts, c) {
        if at(ts, c2, Token::Comma) && c < c2 {
            lemma_params_advance(ts, c2 + 1, acc.push(p));
        }
    }
}


// ---------------------------------------------------------------------------
// How two binary operators group
// ---------------------------------------------------------------------------

/// The tokens are `a op1 b op2 c`: three names joined by two binary
/// operators, and nothing after.
pub open spec fn three_operands(ts: Seq<SpannedToken>) -> bool {
    &&& ts.len() == 5
    &&& ts[0].token is Ident
    &&& ts[2].token is Ident
    &&& ts[4].token is Ident
    &&& binop_of(ts[1].token) is Some
    &&& binop_of(ts[3].token) is Some
}

/// The name that the `k`-th token of a `three_operands` sequence stands for.
pub open spec fn operand_at(ts: Seq<SpannedToken>, k: int) -> ExprV {
    ExprV::Ident(ts[k].token->Ident_0@, ts[k].span)
}

/// `e` is `a op1 (b op2 c)` for the three names of `ts`.
pub open spec fn groups_right(e: ExprV, ts: Seq<SpannedToken>) -> bool {
    e matches ExprV::Binary { op, left, right, .. } && op == binop_of(ts[1].token).unwrap() && *left == operand_at(
        ts,
        0,
    ) && (*right matches ExprV::Binary { op: op2, left: l2, right: r2, .. } && op2 == binop_of(ts[3].token).unwrap()
        && *l2 == operand_at(ts, 2) && *r2 == operand_at(ts, 4))
}

/// `e` is `(a op1 b) op2 c` for the three names of `ts`.
pub open spec fn groups_left(e: ExprV, ts: Seq<SpannedToken>) -> bool {
    e matches ExprV::Binary { op, left, right, .. } && op == binop_of(ts[3].token).unwrap() && *right
        == operand_at(ts, 4) && (*left matches ExprV::Binary { op: op1, left: l1, right: r1, .. } && op1 == binop_of(
        ts[1].token,
    ).unwrap() && *l1 == operand_at(ts, 0) && *r1 == operand_at(ts, 2))
}

proof fn lemma_read_three(ts: Seq<SpannedToken>)
    requires
        three_operands(ts),
    ensures
        read_expr(ts, 0, 0) matches Ok((e, c)) && c == 5 && (if left_bp(binop_of(ts[3].token).unwrap()) >= right_bp(
            binop_of(ts[1].token).unwrap(),
        ) {
            groups_right(e, ts)
        } else {
            groups_left(e, ts)
        }),
{
    let o1 = binop_of(ts[1].token).unwrap();
    let o2 = binop_of(ts[3].token).unwrap();
    let x = operand_at(ts, 0);
    let y = operand_at(ts, 2);
    let z = operand_at(ts, 4);
    assert(!at(ts, 1, Token::LParen) && !at(ts, 1, Token::LBracket));
    assert(!at(ts, 3, Token::LParen) && !at(ts, 3, Token::LBracket));
    assert(!at(ts, 5, Token::LParen) && !at(ts, 5, Token::LBracket));
    assert(read_prefix(ts, 0) == Ok::<(ExprV, int), ParseFailure>((x, 1)));
    assert(read_prefix(ts, 2) == Ok::<(ExprV, int), ParseFailure>((y, 3)));
    assert(read_prefix(ts, 4) == Ok::<(ExprV, int), ParseFailure>((z, 5)));
    let rb1 = right_bp(o1);
    let rb2 = right_bp(o2);
    assert(read_infix(ts, z, 5, rb2) == Ok::<(ExprV, int), ParseFailure>((z, 5)));
    assert(read_expr(ts, 4, rb2) == Ok::<(ExprV, int), ParseFailure>((z, 5)));
    if left_bp(o2) >= rb1 {
        let inner = ExprV::Binary { op: o2, left: Box::new(y), right: Box::new(z), span: merged(span_of(y), span_of(z)) };
        assert(read_infix(ts, inner, 5, rb1) == Ok::<(ExprV, int), ParseFailure>((inner, 5)));
        assert(read_infix(ts, y, 3, rb1) == Ok::<(ExprV, int), ParseFailure>((inner, 5)));
        assert(read_expr(ts, 2, rb1) == Ok::<(ExprV, int), ParseFailure>((inner, 5)));
        let outer = ExprV::Binary {
            op: o1,
            left: Box::new(x),
            right: Box::new(inner),
            span: merged(span_of(x), span_of(inner)),
        };
        assert(read_infix(ts, outer, 5, 0) == Ok::<(ExprV, int), ParseFailure>((outer, 5)));
        assert(read_infix(ts, x, 1, 0) == Ok::<(ExprV, int), ParseFailure>((outer, 5)));
        assert(read_expr(ts, 0, 0) == Ok::<(ExprV, int), ParseFailure>((outer, 5)));
    } else {
        assert(read_infix(ts, y, 3, rb1) == Ok::<(ExprV, int), ParseFailure>((y, 3)));
        assert(read_expr(ts, 2, rb1) == Ok::<(ExprV, int), ParseFailure>((y, 3)));
        let first = ExprV::Binary { op: o1, left: Box::new(x), right: Box::new(y), span: merged(span_of(x), span_of(y)) };
        let whole = ExprV::Binary {
            op: o2,
            left: Box::new(first),
            right: Box::new(z),
            span: merged(span_of(first), span_of(z)),
        };
        assert(read_infix(ts, whole, 5, 0) == Ok::<(ExprV, int), ParseFailure>((whole, 5)));
        assert(read_infix(ts, first, 3, 0) == Ok::<(ExprV, int), ParseFailure>((whole, 5)));
        assert(read_infix(ts, x, 1, 0) == Ok::<(ExprV, int), ParseFailure>((whole, 5)));
        assert(read_expr(ts, 0, 0) == Ok::<(ExprV, int), ParseFailure>((whole, 5)));
    }
}

/// The operator is `*`, `/` or `%`.
pub open spec fn is_multiplicative(op: BinaryOp) -> bool {
    op == BinaryOp::Mul || op == BinaryOp::Div || op == BinaryOp::Mod
}

/// The operator is `+` or `-`.
pub open spec fn is_additive(op: BinaryOp) -> bool {
    op == BinaryOp::Add || op == BinaryOp::Sub
}

/// The operator compares: `<`, `<=`, `>`, `>=`, `==` or `!=`.
pub open spec fn is_comparing(op: BinaryOp) -> bool {
    op == BinaryOp::Lt || op == BinaryOp::Le || op == BinaryOp::Gt || op == BinaryOp::Ge || op == BinaryOp::Eq
        || op == BinaryOp::Ne
}

/// How `a op1 b op2 c` groups: `*`, `/` and `%` bind tighter than `+` and
/// `-` (so `a + b % c` is `a + (b % c)` and `a % b + c` is `(a % b) + c`);
/// operators of one of these two groups associate to the left; arithmetic
/// binds tighter than comparison; and `**` groups to the right.
pub proof fn lemma_operator_grouping(ts: Seq<SpannedToken>)
    requires
        three_operands(ts),
    ensures
        ({
            let o1 = binop_of(ts[1].token).unwrap();
            let o2 = binop_of(ts[3].token).unwrap();
            read_expr(ts, 0, 0) matches Ok((e, c)) && c == 5 && {
                &&& (is_additive(o1) && is_multiplicative(o2)) ==> groups_right(e, ts)
                &&& (is_multiplicative(o1) && is_additive(o2)) ==> groups_left(e, ts)
                &&& (is_multiplicative(o1) && is_multiplicative(o2)) ==> groups_left(e, ts)
                &&& (is_additive(o1) && is_additive(o2)) ==> groups_left(e, ts)
                &&& (is_comparing(o1) && (is_additive(o2) || is_multiplicative(o2))) ==> groups_right(e, ts)
                &&& ((is_additive(o1) || is_multiplicative(o1)) && is_comparing(o2)) ==> groups_left(e, ts)
                &&& (o1 == BinaryOp::Pow && o2 == BinaryOp::Pow) ==> groups_right(e, ts)
                &&& (is_multiplicative(o1) && o2 == BinaryOp::Pow) ==> groups_right(e, ts)
            }
        }),
{
    lemma_read_three(ts);
}


/// The grammar's levels of binary operators, loosest first: `== !=`, then
/// `< <= > >=`, `|`, `^`, `&`, `<< >>`, `+ -`, `* / %`, and `**`.
pub open spec fn operator_level(op: BinaryOp) -> int {
    match op {
        BinaryOp::Eq | BinaryOp::Ne => 1,
        BinaryOp::Lt | BinaryOp::Le | BinaryOp::Gt | BinaryOp::Ge => 2,
        BinaryOp::BitOr => 3,
        BinaryOp::BitXor => 4,
        BinaryOp::BitAnd => 5,
        BinaryOp::Shl | BinaryOp::Shr => 6,
        BinaryOp::Add | BinaryOp::Sub => 7,
        BinaryOp::Mul | BinaryOp::Div | BinaryOp::Mod => 8,
        BinaryOp::Pow => 9,
    }
}

/// Every `a op1 b op2 c` parses, and groups as the levels say: as
/// `a op1 (b op2 c)` where `op2` is of a tighter level than `op1` (or both
/// are the right-associative `**`), and as `(a op1 b) op2 c` otherwise.
pub proof fn lemma_grouping_follows_levels(ts: Seq<SpannedToken>)
    requires
        three_operands(ts),
    ensures
        ({
            let o1 = binop_of(ts[1].token).unwrap();
            let o2 = binop_of(ts[3].token).unwrap();
            read_expr(ts, 0, 0) matches Ok((e, c)) && c == 5 && if operator_level(o2) > operator_level(o1) || (
            o1 == BinaryOp::Pow && o2 == BinaryOp::Pow) {
                groups_right(e, ts)
            } else {
                groups_left(e, ts)
            }
        }),
{
    lemma_read_three(ts);
}

} // verus!
