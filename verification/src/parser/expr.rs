use vstd::prelude::*;
use crate::ast::{BinaryOp, Expr, Literal, UnaryOp};
use crate::parser::{ParseError, Parser};
use crate::token::Token;
use crate::parser::grammar::{
    ExprV, ParseFailure, at, exprs_v, expr_v, failure_of, lemma_exprs_v_push, lemma_span_of_view,
    read_arguments, read_elements, read_expr, read_infix, read_prefix, };

verus! {

/// The binary operator that a token denotes in infix position.
pub open spec fn binop_of(t: Token) -> Option<BinaryOp> {
    match t {
        Token::Eq => Some(BinaryOp::Eq),
        Token::Ne => Some(BinaryOp::Ne),
        Token::Lt => Some(BinaryOp::Lt),
        Token::Le => Some(BinaryOp::Le),
        Token::Gt => Some(BinaryOp::Gt),
        Token::Ge => Some(BinaryOp::Ge),
        Token::Pipe => Some(BinaryOp::BitOr),
        Token::Caret => Some(BinaryOp::BitXor),
        Token::Ampersand => Some(BinaryOp::BitAnd),
        Token::Shl => Some(BinaryOp::Shl),
        Token::Shr => Some(BinaryOp::Shr),
        Token::Plus => Some(BinaryOp::Add),
        Token::Minus => Some(BinaryOp::Sub),
        Token::Star => Some(BinaryOp::Mul),
        Token::Slash => Some(BinaryOp::Div),
        Token::Percent => Some(BinaryOp::Mod),
        Token::StarStar => Some(BinaryOp::Pow),
        _ => None,
    }
}

/// Precedence level of a binary operator (higher binds tighter).
pub open spec fn precedence(op: BinaryOp) -> u8 {
    match op {
        BinaryOp::Eq | BinaryOp::Ne => 1,
        BinaryOp::Lt | BinaryOp::Le | BinaryOp::Gt | BinaryOp::Ge => 2,
        BinaryOp::BitOr => 3,
        BinaryOp::BitXor => 4,
        BinaryOp::BitAnd => 5,
        BinaryOp::Shl | BinaryOp::Shr => 6,
        BinaryOp::Add | BinaryOp::Sub => 7,
        BinaryOp::Mul | BinaryOp::Div | BinaryOp::Mod => 8,
        BinaryOp::Pow => 9,
    }
}

/// Left binding power: `2 * level - 1`, or `2 * level` for the right-associative `**`.
pub open spec fn left_bp(op: BinaryOp) -> u8 {
    if op == BinaryOp::Pow {
        (2 * precedence(op)) as u8
    } else {
        (2 * precedence(op) - 1) as u8
    }
}

/// Right binding power: one above the left power, or one below it for `**`.
pub open spec fn right_bp(op: BinaryOp) -> u8 {
    if op == BinaryOp::Pow {
        (2 * precedence(op) - 1) as u8
    } else {
        (2 * precedence(op)) as u8
    }
}

/// The binding power that a prefix operator parses its operand with: tighter than every binary operator.
pub open spec fn prefix_bp() -> u8 {
    19
}

/// Operators associate to the left, except `**`, which associates to the right;
/// an operator of a higher level always binds tighter than one of a lower level,
/// and prefix operators bind tighter than all binary ones.
pub proof fn lemma_binding_powers(a: BinaryOp, b: BinaryOp)
    ensures
        (left_bp(a) > right_bp(a)) <==> a == BinaryOp::Pow,
        precedence(a) < precedence(b) ==> right_bp(a) < left_bp(b),
        precedence(a) < precedence(b) ==> left_bp(a) < right_bp(b),
        left_bp(a) < prefix_bp(),
        1 <= left_bp(a),
{
}

/// The binding powers and operator of an infix token.
pub fn infix_binding_power(op: &Token) -> (r: Option<(u8, u8, BinaryOp)>)
    ensures
        match binop_of(*op) {
            Some(b) => r == Some((left_bp(b), right_bp(b), b)),
            None => r.is_none(),
        },
{
    match op {
        Token::Eq => Some((1, 2, BinaryOp::Eq)),
        Token::Ne => Some((1, 2, BinaryOp::Ne)),
        Token::Lt => Some((3, 4, BinaryOp::Lt)),
        Token::Le => Some((3, 4, BinaryOp::Le)),
        Token::Gt => Some((3, 4, BinaryOp::Gt)),
        Token::Ge => Some((3, 4, BinaryOp::Ge)),
        Token::Pipe => Some((5, 6, BinaryOp::BitOr)),
        Token::Caret => Some((7, 8, BinaryOp::BitXor)),
        Token::Ampersand => Some((9, 10, BinaryOp::BitAnd)),
        Token::Shl => Some((11, 12, BinaryOp::Shl)),
        Token::Shr => Some((11, 12, BinaryOp::Shr)),
        Token::Plus => Some((13, 14, BinaryOp::Add)),
        Token::Minus => Some((13, 14, BinaryOp::Sub)),
        Token::Star => Some((15, 16, BinaryOp::Mul)),
        Token::Slash => Some((15, 16, BinaryOp::Div)),
        Token::Percent => Some((15, 16, BinaryOp::Mod)),
        Token::StarStar => Some((18, 17, BinaryOp::Pow)),
        _ => None,
    }
}

impl<'a> Parser<'a> {
    /// Parses an expression whose binary operators all bind at least as
    /// tightly as `min_bp`: exactly `read_expr` at the cursor.
    pub fn parse_expr(&mut self, min_bp: u8) -> (res: Result<Expr, ParseError>)
        requires
            old(self).cursor <= old(self).tokens@.len(),
        ensures
            final(self).tokens == old(self).tokens,
            old(self).cursor <= final(self).cursor <= final(self).tokens@.len(),
            res is Ok ==> old(self).cursor < final(self).cursor,
            match res {
                Ok(e) => read_expr(old(self).tokens@, old(self).cursor as int, min_bp) == Ok::<
                    (ExprV, int),
                    ParseFailure,
                >((expr_v(e), final(self).cursor as int)),
                Err(err) => read_expr(old(self).tokens@, old(self).cursor as int, min_bp) == Err::<
                    (ExprV, int),
                    ParseFailure,
                >(failure_of(err)),
            },
        decreases old(self).tokens@.len() - old(self).cursor, 1nat,
    {
        let ghost ts = self.tokens@;
        let ghost start = self.cursor as int;
        let mut lhs = match self.parse_prefix() {
            Ok(e) => e,
            Err(err) => {
                return Err(err);
            },
        };
        loop
            invariant
                self.tokens == old(self).tokens,
                ts == self.tokens@,
                start == old(self).cursor,
                start < self.cursor <= self.tokens@.len(),
                read_expr(ts, start, min_bp) == read_infix(ts, expr_v(lhs), self.cursor as int, min_bp),
            ensures
                self.tokens == old(self).tokens,
                start < self.cursor <= self.tokens@.len(),
                read_expr(ts, start, min_bp) == Ok::<(ExprV, int), ParseFailure>(
                    (expr_v(lhs), self.cursor as int),
                ),
            decreases self.tokens@.len() - self.cursor,
        {
            let ghost c = self.cursor as int;
            if self.check(&Token::LBracket) {
                if min_bp > 20 {
                    break;
                }
                self.advance();
                let index = match self.parse_expr(0) {
                    Ok(e) => e,
                    Err(err) => {
                        return Err(err);
                    },
                };
                let end_span = match self.consume(&Token::RBracket, "']' after array index") {
                    Ok(sp) => sp,
                    Err(err) => {
                        return Err(err);
                    },
                };
                proof {
                    lemma_span_of_view(lhs);
                }
                let span = lhs.span().merge(&end_span);
                lhs = Expr::Index { target: Box::new(lhs), index: Box::new(index), span };
                continue;
            }
            let op = match self.peek() {
                Some(op) => op,
                None => break,
            };
            match infix_binding_power(op) {
                Some((l_bp, r_bp, bin_op)) => {
                    if l_bp < min_bp {
                        break;
                    }
                    self.advance();
                    let rhs = match self.parse_expr(r_bp) {
                        Ok(e) => e,
                        Err(err) => {
                            return Err(err);
                        },
                    };
                    proof {
                        lemma_span_of_view(lhs);
                        lemma_span_of_view(rhs);
                    }
                    let span = lhs.span().merge(&rhs.span());
                    lhs = Expr::Binary {
                        op: bin_op,
                        left: Box::new(lhs),
                        right: Box::new(rhs),
                        span,
                    };
                    continue;
                },
                None => {
                    break;
                },
            }
        }
        Ok(lhs)
    }

    /// Parses a literal, identifier, call, grouped or array expression, or a
    /// prefix operator applied to its operand: exactly `read_prefix` at the cursor.
    pub fn parse_prefix(&mut self) -> (res: Result<Expr, ParseError>)
        requires
            old(self).cursor <= old(self).tokens@.len(),
        ensures
            final(self).tokens == old(self).tokens,
            old(self).cursor <= final(self).cursor <= final(self).tokens@.len(),
            res is Ok ==> old(self).cursor < final(self).cursor,
            match res {
                Ok(e) => read_prefix(old(self).tokens@, old(self).cursor as int) == Ok::<
                    (ExprV, int),
                    ParseFailure,
                >((expr_v(e), final(self).cursor as int)),
                Err(err) => read_prefix(old(self).tokens@, old(self).cursor as int) == Err::<
                    (ExprV, int),
                    ParseFailure,
                >(failure_of(err)),
            },
        decreases old(self).tokens@.len() - old(self).cursor, 0nat,
    {
        let ghost ts = self.tokens@;
        let ghost c = self.cursor as int;
        let token_spanned = match self.peek_token() {
            Some(t) => t,
            None => {
                return Err(
                    ParseError::UnexpectedEof {
                        expected: String::from_str("expression"),
                        span: self.previous_span(),
                    },
                );
            },
        };
        let sp = token_spanned.span;
        match &token_spanned.token {
            Token::IntLiteral(n) => {
                self.advance();
                Ok(Expr::Literal(Literal::Int(*n), sp))
            },
            Token::FloatLiteral(f) => {
                self.advance();
                Ok(Expr::Literal(Literal::Float(f.clone()), sp))
            },
            Token::True => {
                self.advance();
                Ok(Expr::Literal(Literal::Bool(true), sp))
            },
            Token::False => {
                self.advance();
                Ok(Expr::Literal(Literal::Bool(false), sp))
            },
            Token::LBracket => {
                self.advance();
                let mut elements: Vec<Expr> = Vec::new();
                if !self.check(&Token::RBracket) {
                    let ghost c0 = self.cursor as int;
                    loop
                        invariant_except_break
                            read_elements(ts, c0, Seq::empty()) == read_elements(
                                ts,
                                self.cursor as int,
                                exprs_v(elements@),
                            ),
                        invariant
                            self.tokens == old(self).tokens,
                            ts == self.tokens@,
                            c == old(self).cursor,
                            c0 == c + 1,
                            !at(ts, c0, Token::RBracket),
                            0 <= c < ts.len(),
                            ts[c].token == Token::LBracket,
                            c < self.cursor <= self.tokens@.len(),
                        ensures
                            self.tokens == old(self).tokens,
                            c < self.cursor <= self.tokens@.len(),
                            read_elements(ts, c0, Seq::empty()) == Ok::<
                                (Seq<ExprV>, int),
                                ParseFailure,
                            >((exprs_v(elements@), self.cursor as int)),
                        decreases self.tokens@.len() - self.cursor,
                    {
                        let ghost cc = self.cursor as int;
                        let e = match self.parse_expr(0) {
                            Ok(e) => e,
                            Err(err) => {
                                proof {
                                    assert(read_elements(ts, cc, exprs_v(elements@)) == Err::<
                                        (Seq<ExprV>, int),
                                        ParseFailure,
                                    >(failure_of(err)));
                                    assert(!at(ts, c + 1, Token::RBracket));
                                    assert(read_prefix(ts, c) == Err::<(ExprV, int), ParseFailure>(
                                        failure_of(err),
                                    ));
                                }
                                return Err(err);
                            },
                        };
                        proof {
                            lemma_exprs_v_push(elements@, e);
                        }
                        elements.push(e);
                        if self.match_token(&Token::Comma) {
                            if self.check(&Token::RBracket) {
                                break;
                            }
                            continue;
                        } else {
                            break;
                        }
                    }
                } else {
                    assert(exprs_v(elements@) =~= Seq::<ExprV>::empty());
                }
                let end_span = match self.consume(&Token::RBracket, "']' after array elements") {
                    Ok(sp) => sp,
                    Err(err) => {
                        return Err(err);
                    },
                };
                let span = sp.merge(&end_span);
                Ok(Expr::ArrayLiteral { elements, span })
            },
            Token::Ident(name) => {
                self.advance();
                if self.check(&Token::LParen) {
                    self.advance();
                    let mut args: Vec<Expr> = Vec::new();
                    if !self.check(&Token::RParen) {
                        let ghost c0 = self.cursor as int;
                        loop
                            invariant_except_break
                                read_arguments(ts, c0, Seq::empty()) == read_arguments(
                                    ts,
                                    self.cursor as int,
                                    exprs_v(args@),
                                ),
                            invariant
                                self.tokens == old(self).tokens,
                                ts == self.tokens@,
                                c == old(self).cursor,
                                c0 == c + 2,
                                c < self.cursor <= self.tokens@.len(),
                                0 <= c < ts.len(),
                                ts[c].token is Ident,
                                at(ts, c + 1, Token::LParen),
                                !at(ts, c + 2, Token::RParen),
                            ensures
                                self.tokens == old(self).tokens,
                                c < self.cursor <= self.tokens@.len(),
                                read_arguments(ts, c0, Seq::empty()) == Ok::<
                                    (Seq<ExprV>, int),
                                    ParseFailure,
                                >((exprs_v(args@), self.cursor as int)),
                            decreases self.tokens@.len() - self.cursor,
                        {
                            let ghost cc = self.cursor as int;
                            let e = match self.parse_expr(0) {
                                Ok(e) => e,
                                Err(err) => {
                                    proof {
                                        assert(read_arguments(ts, cc, exprs_v(args@)) == Err::<
                                            (Seq<ExprV>, int),
                                            ParseFailure,
                                        >(failure_of(err)));
                                        assert(read_prefix(ts, c) == Err::<
                                            (ExprV, int),
                                            ParseFailure,
                                        >(failure_of(err)));
                                    }
                                    return Err(err);
                                },
                            };
                            proof {
                                lemma_exprs_v_push(args@, e);
                            }
                            args.push(e);
                            if self.match_token(&Token::Comma) {
                                continue;
                            } else {
                                break;
                            }
                        }
                    } else {
                        assert(exprs_v(args@) =~= Seq::<ExprV>::empty());
                    }
                    let end_span = match self.consume(&Token::RParen, "')' after function arguments") {
                        Ok(sp) => sp,
                        Err(err) => {
                            return Err(err);
                        },
                    };
                    let span = sp.merge(&end_span);
                    Ok(Expr::Call { callee: name.clone(), args, span })
                } else {
                    Ok(Expr::Ident(name.clone(), sp))
                }
            },
            Token::LParen => {
                self.advance();
                let expr = match self.parse_expr(0) {
                    Ok(e) => e,
                    Err(err) => {
                        return Err(err);
                    },
                };
                let end_span = match self.consume(&Token::RParen, "')' after grouped expression") {
                    Ok(sp) => sp,
                    Err(err) => {
                        return Err(err);
                    },
                };
                let span = sp.merge(&end_span);
                Ok(Expr::Group(Box::new(expr), span))
            },
            Token::Minus => {
                self.advance();
                let expr = match self.parse_expr(19) {
                    Ok(e) => e,
                    Err(err) => {
                        return Err(err);
                    },
                };
                proof {
                    lemma_span_of_view(expr);
                }
                let span = sp.merge(&expr.span());
                Ok(Expr::Unary { op: UnaryOp::Neg, expr: Box::new(expr), span })
            },
            Token::Not => {
                self.advance();
                let expr = match self.parse_expr(19) {
                    Ok(e) => e,
                    Err(err) => {
                        return Err(err);
                    },
                };
                proof {
                    lemma_span_of_view(expr);
                }
                let span = sp.merge(&expr.span());
                Ok(Expr::Unary { op: UnaryOp::Not, expr: Box::new(expr), span })
            },
            other => Err(ParseError::InvalidPrefix { found: other.duplicate(), span: sp }),
        }
    }
}

} // verus!
