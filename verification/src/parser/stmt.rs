use vstd::prelude::*;
use crate::ast::{Block, Function, Param, Stmt, Expr};
use crate::parser::{ParseError, Parser, token_is};
use crate::parser::grammar::{
    BlockV, FunctionV, ParamV, ParseFailure, StmtV, array_spelling, at, block_v, expect_name, expect_token,
    failure_of, function_v, index_target_then_assign, lemma_stmts_v_push, param_v, params_v, read_block, read_function, read_param, read_params, read_stmt,
    read_stmts, read_type, starts_assignment, starts_index_assignment, stmt_v, stmts_v,
};
use crate::text::{int_text, push_i64};
use crate::token::Token;
use crate::span::Span;

verus! {

impl<'a> Parser<'a> {
    /// Parses `fn name(params) [-> type] { body }`: exactly `read_function`
    /// at the cursor.
    pub fn parse_function(&mut self) -> (res: Result<Function, ParseError>)
        requires
            old(self).cursor <= old(self).tokens@.len(),
        ensures
            final(self).tokens == old(self).tokens,
            old(self).cursor <= final(self).cursor <= final(self).tokens@.len(),
            res is Ok ==> old(self).cursor < final(self).cursor,
            match res {
                Ok(f) => read_function(old(self).tokens@, old(self).cursor as int) == Ok::<
                    (FunctionV, int),
                    ParseFailure,
                >((function_v(f), final(self).cursor as int)),
                Err(err) => read_function(old(self).tokens@, old(self).cursor as int) == Err::<
                    (FunctionV, int),
                    ParseFailure,
                >(failure_of(err)),
            },
    {
        let ghost ts = self.tokens@;
        let ghost c = self.cursor as int;
        let fn_span = match self.consume(&Token::Fn, "'fn' keyword") {
            Ok(sp) => sp,
            Err(err) => {
                return Err(err);
            },
        };
        let name = match self.peek_token() {
            Some(t) => match &t.token {
                Token::Ident(id) => {
                    self.advance();
                    id.clone()
                },
                other => {
                    return Err(
                        ParseError::UnexpectedToken {
                            found: other.duplicate(),
                            expected: String::from_str("function name"),
                            span: t.span,
                        },
                    );
                },
            },
            None => {
                return Err(
                    ParseError::UnexpectedEof {
                        expected: String::from_str("function name"),
                        span: fn_span,
                    },
                );
            },
        };
        assert(expect_name(ts, c + 1, "function name"@, fn_span) == Ok::<(Seq<char>, int), ParseFailure>(
            (name@, self.cursor as int),
        ));
        match self.consume(&Token::LParen, "'(' after function name") {
            Ok(_) => {},
            Err(err) => {
                return Err(err);
            },
        }
        let params = if !self.check(&Token::RParen) {
            match self.parse_params() {
                Ok(ps) => ps,
                Err(err) => {
                    return Err(err);
                },
            }
        } else {
            let ps: Vec<Param> = Vec::new();
            assert(params_v(ps@) =~= Seq::<ParamV>::empty());
            ps
        };
        match self.consume(&Token::RParen, "')' after parameters") {
            Ok(_) => {},
            Err(err) => {
                return Err(err);
            },
        }
        let mut return_ty: Option<String> = None;
        if self.match_token(&Token::Arrow) {
            let t = match self.parse_type() {
                Ok(t) => t,
                Err(err) => {
                    return Err(err);
                },
            };
            return_ty = Some(t);
        }
        let body = match self.parse_block() {
            Ok(b) => b,
            Err(err) => {
                return Err(err);
            },
        };
        let span = fn_span.merge(&body.span);
        Ok(Function { name, params, return_ty, body, span })
    }

    /// Parses parameters separated by commas: exactly `read_params` at the cursor.
    fn parse_params(&mut self) -> (res: Result<Vec<Param>, ParseError>)
        requires
            old(self).cursor <= old(self).tokens@.len(),
        ensures
            final(self).tokens == old(self).tokens,
            old(self).cursor <= final(self).cursor <= final(self).tokens@.len(),
            res is Ok ==> old(self).cursor < final(self).cursor,
            match res {
                Ok(ps) => read_params(old(self).tokens@, old(self).cursor as int, Seq::empty()) == Ok::<
                    (Seq<ParamV>, int),
                    ParseFailure,
                >((params_v(ps@), final(self).cursor as int)),
                Err(err) => read_params(old(self).tokens@, old(self).cursor as int, Seq::empty())
                    == Err::<(Seq<ParamV>, int), ParseFailure>(failure_of(err)),
            },
    {
        let ghost ts = self.tokens@;
        let ghost c = self.cursor as int;
        let mut params: Vec<Param> = Vec::new();
        assert(params_v(params@) =~= Seq::<ParamV>::empty());
        loop
            invariant_except_break
                read_params(ts, c, Seq::empty()) == read_params(ts, self.cursor as int, params_v(params@)),
            invariant
                self.tokens == old(self).tokens,
                ts == self.tokens@,
                c == old(self).cursor,
                c <= self.cursor <= self.tokens@.len(),
            ensures
                self.tokens == old(self).tokens,
                c < self.cursor <= self.tokens@.len(),
                read_params(ts, c, Seq::empty()) == Ok::<(Seq<ParamV>, int), ParseFailure>(
                    (params_v(params@), self.cursor as int),
                ),
            decreases self.tokens@.len() - self.cursor,
        {
            let ghost cc = self.cursor as int;
            let p = match self.parse_param() {
                Ok(p) => p,
                Err(err) => {
                    proof {
                        assert(read_params(ts, cc, params_v(params@)) == Err::<
                            (Seq<ParamV>, int),
                            ParseFailure,
                        >(failure_of(err)));
                    }
                    return Err(err);
                },
            };
            proof {
                assert(params_v(params@.push(p)) =~= params_v(params@).push(param_v(p)));
            }
            params.push(p);
            if self.match_token(&Token::Comma) {
                continue;
            } else {
                break;
            }
        }
        Ok(params)
    }

    /// Parses `name: type`: exactly `read_param` at the cursor.
    pub fn parse_param(&mut self) -> (res: Result<Param, ParseError>)
        requires
            old(self).cursor <= old(self).tokens@.len(),
        ensures
            final(self).tokens == old(self).tokens,
            old(self).cursor <= final(self).cursor <= final(self).tokens@.len(),
            res is Ok ==> old(self).cursor < final(self).cursor,
            match res {
                Ok(p) => read_param(old(self).tokens@, old(self).cursor as int) == Ok::<
                    (ParamV, int),
                    ParseFailure,
                >((param_v(p), final(self).cursor as int)),
                Err(err) => read_param(old(self).tokens@, old(self).cursor as int) == Err::<
                    (ParamV, int),
                    ParseFailure,
                >(failure_of(err)),
            },
    {
        let (name, name_span) = match self.peek_token() {
            Some(t) => match &t.token {
                Token::Ident(id) => {
                    self.advance();
                    (id.clone(), t.span)
                },
                other => {
                    return Err(
                        ParseError::UnexpectedToken {
                            found: other.duplicate(),
                            expected: String::from_str("parameter name"),
                            span: t.span,
                        },
                    );
                },
            },
            None => {
                return Err(
                    ParseError::UnexpectedEof {
                        expected: String::from_str("parameter name"),
                        span: self.previous_span(),
                    },
                );
            },
        };
        match self.consume(&Token::Colon, "':' after parameter name") {
            Ok(_) => {},
            Err(err) => {
                return Err(err);
            },
        }
        let ty = match self.parse_type() {
            Ok(t) => t,
            Err(err) => {
                return Err(err);
            },
        };
        Ok(Param { name, ty, span: name_span })
    }

    /// Parses `{ stmt* }`: exactly `read_block` at the cursor.
    pub fn parse_block(&mut self) -> (res: Result<Block, ParseError>)
        requires
            old(self).cursor <= old(self).tokens@.len(),
        ensures
            final(self).tokens == old(self).tokens,
            old(self).cursor <= final(self).cursor <= final(self).tokens@.len(),
            res is Ok ==> old(self).cursor < final(self).cursor,
            match res {
                Ok(b) => read_block(old(self).tokens@, old(self).cursor as int) == Ok::<
                    (BlockV, int),
                    ParseFailure,
                >((block_v(b), final(self).cursor as int)),
                Err(err) => read_block(old(self).tokens@, old(self).cursor as int) == Err::<
                    (BlockV, int),
                    ParseFailure,
                >(failure_of(err)),
            },
        decreases old(self).tokens@.len() - old(self).cursor, 2nat,
    {
        let ghost ts = self.tokens@;
        let open_span = match self.consume(&Token::LBrace, "'{' to begin block") {
            Ok(sp) => sp,
            Err(err) => {
                return Err(err);
            },
        };
        let ghost c1 = self.cursor as int;
        let mut stmts: Vec<Stmt> = Vec::new();
        assert(stmts_v(stmts@) =~= Seq::<StmtV>::empty());
        while !self.check(&Token::RBrace) && !self.is_at_end()
            invariant
                self.tokens == old(self).tokens,
                ts == self.tokens@,
                old(self).cursor < c1 <= self.cursor <= self.tokens@.len(),
                expect_token(ts, old(self).cursor as int, Token::LBrace, "'{' to begin block"@) == Ok::<
                    (Span, int),
                    ParseFailure,
                >((open_span, c1)),
                read_stmts(ts, c1, Seq::empty()) == read_stmts(
                    ts,
                    self.cursor as int,
                    stmts_v(stmts@),
                ),
            decreases self.tokens@.len() - self.cursor,
        {
            let ghost cc = self.cursor as int;
            let s = match self.parse_stmt() {
                Ok(s) => s,
                Err(err) => {
                    proof {
                        assert(read_stmts(ts, cc, stmts_v(stmts@)) == Err::<
                            (Seq<StmtV>, int),
                            ParseFailure,
                        >(failure_of(err)));
                    }
                    return Err(err);
                },
            };
            proof {
                lemma_stmts_v_push(stmts@, s);
            }
            stmts.push(s);
        }
        let close_span = match self.consume(&Token::RBrace, "'}' to close block") {
            Ok(sp) => sp,
            Err(err) => {
                return Err(err);
            },
        };
        Ok(Block { stmts, span: open_span.merge(&close_span) })
    }

    /// Parses one statement (`let`, `return`, `break`, `if`, `while`,
    /// assignment, indexed assignment, or an expression followed by `;`):
    /// exactly `read_stmt` at the cursor.
    pub fn parse_stmt(&mut self) -> (res: Result<Stmt, ParseError>)
        requires
            old(self).cursor <= old(self).tokens@.len(),
        ensures
            final(self).tokens == old(self).tokens,
            old(self).cursor <= final(self).cursor <= final(self).tokens@.len(),
            res is Ok ==> old(self).cursor < final(self).cursor,
            match res {
                Ok(s) => read_stmt(old(self).tokens@, old(self).cursor as int) == Ok::<
                    (StmtV, int),
                    ParseFailure,
                >((stmt_v(s), final(self).cursor as int)),
                Err(err) => read_stmt(old(self).tokens@, old(self).cursor as int) == Err::<
                    (StmtV, int),
                    ParseFailure,
                >(failure_of(err)),
            },
        decreases old(self).tokens@.len() - old(self).cursor, 1nat,
    {
        let ghost ts = self.tokens@;
        let ghost c = self.cursor as int;
        if self.check(&Token::Let) {
            let let_span = self.advance().unwrap().span;
            let is_mutable = self.match_token(&Token::Mut);
            let name = match self.peek_token() {
                Some(t) => match &t.token {
                    Token::Ident(id) => {
                        self.advance();
                        id.clone()
                    },
                    other => {
                        return Err(
                            ParseError::UnexpectedToken {
                                found: other.duplicate(),
                                expected: String::from_str("variable name"),
                                span: t.span,
                            },
                        );
                    },
                },
                None => {
                    return Err(
                        ParseError::UnexpectedEof {
                            expected: String::from_str("variable name"),
                            span: let_span,
                        },
                    );
                },
            };
            let mut ty: Option<String> = None;
            if self.match_token(&Token::Colon) {
                let t = match self.parse_type() {
                    Ok(t) => t,
                    Err(err) => {
                        return Err(err);
                    },
                };
                ty = Some(t);
            }
            match self.consume(&Token::Assign, "'=' in variable binding") {
                Ok(_) => {},
                Err(err) => {
                    return Err(err);
                },
            }
            let value = match self.parse_expr(0) {
                Ok(e) => e,
                Err(err) => {
                    return Err(err);
                },
            };
            let semi_span = match self.consume(&Token::Semi, "';' after variable binding") {
                Ok(sp) => sp,
                Err(err) => {
                    return Err(err);
                },
            };
            let span = let_span.merge(&semi_span);
            Ok(Stmt::Let { name, is_mutable, ty, value, span })
        } else if self.check(&Token::Return) {
            let ret_span = self.advance().unwrap().span;
            let mut value: Option<Expr> = None;
            if !self.check(&Token::Semi) {
                let e = match self.parse_expr(0) {
                    Ok(e) => e,
                    Err(err) => {
                        return Err(err);
                    },
                };
                value = Some(e);
            }
            let semi_span = match self.consume(&Token::Semi, "';' after return statement") {
                Ok(sp) => sp,
                Err(err) => {
                    return Err(err);
                },
            };
            let span = ret_span.merge(&semi_span);
            Ok(Stmt::Return(value, span))
        } else if self.check(&Token::Break) {
            let break_span = self.advance().unwrap().span;
            let semi_span = match self.consume(&Token::Semi, "';' after break") {
                Ok(sp) => sp,
                Err(err) => {
                    return Err(err);
                },
            };
            Ok(Stmt::Break(break_span.merge(&semi_span)))
        } else if self.check(&Token::If) {
            let if_span = self.advance().unwrap().span;
            let condition = match self.parse_expr(0) {
                Ok(e) => e,
                Err(err) => {
                    return Err(err);
                },
            };
            let then_branch = match self.parse_block() {
                Ok(b) => b,
                Err(err) => {
                    return Err(err);
                },
            };
            let mut else_branch: Option<Block> = None;
            let mut end_span = then_branch.span;
            if self.match_token(&Token::Else) {
                let else_block = match self.parse_block() {
                    Ok(b) => b,
                    Err(err) => {
                        return Err(err);
                    },
                };
                end_span = else_block.span;
                else_branch = Some(else_block);
            }
            let span = if_span.merge(&end_span);
            Ok(Stmt::If { condition, then_branch, else_branch, span })
        } else if self.check(&Token::While) {
            let while_span = self.advance().unwrap().span;
            let condition = match self.parse_expr(0) {
                Ok(e) => e,
                Err(err) => {
                    return Err(err);
                },
            };
            let body = match self.parse_block() {
                Ok(b) => b,
                Err(err) => {
                    return Err(err);
                },
            };
            let span = while_span.merge(&body.span);
            Ok(Stmt::While { condition, body, span })
        } else if self.is_simple_assignment() {
            let id_token = self.advance().unwrap();
            let name = match &id_token.token {
                Token::Ident(id) => id.clone(),
                _ => String::new(),
            };
            let start_span = id_token.span;
            match self.consume(&Token::Assign, "'=' in assignment") {
                Ok(_) => {},
                Err(err) => {
                    return Err(err);
                },
            }
            let value = match self.parse_expr(0) {
                Ok(e) => e,
                Err(err) => {
                    return Err(err);
                },
            };
            let semi_span = match self.consume(&Token::Semi, "';' after assignment") {
                Ok(sp) => sp,
                Err(err) => {
                    return Err(err);
                },
            };
            let span = start_span.merge(&semi_span);
            Ok(Stmt::Assign { name, value, span })
        } else if self.is_index_assignment() {
            let id_token = self.advance().unwrap();
            let name = match &id_token.token {
                Token::Ident(id) => id.clone(),
                _ => String::new(),
            };
            let start_span = id_token.span;
            match self.consume(&Token::LBracket, "'[' in array index assignment") {
                Ok(_) => {},
                Err(err) => {
                    return Err(err);
                },
            }
            let index = match self.parse_expr(0) {
                Ok(e) => e,
                Err(err) => {
                    return Err(err);
                },
            };
            match self.consume(&Token::RBracket, "']' in array index assignment") {
                Ok(_) => {},
                Err(err) => {
                    return Err(err);
                },
            }
            match self.consume(&Token::Assign, "'=' in array element assignment") {
                Ok(_) => {},
                Err(err) => {
                    return Err(err);
                },
            }
            let value = match self.parse_expr(0) {
                Ok(e) => e,
                Err(err) => {
                    return Err(err);
                },
            };
            let semi_span = match self.consume(&Token::Semi, "';' after assignment") {
                Ok(sp) => sp,
                Err(err) => {
                    return Err(err);
                },
            };
            let span = start_span.merge(&semi_span);
            Ok(Stmt::IndexAssign { target: name, index, value, span })
        } else {
            let expr = match self.parse_expr(0) {
                Ok(e) => e,
                Err(err) => {
                    return Err(err);
                },
            };
            match self.consume(&Token::Semi, "';' after expression statement") {
                Ok(_) => {},
                Err(err) => {
                    return Err(err);
                },
            }
            Ok(Stmt::Expr(expr))
        }
    }

    /// Parses a type, a name or `[T; N]`, returned as its spelling: exactly
    /// `read_type` at the cursor.
    pub fn parse_type(&mut self) -> (res: Result<String, ParseError>)
        requires
            old(self).cursor <= old(self).tokens@.len(),
        ensures
            final(self).tokens == old(self).tokens,
            old(self).cursor <= final(self).cursor <= final(self).tokens@.len(),
            res is Ok ==> old(self).cursor < final(self).cursor,
            match res {
                Ok(t) => read_type(old(self).tokens@, old(self).cursor as int) == Ok::<
                    (Seq<char>, int),
                    ParseFailure,
                >((t@, final(self).cursor as int)),
                Err(err) => read_type(old(self).tokens@, old(self).cursor as int) == Err::<
                    (Seq<char>, int),
                    ParseFailure,
                >(failure_of(err)),
            },
        decreases old(self).tokens@.len() - old(self).cursor,
    {
        match self.peek_token() {
            Some(t) => match &t.token {
                Token::Ident(id) => {
                    self.advance();
                    Ok(id.clone())
                },
                Token::LBracket => {
                    self.advance();
                    let elem_ty = match self.parse_type() {
                        Ok(t) => t,
                        Err(err) => {
                            return Err(err);
                        },
                    };
                    match self.consume(&Token::Semi, "';' in array type [T; N]") {
                        Ok(_) => {},
                        Err(err) => {
                            return Err(err);
                        },
                    }
                    let len = match self.peek_token() {
                        Some(t2) => match &t2.token {
                            Token::IntLiteral(n) => {
                                self.advance();
                                *n
                            },
                            other => {
                                return Err(
                                    ParseError::UnexpectedToken {
                                        found: other.duplicate(),
                                        expected: String::from_str("array length integer"),
                                        span: t2.span,
                                    },
                                );
                            },
                        },
                        None => {
                            return Err(
                                ParseError::UnexpectedEof {
                                    expected: String::from_str("array length integer"),
                                    span: self.previous_span(),
                                },
                            );
                        },
                    };
                    match self.consume(&Token::RBracket, "']' after array type") {
                        Ok(_) => {},
                        Err(err) => {
                            return Err(err);
                        },
                    }
                    Ok(array_type_text(elem_ty.as_str(), len))
                },
                other => Err(
                    ParseError::UnexpectedToken {
                        found: other.duplicate(),
                        expected: String::from_str("type identifier or array type"),
                        span: t.span,
                    },
                ),
            },
            None => Err(
                ParseError::UnexpectedEof {
                    expected: String::from_str("type identifier or array type"),
                    span: self.previous_span(),
                },
            ),
        }
    }

    /// An identifier followed by `=` (a plain assignment) starts here.
    fn is_simple_assignment(&self) -> (b: bool)
        ensures
            b == starts_assignment(self.tokens@, self.cursor as int),
    {
        self.cursor < self.tokens.len() && self.cursor + 1 < self.tokens.len() && matches!(
            self.tokens[self.cursor].token,
            Token::Ident(_)
        ) && token_is(&self.tokens[self.cursor + 1].token, &Token::Assign)
    }

    /// An indexed assignment `name[...] = ...` starts here: an identifier, then a
    /// bracketed index whose matching `]` is followed by `=`, with no `;` before it.
    pub fn is_index_assignment(&self) -> (b: bool)
        ensures
            b == starts_index_assignment(self.tokens@, self.cursor as int),
    {
        let ghost ts = self.tokens@;
        if self.cursor >= self.tokens.len() {
            return false;
        }
        if !matches!(self.tokens[self.cursor].token, Token::Ident(_)) {
            return false;
        }
        if self.cursor + 1 >= self.tokens.len() || !token_is(
            &self.tokens[self.cursor + 1].token,
            &Token::LBracket,
        ) {
            return false;
        }
        let mut depth: usize = 0;
        let mut i = self.cursor + 1;
        while i < self.tokens.len()
            invariant
                ts == self.tokens@,
                self.cursor + 1 <= i <= self.tokens@.len(),
                depth <= i - self.cursor - 1,
                i > self.cursor + 1 ==> depth > 0,
                self.tok(self.cursor + 1) == Token::LBracket,
                self.tok(self.cursor as int) is Ident,
                self.cursor + 1 < self.tokens@.len(),
                index_target_then_assign(ts, self.cursor + 1, 0) == index_target_then_assign(
                    ts,
                    i as int,
                    depth as int,
                ),
            decreases self.tokens@.len() - i,
        {
            let t = &self.tokens[i].token;
            if token_is(t, &Token::LBracket) {
                depth = depth + 1;
            } else if token_is(t, &Token::RBracket) {
                depth = depth - 1;
                if depth == 0 {
                    return i + 1 < self.tokens.len() && token_is(
                        &self.tokens[i + 1].token,
                        &Token::Assign,
                    );
                }
            } else if token_is(t, &Token::Semi) {
                return false;
            }
            i += 1;
        }
        false
    }
}

/// The spelling `[elem; len]` of an array type.
pub fn array_type_text(elem: &str, len: i64) -> (s: String)
    ensures
        s@ == array_spelling(elem@, len),
{
    let mut s = String::new();
    proof {
        reveal_strlit("[");
        reveal_strlit("; ");
        reveal_strlit("]");
    }
    s.append("[");
    s.append(elem);
    s.append("; ");
    push_i64(&mut s, len);
    s.append("]");
    assert(s@ =~= seq!['['] + elem@ + seq![';', ' '] + int_text(len as int) + seq![']']);
    s
}

} // verus!
