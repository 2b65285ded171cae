pub mod expr;
pub mod stmt;
pub mod grammar;

use vstd::prelude::*;
use crate::ast::{Expr, Program, Function};
use crate::span::Span;
use crate::token::{SpannedToken, Token};
use crate::parser::grammar::{
    ExprV, FunctionV, ParseFailure, expect_token, expr_v, failure_of, function_v, functions_v,
    read_functions, read_program, read_whole_expr,
};

verus! {

#[derive(Debug, PartialEq)]
pub enum ParseError {
    UnexpectedEof { expected: String, span: Span },
    UnexpectedToken { found: Token, expected: String, span: Span },
    InvalidPrefix { found: Token, span: Span },
}

/// A token with no payload (keyword, operator or delimiter).
pub open spec fn is_fixed(t: Token) -> bool {
    !(t is Ident) && !(t is IntLiteral) && !(t is FloatLiteral)
}

/// Recursive-descent / Pratt parser over a token slice.
pub struct Parser<'a> {
    pub tokens: &'a [SpannedToken],
    pub cursor: usize,
}

/// `a == b`, where `b` carries no payload.
pub fn token_is(a: &Token, b: &Token) -> (r: bool)
    requires
        is_fixed(*b),
    ensures
        r == (*a == *b),
{
    match b {
        Token::Fn => matches!(a, Token::Fn),
        Token::Let => matches!(a, Token::Let),
        Token::Mut => matches!(a, Token::Mut),
        Token::Return => matches!(a, Token::Return),
        Token::If => matches!(a, Token::If),
        Token::Else => matches!(a, Token::Else),
        Token::While => matches!(a, Token::While),
        Token::For => matches!(a, Token::For),
        Token::Break => matches!(a, Token::Break),
        Token::True => matches!(a, Token::True),
        Token::False => matches!(a, Token::False),
        Token::Plus => matches!(a, Token::Plus),
        Token::Minus => matches!(a, Token::Minus),
        Token::Star => matches!(a, Token::Star),
        Token::StarStar => matches!(a, Token::StarStar),
        Token::Slash => matches!(a, Token::Slash),
        Token::Percent => matches!(a, Token::Percent),
        Token::Caret => matches!(a, Token::Caret),
        Token::Ampersand => matches!(a, Token::Ampersand),
        Token::Pipe => matches!(a, Token::Pipe),
        Token::Shl => matches!(a, Token::Shl),
        Token::Shr => matches!(a, Token::Shr),
        Token::Assign => matches!(a, Token::Assign),
        Token::Eq => matches!(a, Token::Eq),
        Token::Ne => matches!(a, Token::Ne),
        Token::Lt => matches!(a, Token::Lt),
        Token::Le => matches!(a, Token::Le),
        Token::Gt => matches!(a, Token::Gt),
        Token::Ge => matches!(a, Token::Ge),
        Token::Not => matches!(a, Token::Not),
        Token::Arrow => matches!(a, Token::Arrow),
        Token::LParen => matches!(a, Token::LParen),
        Token::RParen => matches!(a, Token::RParen),
        Token::LBrace => matches!(a, Token::LBrace),
        Token::RBrace => matches!(a, Token::RBrace),
        Token::LBracket => matches!(a, Token::LBracket),
        Token::RBracket => matches!(a, Token::RBracket),
        Token::Comma => matches!(a, Token::Comma),
        Token::Colon => matches!(a, Token::Colon),
        Token::Semi => matches!(a, Token::Semi),
        Token::Ident(_) => false,
        Token::IntLiteral(_) => false,
        Token::FloatLiteral(_) => false,
    }
}

impl<'a> Parser<'a> {
    pub open spec fn len(&self) -> nat {
        self.tokens@.len()
    }

    /// The parser is positioned on a token equal to `t`.
    pub open spec fn at_token(&self, t: Token) -> bool {
        self.cursor < self.tokens@.len() && self.tokens@[self.cursor as int].token == t
    }

    /// The token at position `i`.
    pub open spec fn tok(&self, i: int) -> Token {
        self.tokens@[i].token
    }

    pub fn new(tokens: &'a [SpannedToken]) -> (p: Self)
        ensures
            p.tokens == tokens,
            p.cursor == 0,
    {
        Parser { tokens, cursor: 0 }
    }

    pub fn is_at_end(&self) -> (b: bool)
        ensures
            b == (self.cursor >= self.tokens@.len()),
    {
        self.cursor >= self.tokens.len()
    }

    pub fn peek_token(&self) -> (r: Option<&'a SpannedToken>)
        ensures
            self.cursor < self.tokens@.len() ==> r == Some(&self.tokens@[self.cursor as int]),
            self.cursor >= self.tokens@.len() ==> r.is_none(),
    {
        if self.cursor < self.tokens.len() {
            Some(&self.tokens[self.cursor])
        } else {
            None
        }
    }

    pub fn peek(&self) -> (r: Option<&'a Token>)
        ensures
            self.cursor < self.tokens@.len() ==> r == Some(&self.tokens@[self.cursor as int].token),
            self.cursor >= self.tokens@.len() ==> r.is_none(),
    {
        if self.cursor < self.tokens.len() {
            Some(&self.tokens[self.cursor].token)
        } else {
            None
        }
    }

    /// Whether the current token is `t` (which carries no payload).
    pub fn check(&self, t: &Token) -> (b: bool)
        requires
            is_fixed(*t),
        ensures
            b == self.at_token(*t),
    {
        if self.cursor < self.tokens.len() {
            token_is(&self.tokens[self.cursor].token, t)
        } else {
            false
        }
    }

    /// Moves past the current token and returns it.
    pub fn advance(&mut self) -> (r: Option<&'a SpannedToken>)
        ensures
            final(self).tokens == old(self).tokens,
            old(self).cursor < old(self).tokens@.len() ==> {
                &&& r == Some(&old(self).tokens@[old(self).cursor as int])
                &&& final(self).cursor == old(self).cursor + 1
            },
            old(self).cursor >= old(self).tokens@.len() ==> {
                &&& r.is_none()
                &&& final(self).cursor == old(self).cursor
            },
    {
        if self.cursor < self.tokens.len() {
            let t = &self.tokens[self.cursor];
            self.cursor = self.cursor + 1;
            Some(t)
        } else {
            None
        }
    }

    /// Consumes the current token when it is `t`.
    pub fn match_token(&mut self, t: &Token) -> (b: bool)
        requires
            is_fixed(*t),
        ensures
            final(self).tokens == old(self).tokens,
            b == old(self).at_token(*t),
            final(self).cursor == (if b { old(self).cursor + 1 } else { old(self).cursor as int }),
    {
        if self.cursor < self.tokens.len() && token_is(&self.tokens[self.cursor].token, t) {
            self.cursor = self.cursor + 1;
            true
        } else {
            false
        }
    }

    /// The span of the most recently consumed token (an empty span at the start).
    pub fn previous_span(&self) -> (s: Span)
        ensures
            0 < self.cursor <= self.tokens@.len() ==> s == self.tokens@[self.cursor - 1].span,
            !(0 < self.cursor <= self.tokens@.len()) ==> s == (Span { start: 0, end: 0 }),
    {
        if self.cursor > 0 && self.cursor <= self.tokens.len() {
            self.tokens[self.cursor - 1].span
        } else {
            Span { start: 0, end: 0 }
        }
    }

    /// Consumes the token `t` and returns its span, or reports what was found
    /// instead: exactly `expect_token` at the cursor.
    pub fn consume(&mut self, t: &Token, expected: &str) -> (res: Result<Span, ParseError>)
        requires
            is_fixed(*t),
        ensures
            final(self).tokens == old(self).tokens,
            old(self).at_token(*t) ==> {
                &&& res == Ok::<Span, ParseError>(old(self).tokens@[old(self).cursor as int].span)
                &&& final(self).cursor == old(self).cursor + 1
            },
            !old(self).at_token(*t) ==> final(self).cursor == old(self).cursor,
            match res {
                Ok(sp) => expect_token(old(self).tokens@, old(self).cursor as int, *t, expected@) == Ok::<
                    (Span, int),
                    ParseFailure,
                >((sp, final(self).cursor as int)),
                Err(e) => expect_token(old(self).tokens@, old(self).cursor as int, *t, expected@) == Err::<
                    (Span, int),
                    ParseFailure,
                >(failure_of(e)),
            },
    {
        if self.cursor < self.tokens.len() {
            let st = &self.tokens[self.cursor];
            if token_is(&st.token, t) {
                self.cursor = self.cursor + 1;
                Ok(st.span)
            } else {
                Err(
                    ParseError::UnexpectedToken {
                        found: st.token.duplicate(),
                        expected: String::from_str(expected),
                        span: st.span,
                    },
                )
            }
        } else {
            Err(
                ParseError::UnexpectedEof {
                    expected: String::from_str(expected),
                    span: self.previous_span(),
                },
            )
        }
    }
}

/// Parses a whole program, a sequence of function definitions: exactly
/// `read_program` on the tokens.
pub fn parse(tokens: &[SpannedToken]) -> (res: Result<Program, ParseError>)
    ensures
        match res {
            Ok(p) => read_program(tokens@) == Ok::<Seq<FunctionV>, ParseFailure>(
                functions_v(p.functions@),
            ),
            Err(err) => read_program(tokens@) == Err::<Seq<FunctionV>, ParseFailure>(failure_of(err)),
        },
{
    let mut parser = Parser::new(tokens);
    let mut functions: Vec<Function> = Vec::new();
    assert(functions_v(functions@) =~= Seq::<FunctionV>::empty());
    while !parser.is_at_end()
        invariant
            parser.tokens == tokens,
            parser.cursor <= tokens@.len(),
            read_program(tokens@) == read_functions(tokens@, parser.cursor as int, functions_v(functions@)),
        decreases tokens@.len() - parser.cursor,
    {
        let f = match parser.parse_function() {
            Ok(f) => f,
            Err(err) => {
                return Err(err);
            },
        };
        proof {
            assert(functions_v(functions@.push(f)) =~= functions_v(functions@).push(function_v(f)));
        }
        functions.push(f);
    }
    Ok(Program { functions })
}

/// Parses a single expression that spans all of `tokens`: exactly
/// `read_whole_expr` on the tokens.
pub fn parse_expr_str(tokens: &[SpannedToken]) -> (res: Result<Expr, ParseError>)
    ensures
        match res {
            Ok(e) => read_whole_expr(tokens@) == Ok::<ExprV, ParseFailure>(expr_v(e)),
            Err(err) => read_whole_expr(tokens@) == Err::<ExprV, ParseFailure>(failure_of(err)),
        },
{
    let mut parser = Parser::new(tokens);
    let e = match parser.parse_expr(0) {
        Ok(e) => e,
        Err(err) => {
            return Err(err);
        },
    };
    if parser.is_at_end() {
        Ok(e)
    } else {
        let st = &tokens[parser.cursor];
        Err(
            ParseError::UnexpectedToken {
                found: st.token.duplicate(),
                expected: String::from_str("end of input"),
                span: st.span,
            },
        )
    }
}

} // verus!
