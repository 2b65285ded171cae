use vstd::prelude::*;
use crate::span::Span;

verus! {

/// The lexical tokens of numlang.
#[derive(Debug, Clone, PartialEq)]
pub enum Token {
    Fn,
    Let,
    Mut,
    Return,
    If,
    Else,
    While,
    For,
    Break,
    True,
    False,
    Ident(String),
    IntLiteral(i64),
    /// A decimal literal with a fractional part, kept as its source text.
    FloatLiteral(String),
    Plus,
    Minus,
    Star,
    StarStar,
    Slash,
    Percent,
    Caret,
    Ampersand,
    Pipe,
    Shl,
    Shr,
    Assign,
    Eq,
    Ne,
    Lt,
    Le,
    Gt,
    Ge,
    Not,
    Arrow,
    LParen,
    RParen,
    LBrace,
    RBrace,
    LBracket,
    RBracket,
    Comma,
    Colon,
    Semi,
}

/// A token together with the source positions it was read from.
#[derive(Debug, Clone, PartialEq)]
pub struct SpannedToken {
    pub token: Token,
    pub span: Span,
}

#[derive(Debug, Clone, PartialEq)]
pub enum LexError {
    InvalidToken(Span),
}

// ---------------------------------------------------------------------------
// Character classes and the lexical grammar
// ---------------------------------------------------------------------------

pub open spec fn is_digit(c: char) -> bool {
    '0' <= c && c <= '9'
}

pub open spec fn is_alpha(c: char) -> bool {
    ('a' <= c && c <= 'z') || ('A' <= c && c <= 'Z') || c == '_'
}

pub open spec fn is_word_char(c: char) -> bool {
    is_alpha(c) || is_digit(c)
}

pub open spec fn is_space(c: char) -> bool {
    c == ' ' || c == '\t' || c == '\n' || c == '\r'
}

pub open spec fn digit_val(c: char) -> int {
    (c as int) - ('0' as int)
}

pub open spec fn all_digits(s: Seq<char>) -> bool {
    forall|i: int| 0 <= i < s.len() ==> is_digit(#[trigger] s[i])
}

/// The value of a decimal digit string.
pub open spec fn digits_value(s: Seq<char>) -> int
    decreases s.len(),
{
    if s.len() == 0 {
        0
    } else {
        digits_value(s.drop_last()) * 10 + digit_val(s.last())
    }
}

/// An identifier or keyword: a letter or `_` followed by letters, digits or `_`.
pub open spec fn is_word(s: Seq<char>) -> bool {
    &&& s.len() > 0
    &&& is_alpha(s[0])
    &&& forall|i: int| 0 <= i < s.len() ==> is_word_char(#[trigger] s[i])
}

/// `s` is `digits '.' digits`, with the dot at position `d`.
pub open spec fn float_split(s: Seq<char>, d: int) -> bool {
    &&& 0 < d < s.len() - 1
    &&& s[d] == '.'
    &&& all_digits(s.subrange(0, d))
    &&& all_digits(s.subrange(d + 1, s.len() as int))
}

pub open spec fn is_float_text(s: Seq<char>) -> bool {
    exists|d: int| #[trigger] float_split(s, d)
}

/// The keyword spelled by `s`, if any.
pub open spec fn keyword_of(s: Seq<char>) -> Option<Token> {
    if s.len() == 2 && s[0] == 'f' && s[1] == 'n' {
        Some(Token::Fn)
    } else if s.len() == 2 && s[0] == 'i' && s[1] == 'f' {
        Some(Token::If)
    } else if s.len() == 3 && s[0] == 'l' && s[1] == 'e' && s[2] == 't' {
        Some(Token::Let)
    } else if s.len() == 3 && s[0] == 'm' && s[1] == 'u' && s[2] == 't' {
        Some(Token::Mut)
    } else if s.len() == 3 && s[0] == 'f' && s[1] == 'o' && s[2] == 'r' {
        Some(Token::For)
    } else if s.len() == 4 && s[0] == 'e' && s[1] == 'l' && s[2] == 's' && s[3] == 'e' {
        Some(Token::Else)
    } else if s.len() == 4 && s[0] == 't' && s[1] == 'r' && s[2] == 'u' && s[3] == 'e' {
        Some(Token::True)
    } else if s.len() == 5 && s[0] == 'w' && s[1] == 'h' && s[2] == 'i' && s[3] == 'l' && s[4]
        == 'e' {
        Some(Token::While)
    } else if s.len() == 5 && s[0] == 'f' && s[1] == 'a' && s[2] == 'l' && s[3] == 's' && s[4]
        == 'e' {
        Some(Token::False)
    } else if s.len() == 5 && s[0] == 'b' && s[1] == 'r' && s[2] == 'e' && s[3] == 'a' && s[4]
        == 'k' {
        Some(Token::Break)
    } else if s.len() == 6 && s[0] == 'r' && s[1] == 'e' && s[2] == 't' && s[3] == 'u' && s[4]
        == 'r' && s[5] == 'n' {
        Some(Token::Return)
    } else {
        None
    }
}

/// The single-character operator or delimiter `c`, if any.
pub open spec fn punct1_of(c: char) -> Option<Token> {
    if c == '+' {
        Some(Token::Plus)
    } else if c == '-' {
        Some(Token::Minus)
    } else if c == '*' {
        Some(Token::Star)
    } else if c == '/' {
        Some(Token::Slash)
    } else if c == '%' {
        Some(Token::Percent)
    } else if c == '^' {
        Some(Token::Caret)
    } else if c == '&' {
        Some(Token::Ampersand)
    } else if c == '|' {
        Some(Token::Pipe)
    } else if c == '=' {
        Some(Token::Assign)
    } else if c == '<' {
        Some(Token::Lt)
    } else if c == '>' {
        Some(Token::Gt)
    } else if c == '!' {
        Some(Token::Not)
    } else if c == '(' {
        Some(Token::LParen)
    } else if c == ')' {
        Some(Token::RParen)
    } else if c == '{' {
        Some(Token::LBrace)
    } else if c == '}' {
        Some(Token::RBrace)
    } else if c == '[' {
        Some(Token::LBracket)
    } else if c == ']' {
        Some(Token::RBracket)
    } else if c == ',' {
        Some(Token::Comma)
    } else if c == ':' {
        Some(Token::Colon)
    } else if c == ';' {
        Some(Token::Semi)
    } else {
        None
    }
}

/// The two-character operator spelled by `a` then `b`, if any.
pub open spec fn punct2_of(a: char, b: char) -> Option<Token> {
    if a == '=' && b == '=' {
        Some(Token::Eq)
    } else if a == '!' && b == '=' {
        Some(Token::Ne)
    } else if a == '<' && b == '=' {
        Some(Token::Le)
    } else if a == '>' && b == '=' {
        Some(Token::Ge)
    } else if a == '<' && b == '<' {
        Some(Token::Shl)
    } else if a == '>' && b == '>' {
        Some(Token::Shr)
    } else if a == '*' && b == '*' {
        Some(Token::StarStar)
    } else if a == '-' && b == '>' {
        Some(Token::Arrow)
    } else {
        None
    }
}

pub open spec fn punct_of(s: Seq<char>) -> Option<Token> {
    if s.len() == 1 {
        punct1_of(s[0])
    } else if s.len() == 2 {
        punct2_of(s[0], s[1])
    } else {
        None
    }
}

/// `t` is a faithful reading of the source text `s` that it was taken from.
pub open spec fn token_reads(t: Token, s: Seq<char>) -> bool {
    match t {
        Token::Ident(name) => name@ == s && is_word(s) && keyword_of(s).is_none(),
        Token::IntLiteral(n) => s.len() > 0 && all_digits(s) && digits_value(s) == n,
        Token::FloatLiteral(text) => text@ == s && is_float_text(s),
        _ => keyword_of(s) == Some(t) || punct_of(s) == Some(t),
    }
}

/// Position `p` lies in a line comment that starts at `q`.
pub open spec fn comment_covers(src: Seq<char>, q: int, p: int) -> bool {
    &&& 0 <= q
    &&& q + 1 < src.len()
    &&& src[q] == '/'
    &&& src[q + 1] == '/'
    &&& q <= p < src.len()
    &&& forall|k: int| q <= k <= p ==> #[trigger] src[k] != '\n'
}

/// Position `p` is whitespace or part of a comment.
pub open spec fn skipped(src: Seq<char>, p: int) -> bool {
    is_space(src[p]) || exists|q: int| #[trigger] comment_covers(src, q, p)
}

pub open spec fn gap_start(toks: Seq<SpannedToken>, i: int) -> int {
    if i == 0 {
        0
    } else {
        toks[i - 1].span.end as int
    }
}

pub open spec fn last_end(toks: Seq<SpannedToken>) -> int {
    gap_start(toks, toks.len() as int)
}

/// Every token of `toks` reads its span, the spans are ordered, and the text
/// before each token (back to the previous one) is whitespace or comment.
pub open spec fn lexed_prefix(src: Seq<char>, toks: Seq<SpannedToken>) -> bool {
    &&& forall|i: int|
        0 <= i < toks.len() ==> {
            &&& (#[trigger] toks[i]).span.start < toks[i].span.end <= src.len()
            &&& gap_start(toks, i) <= toks[i].span.start
            &&& token_reads(
                toks[i].token,
                src.subrange(toks[i].span.start as int, toks[i].span.end as int),
            )
        }
    &&& forall|i: int, p: int|
        0 <= i < toks.len() && gap_start(toks, i) <= p < (#[trigger] toks[i]).span.start
            ==> #[trigger] skipped(src, p)
}

/// `toks` is the token sequence of `src`: every token reads its span, spans are
/// ordered and disjoint, and everything between them is whitespace or comment.
pub open spec fn tokens_of(src: Seq<char>, toks: Seq<SpannedToken>) -> bool {
    &&& lexed_prefix(src, toks)
    &&& last_end(toks) <= src.len()
    &&& forall|p: int| last_end(toks) <= p < src.len() ==> #[trigger] skipped(src, p)
}

// ---------------------------------------------------------------------------
// The lexer as a function of the source: longest match, left to right
// ---------------------------------------------------------------------------

/// The first position at or after `p` that does not hold a letter, digit or `_`.
pub open spec fn word_end(src: Seq<char>, p: int) -> int
    decreases src.len() - p,
{
    if 0 <= p < src.len() && is_word_char(src[p]) {
        word_end(src, p + 1)
    } else {
        p
    }
}

/// The first position at or after `p` that does not hold a digit.
pub open spec fn digits_end(src: Seq<char>, p: int) -> int
    decreases src.len() - p,
{
    if 0 <= p < src.len() && is_digit(src[p]) {
        digits_end(src, p + 1)
    } else {
        p
    }
}

/// The first position at or after `p` that holds a newline, or the end.
pub open spec fn line_end(src: Seq<char>, p: int) -> int
    decreases src.len() - p,
{
    if 0 <= p < src.len() && src[p] != '\n' {
        line_end(src, p + 1)
    } else {
        p
    }
}

pub proof fn lemma_word_end_bounds(src: Seq<char>, p: int)
    ensures
        p <= word_end(src, p),
        0 <= p <= src.len() ==> word_end(src, p) <= src.len(),
    decreases src.len() - p,
{
    if 0 <= p < src.len() && is_word_char(src[p]) {
        lemma_word_end_bounds(src, p + 1);
    }
}

pub proof fn lemma_digits_end_bounds(src: Seq<char>, p: int)
    ensures
        p <= digits_end(src, p),
        0 <= p <= src.len() ==> digits_end(src, p) <= src.len(),
    decreases src.len() - p,
{
    if 0 <= p < src.len() && is_digit(src[p]) {
        lemma_digits_end_bounds(src, p + 1);
    }
}

pub proof fn lemma_line_end_bounds(src: Seq<char>, p: int)
    ensures
        p <= line_end(src, p),
        0 <= p <= src.len() ==> line_end(src, p) <= src.len(),
    decreases src.len() - p,
{
    if 0 <= p < src.len() && src[p] != '\n' {
        lemma_line_end_bounds(src, p + 1);
    }
}

/// The span of the token that starts at `pos`, by longest match, or `None`
/// when no token starts there.  A number that does not fit in an `i64` is
/// no token either.
pub open spec fn token_span_at(src: Seq<char>, pos: int) -> Option<(int, int)> {
    let c = src[pos];
    if is_alpha(c) {
        Some((pos, word_end(src, pos + 1)))
    } else if is_digit(c) {
        let ie = digits_end(src, pos + 1);
        if ie + 1 < src.len() && src[ie] == '.' && is_digit(src[ie + 1]) {
            Some((pos, digits_end(src, ie + 2)))
        } else if digits_value(src.subrange(pos, ie)) > i64::MAX {
            None
        } else {
            Some((pos, ie))
        }
    } else if pos + 1 < src.len() && punct2_of(c, src[pos + 1]).is_some() {
        Some((pos, pos + 2))
    } else if punct1_of(c).is_some() {
        Some((pos, pos + 1))
    } else {
        None
    }
}

/// The span reported when no token starts at `pos`: the whole number for
/// one too large, else the one character.
pub open spec fn bad_span_at(src: Seq<char>, pos: int) -> (int, int) {
    if is_digit(src[pos]) {
        (pos, digits_end(src, pos + 1))
    } else {
        (pos, pos + 1)
    }
}

/// `prefix` put in front of the spans of a lexing outcome.
pub open spec fn prefix_outcome(
    prefix: Seq<(int, int)>,
    o: Result<Seq<(int, int)>, (int, int)>,
) -> Result<Seq<(int, int)>, (int, int)> {
    match o {
        Ok(rest) => Ok(prefix + rest),
        Err(e) => Err(e),
    }
}

/// Lexing `src` from `pos` on: the spans of the tokens, in order, or the span
/// of the first place where no token starts.  Whitespace and `//` comments
/// (up to the end of their line) are passed over.
pub open spec fn lex_from(src: Seq<char>, pos: int) -> Result<Seq<(int, int)>, (int, int)>
    decreases src.len() - pos,
{
    if pos < 0 || pos >= src.len() {
        Ok(Seq::empty())
    } else if is_space(src[pos]) {
        lex_from(src, pos + 1)
    } else if src[pos] == '/' && pos + 1 < src.len() && src[pos + 1] == '/' {
        proof {
            lemma_line_end_bounds(src, pos + 1);
        }
        lex_from(src, line_end(src, pos))
    } else {
        match token_span_at(src, pos) {
            Some(sp) => {
                proof {
                    lemma_word_end_bounds(src, pos + 1);
                    lemma_digits_end_bounds(src, pos + 1);
                    lemma_digits_end_bounds(src, digits_end(src, pos + 1) + 2);
                }
                prefix_outcome(seq![sp], lex_from(src, sp.1))
            },
            None => Err(bad_span_at(src, pos)),
        }
    }
}

/// The spans of a token sequence.
pub open spec fn spans_of(toks: Seq<SpannedToken>) -> Seq<(int, int)> {
    toks.map_values(|t: SpannedToken| (t.span.start as int, t.span.end as int))
}

// ---------------------------------------------------------------------------
// Executable lexer
// ---------------------------------------------------------------------------

impl Token {
    /// A copy of the token.
    pub fn duplicate(&self) -> (t: Token)
        ensures
            t == *self,
    {
        match self {
            Token::Ident(s) => Token::Ident(s.clone()),
            Token::FloatLiteral(s) => Token::FloatLiteral(s.clone()),
            Token::IntLiteral(n) => Token::IntLiteral(*n),
            Token::Fn => Token::Fn,
            Token::Let => Token::Let,
            Token::Mut => Token::Mut,
            Token::Return => Token::Return,
            Token::If => Token::If,
            Token::Else => Token::Else,
            Token::While => Token::While,
            Token::For => Token::For,
            Token::Break => Token::Break,
            Token::True => Token::True,
            Token::False => Token::False,
            Token::Plus => Token::Plus,
            Token::Minus => Token::Minus,
            Token::Star => Token::Star,
            Token::StarStar => Token::StarStar,
            Token::Slash => Token::Slash,
            Token::Percent => Token::Percent,
            Token::Caret => Token::Caret,
            Token::Ampersand => Token::Ampersand,
            Token::Pipe => Token::Pipe,
            Token::Shl => Token::Shl,
            Token::Shr => Token::Shr,
            Token::Assign => Token::Assign,
            Token::Eq => Token::Eq,
            Token::Ne => Token::Ne,
            Token::Lt => Token::Lt,
            Token::Le => Token::Le,
            Token::Gt => Token::Gt,
            Token::Ge => Token::Ge,
            Token::Not => Token::Not,
            Token::Arrow => Token::Arrow,
            Token::LParen => Token::LParen,
            Token::RParen => Token::RParen,
            Token::LBrace => Token::LBrace,
            Token::RBrace => Token::RBrace,
            Token::LBracket => Token::LBracket,
            Token::RBracket => Token::RBracket,
            Token::Comma => Token::Comma,
            Token::Colon => Token::Colon,
            Token::Semi => Token::Semi,
        }
    }
}

fn char_is_digit(c: char) -> (b: bool)
    ensures
        b == is_digit(c),
{
    '0' <= c && c <= '9'
}

fn char_is_alpha(c: char) -> (b: bool)
    ensures
        b == is_alpha(c),
{
    ('a' <= c && c <= 'z') || ('A' <= c && c <= 'Z') || c == '_'
}

fn char_is_space(c: char) -> (b: bool)
    ensures
        b == is_space(c),
{
    c == ' ' || c == '\t' || c == '\n' || c == '\r'
}

/// The characters of `s`.
pub fn collect_chars(s: &str) -> (v: Vec<char>)
    ensures
        v@ == s@,
{
    let n = s.unicode_len();
    let mut v: Vec<char> = Vec::new();
    let mut i: usize = 0;
    while i < n
        invariant
            i <= n,
            n == s@.len(),
            v@ == s@.subrange(0, i as int),
        decreases n - i,
    {
        let c = s.get_char(i);
        v.push(c);
        i += 1;
        assert(v@ =~= s@.subrange(0, i as int));
    }
    assert(v@ =~= s@);
    v
}

/// The keyword spelled by `chars[start..end]`, if any.
fn keyword_at(chars: &Vec<char>, start: usize, end: usize) -> (r: Option<Token>)
    requires
        start < end <= chars@.len(),
    ensures
        r == keyword_of(chars@.subrange(start as int, end as int)),
{
    let ghost s = chars@.subrange(start as int, end as int);
    let len = end - start;
    let c0 = chars[start];
    assert(s[0] == c0);
    if len == 2 {
        let c1 = chars[start + 1];
        assert(s[1] == c1);
        if c0 == 'f' && c1 == 'n' {
            return Some(Token::Fn);
        } else if c0 == 'i' && c1 == 'f' {
            return Some(Token::If);
        }
        return None;
    } else if len == 3 {
        let c1 = chars[start + 1];
        let c2 = chars[start + 2];
        assert(s[1] == c1 && s[2] == c2);
        if c0 == 'l' && c1 == 'e' && c2 == 't' {
            return Some(Token::Let);
        } else if c0 == 'm' && c1 == 'u' && c2 == 't' {
            return Some(Token::Mut);
        } else if c0 == 'f' && c1 == 'o' && c2 == 'r' {
            return Some(Token::For);
        }
        return None;
    } else if len == 4 {
        let c1 = chars[start + 1];
        let c2 = chars[start + 2];
        let c3 = chars[start + 3];
        assert(s[1] == c1 && s[2] == c2 && s[3] == c3);
        if c0 == 'e' && c1 == 'l' && c2 == 's' && c3 == 'e' {
            return Some(Token::Else);
        } else if c0 == 't' && c1 == 'r' && c2 == 'u' && c3 == 'e' {
            return Some(Token::True);
        }
        return None;
    } else if len == 5 {
        let c1 = chars[start + 1];
        let c2 = chars[start + 2];
        let c3 = chars[start + 3];
        let c4 = chars[start + 4];
        assert(s[1] == c1 && s[2] == c2 && s[3] == c3 && s[4] == c4);
        if c0 == 'w' && c1 == 'h' && c2 == 'i' && c3 == 'l' && c4 == 'e' {
            return Some(Token::While);
        } else if c0 == 'f' && c1 == 'a' && c2 == 'l' && c3 == 's' && c4 == 'e' {
            return Some(Token::False);
        } else if c0 == 'b' && c1 == 'r' && c2 == 'e' && c3 == 'a' && c4 == 'k' {
            return Some(Token::Break);
        }
        return None;
    } else if len == 6 {
        let c1 = chars[start + 1];
        let c2 = chars[start + 2];
        let c3 = chars[start + 3];
        let c4 = chars[start + 4];
        let c5 = chars[start + 5];
        assert(s[1] == c1 && s[2] == c2 && s[3] == c3 && s[4] == c4 && s[5] == c5);
        if c0 == 'r' && c1 == 'e' && c2 == 't' && c3 == 'u' && c4 == 'r' && c5 == 'n' {
            return Some(Token::Return);
        }
        return None;
    }
    None
}

fn punct1_at(c: char) -> (r: Option<Token>)
    ensures
        r == punct1_of(c),
{
    if c == '+' {
        Some(Token::Plus)
    } else if c == '-' {
        Some(Token::Minus)
    } else if c == '*' {
        Some(Token::Star)
    } else if c == '/' {
        Some(Token::Slash)
    } else if c == '%' {
        Some(Token::Percent)
    } else if c == '^' {
        Some(Token::Caret)
    } else if c == '&' {
        Some(Token::Ampersand)
    } else if c == '|' {
        Some(Token::Pipe)
    } else if c == '=' {
        Some(Token::Assign)
    } else if c == '<' {
        Some(Token::Lt)
    } else if c == '>' {
        Some(Token::Gt)
    } else if c == '!' {
        Some(Token::Not)
    } else if c == '(' {
        Some(Token::LParen)
    } else if c == ')' {
        Some(Token::RParen)
    } else if c == '{' {
        Some(Token::LBrace)
    } else if c == '}' {
        Some(Token::RBrace)
    } else if c == '[' {
        Some(Token::LBracket)
    } else if c == ']' {
        Some(Token::RBracket)
    } else if c == ',' {
        Some(Token::Comma)
    } else if c == ':' {
        Some(Token::Colon)
    } else if c == ';' {
        Some(Token::Semi)
    } else {
        None
    }
}

fn punct2_at(a: char, b: char) -> (r: Option<Token>)
    ensures
        r == punct2_of(a, b),
{
    if a == '=' && b == '=' {
        Some(Token::Eq)
    } else if a == '!' && b == '=' {
        Some(Token::Ne)
    } else if a == '<' && b == '=' {
        Some(Token::Le)
    } else if a == '>' && b == '=' {
        Some(Token::Ge)
    } else if a == '<' && b == '<' {
        Some(Token::Shl)
    } else if a == '>' && b == '>' {
        Some(Token::Shr)
    } else if a == '*' && b == '*' {
        Some(Token::StarStar)
    } else if a == '-' && b == '>' {
        Some(Token::Arrow)
    } else {
        None
    }
}

/// The value of the digits `chars[start..end]`, or `None` when it does not fit in an `i64`.
fn digits_to_i64(chars: &Vec<char>, start: usize, end: usize) -> (r: Option<i64>)
    requires
        start <= end <= chars@.len(),
        all_digits(chars@.subrange(start as int, end as int)),
    ensures
        match r {
            Some(v) => v == digits_value(chars@.subrange(start as int, end as int)),
            None => digits_value(chars@.subrange(start as int, end as int)) > i64::MAX,
        },
{
    let mut value: i64 = 0;
    let mut i = start;
    assert(chars@.subrange(start as int, start as int) =~= Seq::<char>::empty());
    while i < end
        invariant
            start <= i <= end <= chars@.len(),
            all_digits(chars@.subrange(start as int, end as int)),
            value == digits_value(chars@.subrange(start as int, i as int)),
            0 <= value,
        decreases end - i,
    {
        let c = chars[i];
        assert(chars@.subrange(start as int, end as int)[i - start] == c);
        let d = (c as u32 - '0' as u32) as i64;
        let ghost next = chars@.subrange(start as int, i + 1);
        assert(next.drop_last() =~= chars@.subrange(start as int, i as int));
        assert(next.last() == c);
        if value > (i64::MAX - d) / 10 {
            proof {
                lemma_digits_value_monotone(chars@.subrange(start as int, end as int), (i + 1 - start) as int);
                assert(chars@.subrange(start as int, end as int).subrange(0, (i + 1 - start) as int) =~= next);
            }
            return None;
        }
        value = value * 10 + d;
        i += 1;
    }
    Some(value)
}

/// The value of a digit string is at least the value of any of its prefixes.
proof fn lemma_digits_value_monotone(s: Seq<char>, k: int)
    requires
        0 <= k <= s.len(),
        all_digits(s),
    ensures
        digits_value(s.subrange(0, k)) <= digits_value(s),
        digits_value(s.subrange(0, k)) >= 0,
    decreases s.len(),
{
    if s.len() == 0 {
        assert(s.subrange(0, k) =~= s);
    } else if k == s.len() {
        assert(s.subrange(0, k) =~= s);
        lemma_digits_value_nonneg(s);
    } else {
        let t = s.drop_last();
        assert(all_digits(t)) by {
            assert forall|i: int| 0 <= i < t.len() implies is_digit(#[trigger] t[i]) by {
                assert(t[i] == s[i]);
            }
        }
        lemma_digits_value_monotone(t, k);
        assert(t.subrange(0, k) =~= s.subrange(0, k));
        lemma_digits_value_nonneg(t);
        assert(is_digit(s[s.len() - 1]));
    }
}

proof fn lemma_digits_value_nonneg(s: Seq<char>)
    requires
        all_digits(s),
    ensures
        digits_value(s) >= 0,
    decreases s.len(),
{
    if s.len() > 0 {
        let t = s.drop_last();
        assert(all_digits(t)) by {
            assert forall|i: int| 0 <= i < t.len() implies is_digit(#[trigger] t[i]) by {
                assert(t[i] == s[i]);
            }
        }
        lemma_digits_value_nonneg(t);
        assert(is_digit(s[s.len() - 1]));
    }
}

/// Splits source text into tokens, longest match first.
///
/// The outcome is exactly `lex_from(source, 0)`: on success the tokens' spans
/// are its spans, every token is the reading of its span, and all text outside
/// them is whitespace or `//` comments.  Where no token starts (an unknown
/// character, or an integer literal too large for `i64`) the error carries the
/// span that `lex_from` reports.
pub fn tokenize(source: &str) -> (res: Result<Vec<SpannedToken>, LexError>)
    ensures
        match res {
            Ok(toks) => tokens_of(source@, toks@) && lex_from(source@, 0) == Ok::<
                Seq<(int, int)>,
                (int, int),
            >(spans_of(toks@)),
            Err(LexError::InvalidToken(sp)) => sp.start < sp.end <= source@.len() && lex_from(
                source@,
                0,
            ) == Err::<Seq<(int, int)>, (int, int)>((sp.start as int, sp.end as int)),
        },
{
    let chars = collect_chars(source);
    let n = chars.len();
    let ghost src = source@;
    let mut toks: Vec<SpannedToken> = Vec::new();
    let mut pos: usize = 0;
    while pos < n
        invariant
            chars@ == src,
            src == source@,
            n == src.len(),
            pos <= n,
            last_end(toks@) <= pos,
            lexed_prefix(src, toks@),
            forall|p: int| last_end(toks@) <= p < pos ==> #[trigger] skipped(src, p),
            lex_from(src, 0) == prefix_outcome(spans_of(toks@), lex_from(src, pos as int)),
        decreases n - pos,
    {
        let c = chars[pos];
        if char_is_space(c) {
            assert(skipped(src, pos as int));
            pos += 1;
        } else if c == '/' && pos + 1 < n && chars[pos + 1] == '/' {
            let q = pos;
            while pos < n && chars[pos] != '\n'
                invariant
                    chars@ == src,
                    n == src.len(),
                    q <= pos <= n,
                    q + 1 < n,
                    src[q as int] == '/',
                    src[q as int + 1] == '/',
                    forall|k: int| q <= k < pos ==> #[trigger] src[k] != '\n',
                    forall|p: int| last_end(toks@) <= p < q ==> #[trigger] skipped(src, p),
                    forall|p: int| q <= p < pos ==> #[trigger] skipped(src, p),
                    line_end(src, pos as int) == line_end(src, q as int),
                decreases n - pos,
            {
                assert(comment_covers(src, q as int, pos as int));
                assert(skipped(src, pos as int));
                pos += 1;
            }
            assert(pos > q);
            assert(lex_from(src, q as int) == lex_from(src, pos as int));
        } else if char_is_alpha(c) {
            let start = pos;
            pos += 1;
            while pos < n && (char_is_alpha(chars[pos]) || char_is_digit(chars[pos]))
                invariant
                    chars@ == src,
                    n == src.len(),
                    start < pos <= n,
                    is_alpha(src[start as int]),
                    forall|k: int| start <= k < pos ==> is_word_char(#[trigger] src[k]),
                    word_end(src, pos as int) == word_end(src, start + 1),
                decreases n - pos,
            {
                pos += 1;
            }
            let ghost text = src.subrange(start as int, pos as int);
            assert(is_word(text)) by {
                assert forall|i: int| 0 <= i < text.len() implies is_word_char(#[trigger] text[i]) by {
                    assert(text[i] == src[start + i]);
                }
            }
            let tok = match keyword_at(&chars, start, pos) {
                Some(k) => k,
                None => Token::Ident(String::from_str(source.substring_char(start, pos))),
            };
            let ghost old_toks = toks@;
            toks.push(SpannedToken { token: tok, span: Span { start, end: pos } });
            proof {
                lemma_push_token(src, old_toks, toks@.last());
                assert(old_toks.push(toks@.last()) =~= toks@);
                lemma_push_lex(src, old_toks, toks@.last());
            }
        } else if char_is_digit(c) {
            let start = pos;
            pos += 1;
            while pos < n && char_is_digit(chars[pos])
                invariant
                    chars@ == src,
                    n == src.len(),
                    start < pos <= n,
                    forall|k: int| start <= k < pos ==> is_digit(#[trigger] src[k]),
                    digits_end(src, pos as int) == digits_end(src, start + 1),
                decreases n - pos,
            {
                pos += 1;
            }
            let int_end = pos;
            assert(all_digits(src.subrange(start as int, int_end as int))) by {
                let t = src.subrange(start as int, int_end as int);
                assert forall|i: int| 0 <= i < t.len() implies is_digit(#[trigger] t[i]) by {
                    assert(t[i] == src[start + i]);
                }
            }
            if pos < n && pos + 1 < n && chars[pos] == '.' && char_is_digit(chars[pos + 1]) {
                pos += 2;
                while pos < n && char_is_digit(chars[pos])
                    invariant
                        chars@ == src,
                        n == src.len(),
                        int_end + 2 <= pos <= n,
                        forall|k: int| int_end + 1 <= k < pos ==> is_digit(#[trigger] src[k]),
                        digits_end(src, pos as int) == digits_end(src, int_end + 2),
                    decreases n - pos,
                {
                    pos += 1;
                }
                let ghost text = src.subrange(start as int, pos as int);
                let ghost d = (int_end - start) as int;
                assert(float_split(text, d)) by {
                    assert(text.subrange(0, d) =~= src.subrange(start as int, int_end as int));
                    let t2 = text.subrange(d + 1, text.len() as int);
                    assert forall|i: int| 0 <= i < t2.len() implies is_digit(#[trigger] t2[i]) by {
                        assert(t2[i] == src[int_end + 1 + i]);
                    }
                }
                let tok = Token::FloatLiteral(String::from_str(source.substring_char(start, pos)));
                let ghost old_toks = toks@;
                toks.push(SpannedToken { token: tok, span: Span { start, end: pos } });
                proof {
                    lemma_push_token(src, old_toks, toks@.last());
                    assert(old_toks.push(toks@.last()) =~= toks@);
                    lemma_push_lex(src, old_toks, toks@.last());
                }
            } else {
                match digits_to_i64(&chars, start, int_end) {
                    Some(v) => {
                        let ghost old_toks = toks@;
                        toks.push(
                            SpannedToken { token: Token::IntLiteral(v), span: Span { start, end: pos } },
                        );
                        proof {
                            lemma_push_token(src, old_toks, toks@.last());
                            assert(old_toks.push(toks@.last()) =~= toks@);
                            lemma_push_lex(src, old_toks, toks@.last());
                        }
                    },
                    None => {
                        return Err(LexError::InvalidToken(Span { start, end: pos }));
                    },
                }
            }
        } else {
            let start = pos;
            let mut two: Option<Token> = None;
            if pos + 1 < n {
                two = punct2_at(c, chars[pos + 1]);
            }
            match two {
                Some(t) => {
                    let ghost text = src.subrange(start as int, start + 2);
                    assert(text[0] == c && text[1] == src[start + 1]);
                    assert(keyword_of(text).is_none() || true);
                    pos += 2;
                    let ghost old_toks = toks@;
                    toks.push(SpannedToken { token: t, span: Span { start, end: pos } });
                    proof {
                        assert(punct_of(text) == Some(toks@.last().token));
                        lemma_push_token(src, old_toks, toks@.last());
                        assert(old_toks.push(toks@.last()) =~= toks@);
                        lemma_push_lex(src, old_toks, toks@.last());
                    }
                },
                None => {
                    match punct1_at(c) {
                        Some(t) => {
                            let ghost text = src.subrange(start as int, start + 1);
                            assert(text[0] == c);
                            pos += 1;
                            let ghost old_toks = toks@;
                            toks.push(SpannedToken { token: t, span: Span { start, end: pos } });
                            proof {
                                assert(punct_of(text) == Some(toks@.last().token));
                                lemma_push_token(src, old_toks, toks@.last());
                                assert(old_toks.push(toks@.last()) =~= toks@);
                                lemma_push_lex(src, old_toks, toks@.last());
                            }
                        },
                        None => {
                            return Err(LexError::InvalidToken(Span { start, end: pos + 1 }));
                        },
                    }
                },
            }
        }
    }
    assert(spans_of(toks@) + Seq::<(int, int)>::empty() =~= spans_of(toks@));
    Ok(toks)
}

/// Reading the token that `lex_from` finds at its start moves the lexing
/// outcome on past that token.
proof fn lemma_push_lex(src: Seq<char>, toks: Seq<SpannedToken>, t: SpannedToken)
    requires
        0 <= t.span.start < src.len(),
        !is_space(src[t.span.start as int]),
        !(src[t.span.start as int] == '/' && t.span.start + 1 < src.len() && src[t.span.start + 1]
            == '/'),
        token_span_at(src, t.span.start as int) == Some((t.span.start as int, t.span.end as int)),
        lex_from(src, 0) == prefix_outcome(spans_of(toks), lex_from(src, t.span.start as int)),
    ensures
        lex_from(src, 0) == prefix_outcome(spans_of(toks.push(t)), lex_from(src, t.span.end as int)),
{
    let sp = (t.span.start as int, t.span.end as int);
    assert(spans_of(toks.push(t)) =~= spans_of(toks).push(sp));
    match lex_from(src, t.span.end as int) {
        Ok(rest) => {
            assert(spans_of(toks) + (seq![sp] + rest) =~= spans_of(toks).push(sp) + rest);
        },
        Err(e) => {},
    }
}

/// Appending a token that reads its span and starts after the skipped gap
/// extends a lexed prefix.
proof fn lemma_push_token(src: Seq<char>, toks: Seq<SpannedToken>, t: SpannedToken)
    requires
        lexed_prefix(src, toks),
        last_end(toks) <= t.span.start < t.span.end <= src.len(),
        token_reads(t.token, src.subrange(t.span.start as int, t.span.end as int)),
        forall|p: int| last_end(toks) <= p < t.span.start ==> #[trigger] skipped(src, p),
    ensures
        lexed_prefix(src, toks.push(t)),
        last_end(toks.push(t)) == t.span.end,
{
    let ts = toks.push(t);
    assert forall|i: int| 0 <= i < ts.len() implies gap_start(ts, i) == gap_start(toks, i) by {
        if i > 0 {
            assert(ts[i - 1] == toks[i - 1]);
        }
    }
    assert forall|i: int|
        0 <= i < ts.len() implies {
            &&& (#[trigger] ts[i]).span.start < ts[i].span.end <= src.len()
            &&& gap_start(ts, i) <= ts[i].span.start
            &&& token_reads(ts[i].token, src.subrange(ts[i].span.start as int, ts[i].span.end as int))
        } by {
        if i < toks.len() {
            assert(ts[i] == toks[i]);
        }
    }
    assert forall|i: int, p: int|
        0 <= i < ts.len() && gap_start(ts, i) <= p < (#[trigger] ts[i]).span.start implies #[trigger] skipped(src, p) by {
        if i < toks.len() {
            assert(ts[i] == toks[i]);
        }
    }
}

} // verus!
