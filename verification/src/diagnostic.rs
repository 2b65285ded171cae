//! The wording of the compiler's type error reports.

use vstd::prelude::*;
use crate::ast::{BinaryOp, UnaryOp};
use crate::text::{dec_digits, int_text, push_i64, push_usize};
use crate::typecheck::checker::TypeError;
use crate::typecheck::types::{Type, type_text};
use crate::token::{SpannedToken, Token};
use crate::ast::Program;
use crate::parser::ParseError;
use crate::typecheck::typed_ast::TypedProgram;

verus! {

/// The name of a binary operator, as it appears in reports.
pub open spec fn binop_name(op: BinaryOp) -> Seq<char> {
    match op {
        BinaryOp::Add => "Add"@,
        BinaryOp::Sub => "Sub"@,
        BinaryOp::Mul => "Mul"@,
        BinaryOp::Div => "Div"@,
        BinaryOp::Mod => "Mod"@,
        BinaryOp::Pow => "Pow"@,
        BinaryOp::Eq => "Eq"@,
        BinaryOp::Ne => "Ne"@,
        BinaryOp::Lt => "Lt"@,
        BinaryOp::Le => "Le"@,
        BinaryOp::Gt => "Gt"@,
        BinaryOp::Ge => "Ge"@,
        BinaryOp::BitAnd => "BitAnd"@,
        BinaryOp::BitOr => "BitOr"@,
        BinaryOp::BitXor => "BitXor"@,
        BinaryOp::Shl => "Shl"@,
        BinaryOp::Shr => "Shr"@,
    }
}

pub open spec fn unop_name(op: UnaryOp) -> Seq<char> {
    match op {
        UnaryOp::Neg => "Neg"@,
        UnaryOp::Not => "Not"@,
    }
}

/// `` `t` ``
pub open spec fn quoted(t: Type) -> Seq<char> {
    "`"@ + type_text(t) + "`"@
}

/// The report of a type error: its message, the label shown at its span,
/// and a hint.
pub open spec fn report_of(err: TypeError) -> (Seq<char>, Seq<char>, Seq<char>) {
    match err {
        TypeError::TypeMismatch { expected, found, .. } => (
            "Type mismatch: expected "@ + quoted(expected) + ", found "@ + quoted(found),
            "expected "@ + quoted(expected) + ", found "@ + quoted(found),
            "numlang requires exact type matching without implicit conversions"@,
        ),
        TypeError::UndeclaredVariable { name, .. } => (
            "Undeclared variable `"@ + name@ + "`"@,
            "not found in this scope"@,
            "Ensure variable is declared with `let` before use"@,
        ),
        TypeError::UndeclaredFunction { name, .. } => (
            "Undeclared function `"@ + name@ + "`"@,
            "function not declared"@,
            "Define the function with `fn` before calling it"@,
        ),
        TypeError::CannotMutateImmutable { name, .. } => (
            "Cannot mutate immutable variable `"@ + name@ + "`"@,
            "cannot assign twice to immutable variable"@,
            "Consider declaring the variable as mutable: `let mut`"@,
        ),
        TypeError::DuplicateDeclaration { name, .. } => (
            "Identifier `"@ + name@ + "` is already declared in this scope"@,
            "duplicate definition"@,
            "Use a different name or remove redundant declaration"@,
        ),
        TypeError::InvalidConditionType { found, .. } => (
            "Condition must evaluate to `bool`, found "@ + quoted(found),
            "expected `bool`, found "@ + quoted(found),
            "Use a comparison or boolean expression in if/while conditions"@,
        ),
        TypeError::InvalidBinaryOperands { op, left, right, .. } => (
            "Cannot apply operator `"@ + binop_name(op) + "` to "@ + quoted(left) + " and "@
                + quoted(right),
            "mismatched operand types"@,
            "Binary operators require matching numeric or boolean operands"@,
        ),
        TypeError::InvalidUnaryOperand { op, found, .. } => (
            "Cannot apply unary operator `"@ + unop_name(op) + "` to "@ + quoted(found),
            "invalid operand type"@,
            "Ensure operand type matches operator expectation"@,
        ),
        TypeError::ArityMismatch { name, expected, found, .. } => (
            "Function `"@ + name@ + "` expected "@ + dec_digits(expected as nat)
                + " arguments, received "@ + dec_digits(found as nat),
            "expected "@ + dec_digits(expected as nat) + " arguments"@,
            "Ensure call site passes the correct number of arguments"@,
        ),
        TypeError::UnknownType { name, .. } => (
            "Unknown type `"@ + name@ + "`"@,
            "unrecognized type name"@,
            "Supported primitive types are: i32, i64, f32, f64, bool, void"@,
        ),
        TypeError::InvalidReturn { expected, found, .. } => (
            "Function return type mismatch: expected "@ + quoted(expected) + ", found "@ + quoted(
                found,
            ),
            "expected "@ + quoted(expected) + ", returned "@ + quoted(found),
            "Ensure returned value matches the function's declared return type"@,
        ),
        TypeError::CannotIndexNonArray { found, .. } => (
            "Cannot index non-array type "@ + quoted(found),
            "indexing requires array type `[T; N]`"@,
            "Only array types can be indexed with `[i]`"@,
        ),
        TypeError::InvalidIndexType { found, .. } => (
            "Array index must be an integer, found "@ + quoted(found),
            "invalid index type"@,
            "Array indices must be integer types: i64 or i32"@,
        ),
        TypeError::EmptyArrayLiteral { .. } => (
            "Array literal cannot be empty"@,
            "empty array literal"@,
            "Provide at least one element in the array literal"@,
        ),
        TypeError::IndexOutOfBounds { index, len, .. } => (
            "Array index "@ + int_text(index as int) + " out of bounds for array of length "@
                + dec_digits(len as nat),
            "index "@ + int_text(index as int) + " >= length "@ + dec_digits(len as nat),
            "Ensure index is within 0 <= index < length"@,
        ),
        TypeError::ArrayElementMismatch { expected, found, .. } => (
            "Array element type mismatch: expected "@ + quoted(expected) + ", found "@ + quoted(
                found,
            ),
            "expected "@ + quoted(expected) + ", found "@ + quoted(found),
            "All elements in an array literal must share the exact same type"@,
        ),
        TypeError::BreakOutsideLoop { .. } => (
            "`break` used outside a loop"@,
            "no enclosing loop"@,
            "Use `break;` only inside a `while` loop"@,
        ),
    }
}

/// The text of a type error report.
pub struct ErrorReport {
    pub message: String,
    pub label: String,
    pub help: String,
}

fn push_str(out: &mut String, s: &str)
    ensures
        final(out)@ == old(out)@ + s@,
{
    out.append(s);
}

fn push_quoted(out: &mut String, t: &Type)
    ensures
        final(out)@ == old(out)@ + quoted(*t),
{
    push_str(out, "`");
    t.push_name(out);
    push_str(out, "`");
    assert(final(out)@ =~= old(out)@ + quoted(*t));
}

fn binop_str(op: BinaryOp) -> (s: &'static str)
    ensures
        s@ == binop_name(op),
{
    match op {
        BinaryOp::Add => "Add",
        BinaryOp::Sub => "Sub",
        BinaryOp::Mul => "Mul",
        BinaryOp::Div => "Div",
        BinaryOp::Mod => "Mod",
        BinaryOp::Pow => "Pow",
        BinaryOp::Eq => "Eq",
        BinaryOp::Ne => "Ne",
        BinaryOp::Lt => "Lt",
        BinaryOp::Le => "Le",
        BinaryOp::Gt => "Gt",
        BinaryOp::Ge => "Ge",
        BinaryOp::BitAnd => "BitAnd",
        BinaryOp::BitOr => "BitOr",
        BinaryOp::BitXor => "BitXor",
        BinaryOp::Shl => "Shl",
        BinaryOp::Shr => "Shr",
    }
}

fn unop_str(op: UnaryOp) -> (s: &'static str)
    ensures
        s@ == unop_name(op),
{
    match op {
        UnaryOp::Neg => "Neg",
        UnaryOp::Not => "Not",
    }
}

fn text(s: &str) -> (r: String)
    ensures
        r@ == s@,
{
    String::from_str(s)
}

/// The message, label and hint that a type error is reported with.
pub fn type_error_report(err: &TypeError) -> (r: ErrorReport)
    ensures
        (r.message@, r.label@, r.help@) == report_of(*err),
{
    let mut message = String::new();
    let mut label = String::new();
    let help: String;
    match err {
        TypeError::TypeMismatch { expected, found, .. } => {
            push_str(&mut message, "Type mismatch: expected ");
            push_quoted(&mut message, expected);
            push_str(&mut message, ", found ");
            push_quoted(&mut message, found);
            push_str(&mut label, "expected ");
            push_quoted(&mut label, expected);
            push_str(&mut label, ", found ");
            push_quoted(&mut label, found);
            help = text("numlang requires exact type matching without implicit conversions");
        },
        TypeError::UndeclaredVariable { name, .. } => {
            push_str(&mut message, "Undeclared variable `");
            push_str(&mut message, name.as_str());
            push_str(&mut message, "`");
            push_str(&mut label, "not found in this scope");
            help = text("Ensure variable is declared with `let` before use");
        },
        TypeError::UndeclaredFunction { name, .. } => {
            push_str(&mut message, "Undeclared function `");
            push_str(&mut message, name.as_str());
            push_str(&mut message, "`");
            push_str(&mut label, "function not declared");
            help = text("Define the function with `fn` before calling it");
        },
        TypeError::CannotMutateImmutable { name, .. } => {
            push_str(&mut message, "Cannot mutate immutable variable `");
            push_str(&mut message, name.as_str());
            push_str(&mut message, "`");
            push_str(&mut label, "cannot assign twice to immutable variable");
            help = text("Consider declaring the variable as mutable: `let mut`");
        },
        TypeError::DuplicateDeclaration { name, .. } => {
            push_str(&mut message, "Identifier `");
            push_str(&mut message, name.as_str());
            push_str(&mut message, "` is already declared in this scope");
            push_str(&mut label, "duplicate definition");
            help = text("Use a different name or remove redundant declaration");
        },
        TypeError::InvalidConditionType { found, .. } => {
            push_str(&mut message, "Condition must evaluate to `bool`, found ");
            push_quoted(&mut message, found);
            push_str(&mut label, "expected `bool`, found ");
            push_quoted(&mut label, found);
            help = text("Use a comparison or boolean expression in if/while conditions");
        },
        TypeError::InvalidBinaryOperands { op, left, right, .. } => {
            push_str(&mut message, "Cannot apply operator `");
            push_str(&mut message, binop_str(*op));
            push_str(&mut message, "` to ");
            push_quoted(&mut message, left);
            push_str(&mut message, " and ");
            push_quoted(&mut message, right);
            push_str(&mut label, "mismatched operand types");
            help = text("Binary operators require matching numeric or boolean operands");
        },
        TypeError::InvalidUnaryOperand { op, found, .. } => {
            push_str(&mut message, "Cannot apply unary operator `");
            push_str(&mut message, unop_str(*op));
            push_str(&mut message, "` to ");
            push_quoted(&mut message, found);
            push_str(&mut label, "invalid operand type");
            help = text("Ensure operand type matches operator expectation");
        },
        TypeError::ArityMismatch { name, expected, found, .. } => {
            push_str(&mut message, "Function `");
            push_str(&mut message, name.as_str());
            push_str(&mut message, "` expected ");
            push_usize(&mut message, *expected);
            push_str(&mut message, " arguments, received ");
            push_usize(&mut message, *found);
            push_str(&mut label, "expected ");
            push_usize(&mut label, *expected);
            push_str(&mut label, " arguments");
            help = text("Ensure call site passes the correct number of arguments");
        },
        TypeError::UnknownType { name, .. } => {
            push_str(&mut message, "Unknown type `");
            push_str(&mut message, name.as_str());
            push_str(&mut message, "`");
            push_str(&mut label, "unrecognized type name");
            help = text("Supported primitive types are: i32, i64, f32, f64, bool, void");
        },
        TypeError::InvalidReturn { expected, found, .. } => {
            push_str(&mut message, "Function return type mismatch: expected ");
            push_quoted(&mut message, expected);
            push_str(&mut message, ", found ");
            push_quoted(&mut message, found);
            push_str(&mut label, "expected ");
            push_quoted(&mut label, expected);
            push_str(&mut label, ", returned ");
            push_quoted(&mut label, found);
            help = text("Ensure returned value matches the function's declared return type");
        },
        TypeError::CannotIndexNonArray { found, .. } => {
            push_str(&mut message, "Cannot index non-array type ");
            push_quoted(&mut message, found);
            push_str(&mut label, "indexing requires array type `[T; N]`");
            help = text("Only array types can be indexed with `[i]`");
        },
        TypeError::InvalidIndexType { found, .. } => {
            push_str(&mut message, "Array index must be an integer, found ");
            push_quoted(&mut message, found);
            push_str(&mut label, "invalid index type");
            help = text("Array indices must be integer types: i64 or i32");
        },
        TypeError::EmptyArrayLiteral { .. } => {
            push_str(&mut message, "Array literal cannot be empty");
            push_str(&mut label, "empty array literal");
            help = text("Provide at least one element in the array literal");
        },
        TypeError::IndexOutOfBounds { index, len, .. } => {
            push_str(&mut message, "Array index ");
            push_i64(&mut message, *index);
            push_str(&mut message, " out of bounds for array of length ");
            push_usize(&mut message, *len);
            push_str(&mut label, "index ");
            push_i64(&mut label, *index);
            push_str(&mut label, " >= length ");
            push_usize(&mut label, *len);
            help = text("Ensure index is within 0 <= index < length");
        },
        TypeError::ArrayElementMismatch { expected, found, .. } => {
            push_str(&mut message, "Array element type mismatch: expected ");
            push_quoted(&mut message, expected);
            push_str(&mut message, ", found ");
            push_quoted(&mut message, found);
            push_str(&mut label, "expected ");
            push_quoted(&mut label, expected);
            push_str(&mut label, ", found ");
            push_quoted(&mut label, found);
            help = text("All elements in an array literal must share the exact same type");
        },
        TypeError::BreakOutsideLoop { .. } => {
            push_str(&mut message, "`break` used outside a loop");
            push_str(&mut label, "no enclosing loop");
            help = text("Use `break;` only inside a `while` loop");
        },
    }
    let r = ErrorReport { message, label, help };
    assert((r.message@, r.label@, r.help@) =~= report_of(*err));
    r
}

/// The derived `Debug` text of a token.
pub uninterp spec fn token_debug_text(t: Token) -> Seq<char>;

/// The derived pretty (`{:#?}`) `Debug` text of a program.
pub uninterp spec fn program_debug_text(p: Program) -> Seq<char>;

/// The derived pretty (`{:#?}`) `Debug` text of a typed program.
pub uninterp spec fn typed_program_debug_text(p: TypedProgram) -> Seq<char>;

/// `format!("{:?}", t)`: the token's derived `Debug` text, a function of
/// the token alone.
#[verifier::external_body]
fn token_debug(t: &Token) -> (s: String)
    ensures
        s@ == token_debug_text(*t),
{
    format!("{:?}", t)
}

/// The message a syntax error is reported with; a token is shown by its
/// `Debug` text.
pub open spec fn parse_error_text(err: ParseError) -> Seq<char> {
    match err {
        ParseError::UnexpectedEof { expected, .. } => "Unexpected end of input, expected "@ + expected@,
        ParseError::UnexpectedToken { found, expected, .. } => "Unexpected token '"@
            + token_debug_text(found) + "', expected "@ + expected@,
        ParseError::InvalidPrefix { found, .. } => "Invalid prefix operator '"@ + token_debug_text(
            found,
        ) + "'"@,
    }
}

/// The message a syntax error is reported with.
pub fn parse_error_message(err: &ParseError) -> (s: String)
    ensures
        s@ == parse_error_text(*err),
{
    let mut out = String::new();
    match err {
        ParseError::UnexpectedEof { expected, .. } => {
            push_str(&mut out, "Unexpected end of input, expected ");
            push_str(&mut out, expected.as_str());
        },
        ParseError::UnexpectedToken { found, expected, .. } => {
            push_str(&mut out, "Unexpected token '");
            let dbg = token_debug(found);
            push_str(&mut out, dbg.as_str());
            push_str(&mut out, "', expected ");
            push_str(&mut out, expected.as_str());
        },
        ParseError::InvalidPrefix { found, .. } => {
            push_str(&mut out, "Invalid prefix operator '");
            let dbg = token_debug(found);
            push_str(&mut out, dbg.as_str());
            push_str(&mut out, "'");
        },
    }
    proof {
        reveal_strlit("Unexpected end of input, expected ");
        reveal_strlit("Unexpected token '");
        reveal_strlit("', expected ");
        reveal_strlit("Invalid prefix operator '");
        reveal_strlit("'");
    }
    assert(out@ =~= parse_error_text(*err));
    out
}

/// `count` copies of `c`.
pub open spec fn repeated(c: char, count: nat) -> Seq<char> {
    Seq::new(count, |i: int| c)
}

/// `n` in decimal, with leading zeros up to three digits.
pub open spec fn zero_padded3(n: nat) -> Seq<char> {
    let d = dec_digits(n);
    if d.len() < 3 {
        repeated('0', (3 - d.len()) as nat) + d
    } else {
        d
    }
}

/// `s` followed by spaces up to `width` characters.
pub open spec fn left_aligned(s: Seq<char>, width: nat) -> Seq<char> {
    if s.len() < width {
        s + repeated(' ', (width - s.len()) as nat)
    } else {
        s
    }
}

/// The listing line of the `i`-th token:
/// `[iii] <token, left-aligned to 24> (span: start..end)`.
pub open spec fn token_line(i: nat, t: SpannedToken) -> Seq<char> {
    "["@ + zero_padded3(i) + "] "@ + left_aligned(token_debug_text(t.token), 24) + " (span: "@
        + dec_digits(t.span.start as nat) + ".."@ + dec_digits(t.span.end as nat) + ")\n"@
}

/// The lines of all tokens, in order.
pub open spec fn token_listing(toks: Seq<SpannedToken>) -> Seq<char>
    decreases toks.len(),
{
    if toks.len() == 0 {
        Seq::empty()
    } else {
        token_listing(toks.drop_last()) + token_line((toks.len() - 1) as nat, toks.last())
    }
}

/// Appends `count` copies of the one-character string `c`.
fn push_repeated(out: &mut String, c: &str, count: usize)
    requires
        c@.len() == 1,
    ensures
        final(out)@ == old(out)@ + repeated(c@[0], count as nat),
{
    let mut k: usize = 0;
    while k < count
        invariant
            c@.len() == 1,
            k <= count,
            out@ == old(out)@ + repeated(c@[0], k as nat),
        decreases count - k,
    {
        out.append(c);
        k = k + 1;
        assert(out@ =~= old(out)@ + repeated(c@[0], k as nat));
    }
}

/// Appends `n` in decimal, with leading zeros up to three digits.
fn push_zero_padded3(out: &mut String, n: usize)
    ensures
        final(out)@ == old(out)@ + zero_padded3(n as nat),
{
    proof {
        reveal_strlit("0");
    }
    let mut digits = String::new();
    push_usize(&mut digits, n);
    let nd = digits.as_str().unicode_len();
    if nd < 3 {
        push_repeated(out, "0", 3 - nd);
    }
    out.append(digits.as_str());
    assert(final(out)@ =~= old(out)@ + zero_padded3(n as nat));
}

/// Appends `s`, followed by spaces up to `width` characters.
fn push_left_aligned(out: &mut String, s: &str, width: usize)
    ensures
        final(out)@ == old(out)@ + left_aligned(s@, width as nat),
{
    proof {
        reveal_strlit(" ");
    }
    let nc = s.unicode_len();
    out.append(s);
    if nc < width {
        push_repeated(out, " ", width - nc);
    }
    assert(final(out)@ =~= old(out)@ + left_aligned(s@, width as nat));
}

/// Appends the listing line of the `i`-th token.
fn push_token_line(out: &mut String, i: usize, tok: &SpannedToken)
    ensures
        final(out)@ == old(out)@ + token_line(i as nat, *tok),
{
    push_str(out, "[");
    push_zero_padded3(out, i);
    push_str(out, "] ");
    let dbg = token_debug(&tok.token);
    push_left_aligned(out, dbg.as_str(), 24);
    push_str(out, " (span: ");
    push_usize(out, tok.span.start);
    push_str(out, "..");
    push_usize(out, tok.span.end);
    push_str(out, ")\n");
    assert(final(out)@ =~= old(out)@ + token_line(i as nat, *tok));
}

/// One token per line: its position, padded to three digits; its `Debug`
/// text, left-aligned in 24 columns; and its span.
pub fn format_tokens(tokens: &[SpannedToken]) -> (s: String)
    ensures
        s@ == token_listing(tokens@),
{
    let mut out = String::new();
    let mut i: usize = 0;
    while i < tokens.len()
        invariant
            i <= tokens@.len(),
            out@ == token_listing(tokens@.subrange(0, i as int)),
        decreases tokens.len() - i,
    {
        push_token_line(&mut out, i, &tokens[i]);
        proof {
            assert(tokens@.subrange(0, i + 1).drop_last() =~= tokens@.subrange(0, i as int));
        }
        i = i + 1;
    }
    proof {
        assert(tokens@.subrange(0, i as int) =~= tokens@);
    }
    out
}

/// The program's derived pretty `Debug` text.
#[verifier::external_body]
pub fn format_ast(program: &Program) -> (s: String)
    ensures
        s@ == program_debug_text(*program),
{
    format!("{:#?}", program)
}

/// The typed program's derived pretty `Debug` text.
#[verifier::external_body]
pub fn format_typed_ast(program: &TypedProgram) -> (s: String)
    ensures
        s@ == typed_program_debug_text(*program),
{
    format!("{:#?}", program)
}

} // verus!
