use vstd::prelude::*;
use crate::ast::{BinaryOp, Block, Expr, Function, Literal, Program, Stmt, UnaryOp};
use crate::span::Span;
use crate::typecheck::symtab::{
    FunctionSig, ScopeEnvironment, Symbol, scopes_lookup, scope_lookup, sig_lookup, define_in,
    names_unique, sig_names_unique,
};
use crate::typecheck::typed_ast::{
    TypedBlock, TypedExpr, TypedFunction, TypedLiteral, TypedParam, TypedProgram, TypedStmt,
};
use crate::typecheck::types::{Type, type_of_text};
use crate::opt::bce::{optimize_program, program_bce};
use crate::typecheck::reported::{
    expr_error, expr_type, expr_lit_value, first_index, elem_bad, arg_bad, builtin_arg_bad,
    lemma_expr_type, lemma_typed_span, lemma_first_index_unique, stmt_error, stmts_error, block_error,
    stops_at, scopes_after, lemma_stops_at_unique, lemma_prefix_typable,
    function_error, param_repeated, program_error, signature_bad, function_bad,
    param_type_unknown, declared_sigs, return_known, params_known, lemma_signature_return_unknown,
    lemma_signature_param_unknown, lemma_signature_repeated, lemma_signature_fine,
    lemma_program_signature_error, lemma_program_function_error, lemma_program_fine, lemma_declared_sigs,
};

verus! {

#[derive(Debug, PartialEq)]
pub enum TypeError {
    TypeMismatch { expected: Type, found: Type, span: Span },
    UndeclaredVariable { name: String, span: Span },
    UndeclaredFunction { name: String, span: Span },
    CannotMutateImmutable { name: String, span: Span },
    DuplicateDeclaration { name: String, span: Span },
    InvalidConditionType { found: Type, span: Span },
    InvalidBinaryOperands { op: BinaryOp, left: Type, right: Type, span: Span },
    InvalidUnaryOperand { op: UnaryOp, found: Type, span: Span },
    ArityMismatch { name: String, expected: usize, found: usize, span: Span },
    UnknownType { name: String, span: Span },
    InvalidReturn { expected: Type, found: Type, span: Span },
    CannotIndexNonArray { found: Type, span: Span },
    InvalidIndexType { found: Type, span: Span },
    EmptyArrayLiteral { span: Span },
    IndexOutOfBounds { index: i64, len: usize, span: Span },
    ArrayElementMismatch { expected: Type, found: Type, span: Span },
    BreakOutsideLoop { span: Span },
}

impl TypeError {
    /// The source span the error refers to.
    pub fn span(&self) -> (s: Span)
        ensures
            s == match *self {
                TypeError::TypeMismatch { span, .. } => span,
                TypeError::UndeclaredVariable { span, .. } => span,
                TypeError::UndeclaredFunction { span, .. } => span,
                TypeError::CannotMutateImmutable { span, .. } => span,
                TypeError::DuplicateDeclaration { span, .. } => span,
                TypeError::InvalidConditionType { span, .. } => span,
                TypeError::InvalidBinaryOperands { span, .. } => span,
                TypeError::InvalidUnaryOperand { span, .. } => span,
                TypeError::ArityMismatch { span, .. } => span,
                TypeError::UnknownType { span, .. } => span,
                TypeError::InvalidReturn { span, .. } => span,
                TypeError::CannotIndexNonArray { span, .. } => span,
                TypeError::InvalidIndexType { span, .. } => span,
                TypeError::EmptyArrayLiteral { span } => span,
                TypeError::IndexOutOfBounds { span, .. } => span,
                TypeError::ArrayElementMismatch { span, .. } => span,
                TypeError::BreakOutsideLoop { span } => span,
            },
    {
        match self {
            TypeError::TypeMismatch { span, .. } => *span,
            TypeError::UndeclaredVariable { span, .. } => *span,
            TypeError::UndeclaredFunction { span, .. } => *span,
            TypeError::CannotMutateImmutable { span, .. } => *span,
            TypeError::DuplicateDeclaration { span, .. } => *span,
            TypeError::InvalidConditionType { span, .. } => *span,
            TypeError::InvalidBinaryOperands { span, .. } => *span,
            TypeError::InvalidUnaryOperand { span, .. } => *span,
            TypeError::ArityMismatch { span, .. } => *span,
            TypeError::UnknownType { span, .. } => *span,
            TypeError::InvalidReturn { span, .. } => *span,
            TypeError::CannotIndexNonArray { span, .. } => *span,
            TypeError::InvalidIndexType { span, .. } => *span,
            TypeError::EmptyArrayLiteral { span } => *span,
            TypeError::IndexOutOfBounds { span, .. } => *span,
            TypeError::ArrayElementMismatch { span, .. } => *span,
            TypeError::BreakOutsideLoop { span } => *span,
        }
    }
}

// ---------------------------------------------------------------------------
// The typing rules
// ---------------------------------------------------------------------------

/// What the typing rules read of a function's signature: its name, its
/// parameter types and its return type.
pub type SigView = (Seq<char>, Seq<Type>, Type);

pub open spec fn sig_view(s: FunctionSig) -> SigView {
    (s.name@, s.param_types@, s.return_ty)
}

pub open spec fn views_of(sigs: Seq<FunctionSig>) -> Seq<SigView> {
    sigs.map_values(|s: FunctionSig| sig_view(s))
}

/// The signature named `name`, if any.
pub open spec fn view_lookup(sigs: Seq<SigView>, name: Seq<char>) -> Option<SigView> {
    if exists|i: int| 0 <= i < sigs.len() && (#[trigger] sigs[i]).0 == name {
        Some(sigs[choose|i: int| 0 <= i < sigs.len() && (#[trigger] sigs[i]).0 == name])
    } else {
        None
    }
}

/// No two signatures share a name.
pub open spec fn view_names_unique(sigs: Seq<SigView>) -> bool {
    forall|i: int, j: int|
        0 <= i < sigs.len() && 0 <= j < sigs.len() && i != j ==> (#[trigger] sigs[i]).0 != (
        #[trigger] sigs[j]).0
}

/// With distinct names, looking a name up among the views is looking it up
/// among the signatures.
pub proof fn lemma_view_lookup(sigs: Seq<FunctionSig>, name: Seq<char>)
    requires
        sig_names_unique(sigs),
    ensures
        view_names_unique(views_of(sigs)),
        view_lookup(views_of(sigs), name) == match sig_lookup(sigs, name) {
            Some(s) => Some(sig_view(s)),
            None => None,
        },
{
    let vs = views_of(sigs);
    assert forall|i: int, j: int|
        0 <= i < vs.len() && 0 <= j < vs.len() && i != j implies (#[trigger] vs[i]).0 != (
        #[trigger] vs[j]).0 by {
        assert(sigs[i].name@ != sigs[j].name@);
    }
    if exists|i: int| 0 <= i < sigs.len() && (#[trigger] sigs[i]).name@ == name {
        let i = choose|i: int| 0 <= i < sigs.len() && (#[trigger] sigs[i]).name@ == name;
        assert(vs[i].0 == name);
        let j = choose|j: int| 0 <= j < vs.len() && (#[trigger] vs[j]).0 == name;
        if i != j {
            assert(sigs[i].name@ != sigs[j].name@);
        }
    } else {
        if exists|j: int| 0 <= j < vs.len() && (#[trigger] vs[j]).0 == name {
            let j = choose|j: int| 0 <= j < vs.len() && (#[trigger] vs[j]).0 == name;
            assert(sigs[j].name@ == name);
        }
    }
}

/// With distinct names, the signature at position `k` is the one its name
/// finds.
pub proof fn lemma_view_lookup_at(sigs: Seq<SigView>, k: int)
    requires
        view_names_unique(sigs),
        0 <= k < sigs.len(),
    ensures
        view_lookup(sigs, sigs[k].0) == Some(sigs[k]),
{
    let j = choose|j: int| 0 <= j < sigs.len() && (#[trigger] sigs[j]).0 == sigs[k].0;
    if j != k {
        assert(sigs[j].0 != sigs[k].0);
    }
}

pub open spec fn is_numeric_ty(t: Type) -> bool {
    t is I32 || t is I64 || t is F32 || t is F64
}

pub open spec fn is_int_ty(t: Type) -> bool {
    t is I32 || t is I64
}

pub open spec fn is_float_ty(t: Type) -> bool {
    t is F32 || t is F64
}

/// The type of `l op r` when both operands have type `t`.
pub open spec fn binop_result(op: BinaryOp, t: Type) -> Option<Type> {
    match op {
        BinaryOp::Add | BinaryOp::Sub | BinaryOp::Mul | BinaryOp::Div | BinaryOp::Mod
        | BinaryOp::Pow => if is_numeric_ty(t) {
            Some(t)
        } else {
            None
        },
        BinaryOp::BitAnd | BinaryOp::BitOr | BinaryOp::BitXor | BinaryOp::Shl | BinaryOp::Shr => {
            if is_int_ty(t) {
                Some(t)
            } else {
                None
            }
        },
        BinaryOp::Eq | BinaryOp::Ne => Some(Type::Bool),
        BinaryOp::Lt | BinaryOp::Le | BinaryOp::Gt | BinaryOp::Ge => if is_numeric_ty(t) {
            Some(Type::Bool)
        } else {
            None
        },
    }
}

/// A comparison `<`, `<=`, `>` or `>=` of two operands of one numeric type
/// (`i32`, `i64`, `f32` or `f64`, floats included) typechecks, with type
/// `bool`; arithmetic `+ - * / % **` on them typechecks with their type.
pub proof fn lemma_numeric_binary_typechecks(
    vars: Seq<Seq<Symbol>>,
    sigs: Seq<SigView>,
    op: BinaryOp,
    left: Expr,
    right: Expr,
    span: Span,
    hint: Option<Type>,
    tl: TypedExpr,
    tr: TypedExpr,
)
    requires
        expr_typed(vars, sigs, left, hint, tl),
        expr_typed(vars, sigs, right, Some(tl.spec_ty()), tr),
        tr.spec_ty() == tl.spec_ty(),
        tl.spec_ty() == Type::I32 || tl.spec_ty() == Type::I64 || tl.spec_ty() == Type::F32 || tl.spec_ty()
            == Type::F64,
    ensures
        (op == BinaryOp::Lt || op == BinaryOp::Le || op == BinaryOp::Gt || op == BinaryOp::Ge) ==> expr_typed(
            vars,
            sigs,
            Expr::Binary { op, left: Box::new(left), right: Box::new(right), span },
            hint,
            TypedExpr::Binary { op, left: Box::new(tl), right: Box::new(tr), ty: Type::Bool, span },
        ),
        (op == BinaryOp::Add || op == BinaryOp::Sub || op == BinaryOp::Mul || op == BinaryOp::Div || op
            == BinaryOp::Mod || op == BinaryOp::Pow) ==> expr_typed(
            vars,
            sigs,
            Expr::Binary { op, left: Box::new(left), right: Box::new(right), span },
            hint,
            TypedExpr::Binary { op, left: Box::new(tl), right: Box::new(tr), ty: tl.spec_ty(), span },
        ),
{
}

/// Every typing of a comparison gives it type `bool`, and every typing of a
/// bitwise operator has integer operands.
pub proof fn lemma_binary_result_types(
    vars: Seq<Seq<Symbol>>,
    sigs: Seq<SigView>,
    e: Expr,
    hint: Option<Type>,
    te: TypedExpr,
)
    requires
        expr_typed(vars, sigs, e, hint, te),
        e is Binary,
    ensures
        (e->Binary_op == BinaryOp::Lt || e->Binary_op == BinaryOp::Le || e->Binary_op == BinaryOp::Gt
            || e->Binary_op == BinaryOp::Ge || e->Binary_op == BinaryOp::Eq || e->Binary_op == BinaryOp::Ne)
            ==> te.spec_ty() == Type::Bool,
        (e->Binary_op == BinaryOp::BitAnd || e->Binary_op == BinaryOp::BitOr || e->Binary_op == BinaryOp::BitXor
            || e->Binary_op == BinaryOp::Shl || e->Binary_op == BinaryOp::Shr) ==> (te.spec_ty() == Type::I32
            || te.spec_ty() == Type::I64),
{
}

/// A typing of `l op r` as the type rules give it: both operands of one
/// type; arithmetic on a numeric type keeps that type; bitwise operators and
/// shifts on an integer type keep it; comparisons on a numeric type, and
/// equality on any type, give `bool`.
pub open spec fn binary_typing_ok(op: BinaryOp, lt: Type, rt: Type, ty: Type) -> bool {
    let numeric = lt == Type::I32 || lt == Type::I64 || lt == Type::F32 || lt == Type::F64;
    let integer = lt == Type::I32 || lt == Type::I64;
    &&& lt == rt
    &&& match op {
        BinaryOp::Add | BinaryOp::Sub | BinaryOp::Mul | BinaryOp::Div | BinaryOp::Mod | BinaryOp::Pow => numeric
            && ty == lt,
        BinaryOp::BitAnd | BinaryOp::BitOr | BinaryOp::BitXor | BinaryOp::Shl | BinaryOp::Shr => integer && ty
            == lt,
        BinaryOp::Lt | BinaryOp::Le | BinaryOp::Gt | BinaryOp::Ge => numeric && ty == Type::Bool,
        BinaryOp::Eq | BinaryOp::Ne => ty == Type::Bool,
    }
}

/// A binary expression is typed exactly as the type rules say: every typing
/// of it follows `binary_typing_ok`, and typed operands that follow it give
/// a typing of the whole.
pub proof fn lemma_binary_typing_rules(
    vars: Seq<Seq<Symbol>>,
    sigs: Seq<SigView>,
    op: BinaryOp,
    left: Expr,
    right: Expr,
    span: Span,
    hint: Option<Type>,
    tl: TypedExpr,
    tr: TypedExpr,
    ty: Type,
)
    requires
        expr_typed(vars, sigs, left, hint, tl),
        expr_typed(vars, sigs, right, Some(tl.spec_ty()), tr),
    ensures
        expr_typed(
            vars,
            sigs,
            Expr::Binary { op, left: Box::new(left), right: Box::new(right), span },
            hint,
            TypedExpr::Binary { op, left: Box::new(tl), right: Box::new(tr), ty, span },
        ) <==> binary_typing_ok(op, tl.spec_ty(), tr.spec_ty(), ty),
{
}

/// An integer literal takes type `i32` when `i32` is expected, and `i64` otherwise.
pub open spec fn int_lit_ty(hint: Option<Type>) -> Type {
    if hint == Some(Type::I32) {
        Type::I32
    } else {
        Type::I64
    }
}

/// A decimal literal takes type `f32` when `f32` is expected, and `f64` otherwise.
pub open spec fn float_lit_ty(hint: Option<Type>) -> Type {
    if hint == Some(Type::F32) {
        Type::F32
    } else {
        Type::F64
    }
}
/// The built-in numeric functions and the number of arguments they take.
pub open spec fn builtin_arity(name: Seq<char>) -> Option<nat> {
    if name == "abs"@ || name == "sqrt"@ || name == "to_i64"@ || name == "popcnt"@ || name == "ctz"@ || name
        == "clz"@ || name == "sum"@ {
        Some(1)
    } else if name == "rotl"@ || name == "rotr"@ || name
        == "dot"@ || name == "vec_add"@ {
        Some(2)
    } else {
        None
    }
}

/// Built-ins whose first argument is checked against the type expected of the call.
pub open spec fn builtin_passes_hint(name: Seq<char>) -> bool {
    name == "abs"@ || name == "sqrt"@ || name == "popcnt"@ || name == "ctz"@ || name == "clz"@ || name == "rotl"@ || name == "rotr"@
}

/// An array type with numeric elements.
pub open spec fn numeric_array(t: Type) -> bool {
    t matches Type::Array(e, _) && is_numeric_ty(*e)
}

pub open spec fn elem_of(t: Type) -> Type {
    match t {
        Type::Array(e, _) => *e,
        _ => Type::Void,
    }
}

/// The result type of a built-in applied to arguments of the given types.
pub open spec fn builtin_result(name: Seq<char>, tys: Seq<Type>) -> Option<Type> {
    if name == "abs"@ {
        if tys.len() == 1 && is_numeric_ty(tys[0]) {
            Some(tys[0])
        } else {
            None
        }
    } else if name == "sqrt"@ {
        if tys.len() == 1 && is_float_ty(tys[0]) {
            Some(tys[0])
        } else {
            None
        }
    } else if name == "to_i64"@ {
        if tys.len() == 1 && is_numeric_ty(tys[0]) {
            Some(Type::I64)
        } else {
            None
        }
    } else if name == "popcnt"@ || name == "ctz"@ || name
        == "clz"@ {
        if tys.len() == 1 && is_int_ty(tys[0]) {
            Some(tys[0])
        } else {
            None
        }
    } else if name == "rotl"@ || name == "rotr"@ {
        if tys.len() == 2 && is_int_ty(tys[0]) && is_int_ty(tys[1]) {
            Some(tys[0])
        } else {
            None
        }
    } else if name == "sum"@ {
        if tys.len() == 1 && numeric_array(tys[0]) {
            Some(elem_of(tys[0]))
        } else {
            None
        }
    } else if name == "dot"@ {
        if tys.len() == 2 && numeric_array(tys[0]) && tys[1] == tys[0] {
            Some(elem_of(tys[0]))
        } else {
            None
        }
    } else if name == "vec_add"@ {
        if tys.len() == 2 && numeric_array(tys[0]) && tys[1] == tys[0] {
            Some(tys[0])
        } else {
            None
        }
    } else {
        None
    }
}

/// The hint that the `i`-th argument of a call of a built-in is checked with.
pub open spec fn builtin_arg_hint(
    name: Seq<char>,
    hint: Option<Type>,
    i: int,
    first: Type,
) -> Option<Type> {
    if i == 0 {
        if builtin_passes_hint(name) {
            hint
        } else {
            None
        }
    } else {
        Some(first)
    }
}

/// The types of a sequence of typed expressions.
pub open spec fn tys_of(s: Seq<TypedExpr>) -> Seq<Type> {
    s.map_values(|t: TypedExpr| t.spec_ty())
}

/// The expected type of the elements of an array literal.
pub open spec fn elem_hint(hint: Option<Type>) -> Option<Type> {
    match hint {
        Some(Type::Array(h, _)) => Some(*h),
        _ => None,
    }
}

/// A constant index that is outside `[0, len)`.
pub open spec fn const_index_out_of_bounds(ti: TypedExpr, len: usize) -> bool {
    ti matches TypedExpr::Literal { lit: TypedLiteral::Int(n, _), .. } && (n < 0 || n >= len)
}

/// Each argument is typed against the parameter type at its position.
pub open spec fn args_match_params(
    vars: Seq<Seq<Symbol>>,
    sigs: Seq<SigView>,
    args: Seq<Expr>,
    ptys: Seq<Type>,
    targs: Seq<TypedExpr>,
) -> bool
    decreases args, 0nat,
{
    forall|i: int|
        #![trigger args[i]]
        #![trigger targs[i]]
        0 <= i < args.len() ==> expr_typed(vars, sigs, args[i], Some(ptys[i]), targs[i])
            && targs[i].spec_ty() == ptys[i]
}

/// Each argument of a built-in is typed with the hint of its position.
pub open spec fn builtin_args_typed(
    vars: Seq<Seq<Symbol>>,
    sigs: Seq<SigView>,
    name: Seq<char>,
    hint: Option<Type>,
    args: Seq<Expr>,
    targs: Seq<TypedExpr>,
) -> bool
    decreases args, 0nat,
{
    forall|i: int|
        0 <= i < args.len() ==> expr_typed(
            vars,
            sigs,
            #[trigger] args[i],
            builtin_arg_hint(name, hint, i, targs[0].spec_ty()),
            targs[i],
        )
}

/// The arguments `targs` and result type `ty` type the call `e`: of the
/// declared function of that name if there is one, and otherwise of a built-in.
pub open spec fn call_typed(
    vars: Seq<Seq<Symbol>>,
    sigs: Seq<SigView>,
    e: Expr,
    hint: Option<Type>,
    targs: Seq<TypedExpr>,
    ty: Type,
) -> bool
    decreases e, 0nat,
{
    match e {
        Expr::Call { callee, args, span } => {
            &&& targs.len() == args@.len()
            &&& match view_lookup(sigs, callee@) {
                Some(sig) => {
                    &&& args@.len() == sig.1.len()
                    &&& args_match_params(vars, sigs, args@, sig.1, targs)
                    &&& ty == sig.2
                },
                None => {
                    &&& builtin_arity(callee@) == Some(args@.len())
                    &&& args@.len() > 0
                    &&& builtin_args_typed(vars, sigs, callee@, hint, args@, targs)
                    &&& builtin_result(callee@, tys_of(targs)) == Some(ty)
                },
            }
        },
        _ => false,
    }
}

/// `te` is the typed form of `e` in the variable scopes `vars` and with the
/// function signatures `sigs`, when a value of type `hint` is expected.
pub open spec fn expr_typed(
    vars: Seq<Seq<Symbol>>,
    sigs: Seq<SigView>,
    e: Expr,
    hint: Option<Type>,
    te: TypedExpr,
) -> bool
    decreases e, 1nat,
{
    match e {
        Expr::Literal(lit, span) => match lit {
            Literal::Int(n) => te == TypedExpr::Literal {
                lit: TypedLiteral::Int(n, int_lit_ty(hint)),
                ty: int_lit_ty(hint),
                span,
            },
            Literal::Float(f) => te == TypedExpr::Literal {
                lit: TypedLiteral::Float(f, float_lit_ty(hint)),
                ty: float_lit_ty(hint),
                span,
            },
            Literal::Bool(b) => te == TypedExpr::Literal {
                lit: TypedLiteral::Bool(b),
                ty: Type::Bool,
                span,
            },
        },
        Expr::Ident(name, span) => match scopes_lookup(vars, name@) {
            Some(sym) => te == TypedExpr::Ident { name, ty: sym.ty, span },
            None => false,
        },
        Expr::Group(inner, _) => expr_typed(vars, sigs, *inner, hint, te),
        Expr::Unary { op, expr, span } => match te {
            TypedExpr::Unary { op: op2, expr: texpr, ty, span: span2 } => {
                &&& op2 == op
                &&& span2 == span
                &&& expr_typed(vars, sigs, *expr, hint, *texpr)
                &&& (op == UnaryOp::Not ==> texpr.spec_ty() == Type::Bool && ty == Type::Bool)
                &&& (op == UnaryOp::Neg ==> is_numeric_ty(texpr.spec_ty()) && ty
                    == texpr.spec_ty())
            },
            _ => false,
        },
        Expr::Binary { op, left, right, span } => match te {
            TypedExpr::Binary { op: op2, left: tl, right: tr, ty, span: span2 } => {
                &&& op2 == op
                &&& span2 == span
                &&& expr_typed(vars, sigs, *left, hint, *tl)
                &&& expr_typed(vars, sigs, *right, Some(tl.spec_ty()), *tr)
                &&& tl.spec_ty() == tr.spec_ty()
                &&& binop_result(op, tl.spec_ty()) == Some(ty)
            },
            _ => false,
        },
        Expr::Call { callee, args, span } => match te {
            TypedExpr::Call { callee: callee2, args: targs, ty, span: span2 } => {
                &&& callee2 == callee
                &&& span2 == span
                &&& targs@.len() == args@.len()
                &&& call_typed(vars, sigs, e, hint, targs@, ty)
            },
            _ => false,
        },
        Expr::ArrayLiteral { elements, span } => match te {
            TypedExpr::ArrayLiteral { elements: telems, ty, span: span2 } => {
                &&& span2 == span
                &&& elements@.len() > 0
                &&& telems@.len() == elements@.len()
                &&& expr_typed(vars, sigs, elements@[0], elem_hint(hint), telems@[0])
                &&& forall|i: int|
                    1 <= i < elements@.len() ==> expr_typed(
                        vars,
                        sigs,
                        #[trigger] elements@[i],
                        Some(telems@[0].spec_ty()),
                        telems@[i],
                    ) && telems@[i].spec_ty() == telems@[0].spec_ty()
                &&& ty == Type::Array(Box::new(telems@[0].spec_ty()), elements@.len() as usize)
            },
            _ => false,
        },
        Expr::Index { target, index, span } => match te {
            TypedExpr::Index { target: tt, index: ti, is_safe, ty, span: span2 } => {
                &&& span2 == span
                &&& !is_safe
                &&& expr_typed(vars, sigs, *target, None, *tt)
                &&& expr_typed(vars, sigs, *index, None, *ti)
                &&& tt.spec_ty() is Array
                &&& is_int_ty(ti.spec_ty())
                &&& !const_index_out_of_bounds(*ti, tt.spec_ty()->Array_1)
                &&& ty == elem_of(tt.spec_ty())
            },
            _ => false,
        },
    }
}


/// The binding a `let` or a parameter introduces.
pub open spec fn binding(name: String, ty: Type, is_mutable: bool, span: Span) -> Symbol {
    Symbol { name, ty, is_mutable, span }
}

/// `ts` is the typed form of the statement `s`, checked in the scopes `vars`
/// inside a function returning `ret` (and inside a loop when `in_loop`).
pub open spec fn stmt_typed(
    vars: Seq<Seq<Symbol>>,
    sigs: Seq<SigView>,
    ret: Type,
    in_loop: bool,
    s: Stmt,
    ts: TypedStmt,
) -> bool
    decreases s,
{
    match s {
        Stmt::Let { name, is_mutable, ty, value, span } => match ts {
            TypedStmt::Let { name: n2, is_mutable: m2, ty: t2, value: tv, span: s2 } => {
                &&& n2 == name && m2 == is_mutable && s2 == span
                &&& match ty {
                    Some(tn) => type_of_text(tn@) == Some(t2) && expr_typed(
                        vars,
                        sigs,
                        value,
                        Some(t2),
                        tv,
                    ),
                    None => expr_typed(vars, sigs, value, None, tv) && t2 != Type::Void,
                }
                &&& tv.spec_ty() == t2
                &&& scope_lookup(vars.last(), name@).is_none()
            },
            _ => false,
        },
        Stmt::Assign { name, value, span } => match ts {
            TypedStmt::Assign { name: n2, value: tv, span: s2 } => {
                &&& n2 == name && s2 == span
                &&& scopes_lookup(vars, name@) matches Some(sym) && sym.is_mutable && expr_typed(
                    vars,
                    sigs,
                    value,
                    Some(sym.ty),
                    tv,
                ) && tv.spec_ty() == sym.ty
            },
            _ => false,
        },
        Stmt::IndexAssign { target, index, value, span } => match ts {
            TypedStmt::IndexAssign { target: t2, index: ti, value: tv, is_safe, span: s2 } => {
                &&& t2 == target && s2 == span && !is_safe
                &&& scopes_lookup(vars, target@) matches Some(sym) && sym.is_mutable
                    && sym.ty is Array && expr_typed(vars, sigs, index, None, ti) && is_int_ty(
                    ti.spec_ty(),
                ) && !const_index_out_of_bounds(ti, sym.ty->Array_1) && expr_typed(
                    vars,
                    sigs,
                    value,
                    Some(elem_of(sym.ty)),
                    tv,
                ) && tv.spec_ty() == elem_of(sym.ty)
            },
            _ => false,
        },
        Stmt::Return(e, span) => match ts {
            TypedStmt::Return(te, s2) => {
                &&& s2 == span
                &&& match e {
                    Some(e) => te matches Some(t) && expr_typed(vars, sigs, e, Some(ret), t)
                        && t.spec_ty() == ret,
                    None => te is None && ret == Type::Void,
                }
            },
            _ => false,
        },
        Stmt::Break(span) => ts == TypedStmt::Break(span) && in_loop,
        Stmt::Expr(e) => match ts {
            TypedStmt::Expr(te) => expr_typed(vars, sigs, e, None, te),
            _ => false,
        },
        Stmt::If { condition, then_branch, else_branch, span } => match ts {
            TypedStmt::If { condition: tc, then_branch: tt, else_branch: te, span: s2 } => {
                &&& s2 == span
                &&& expr_typed(vars, sigs, condition, Some(Type::Bool), tc)
                &&& tc.spec_ty() == Type::Bool
                &&& block_typed(vars, sigs, ret, in_loop, then_branch, tt)
                &&& match else_branch {
                    Some(eb) => te matches Some(teb) && block_typed(
                        vars,
                        sigs,
                        ret,
                        in_loop,
                        eb,
                        teb,
                    ),
                    None => te is None,
                }
            },
            _ => false,
        },
        Stmt::While { condition, body, span } => match ts {
            TypedStmt::While { condition: tc, body: tb, span: s2 } => {
                &&& s2 == span
                &&& expr_typed(vars, sigs, condition, Some(Type::Bool), tc)
                &&& tc.spec_ty() == Type::Bool
                &&& block_typed(vars, sigs, ret, true, body, tb)
            },
            _ => false,
        },
    }
}

/// The scopes after the typed statement `ts`: a `let` binds its name in the
/// innermost scope, and nothing else changes them.
pub open spec fn stmt_out(vars: Seq<Seq<Symbol>>, ts: TypedStmt) -> Seq<Seq<Symbol>> {
    match ts {
        TypedStmt::Let { name, is_mutable, ty, span, .. } => define_in(
            vars,
            binding(name, ty, is_mutable, span),
        ),
        _ => vars,
    }
}

/// The scopes after the typed statements `ts`, in order.
pub open spec fn stmts_out(vars: Seq<Seq<Symbol>>, ts: Seq<TypedStmt>) -> Seq<Seq<Symbol>>
    decreases ts.len(),
{
    if ts.len() == 0 {
        vars
    } else {
        stmt_out(stmts_out(vars, ts.drop_last()), ts.last())
    }
}

/// The statements `ss`, checked in order from the scopes `vars`, have the
/// typed forms `ts`.
pub open spec fn stmts_typed(
    vars: Seq<Seq<Symbol>>,
    sigs: Seq<SigView>,
    ret: Type,
    in_loop: bool,
    ss: Seq<Stmt>,
    ts: Seq<TypedStmt>,
) -> bool
    decreases ss,
{
    if ss.len() == 0 {
        ts.len() == 0
    } else {
        &&& ts.len() == ss.len()
        &&& stmts_typed(
            vars,
            sigs,
            ret,
            in_loop,
            ss.subrange(0, ss.len() - 1),
            ts.subrange(0, ts.len() - 1),
        )
        &&& stmt_typed(
            stmts_out(vars, ts.subrange(0, ts.len() - 1)),
            sigs,
            ret,
            in_loop,
            ss[ss.len() - 1],
            ts[ts.len() - 1],
        )
    }
}

/// A block is checked in a scope of its own.
pub open spec fn block_typed(
    vars: Seq<Seq<Symbol>>,
    sigs: Seq<SigView>,
    ret: Type,
    in_loop: bool,
    b: Block,
    tb: TypedBlock,
) -> bool
    decreases b,
{
    &&& tb.span == b.span
    &&& stmts_typed(vars.push(Seq::<Symbol>::empty()), sigs, ret, in_loop, b.stmts@, tb.stmts@)
}

/// Statements only ever bind names in the innermost scope.
pub proof fn lemma_stmts_out_keeps_outer(vars: Seq<Seq<Symbol>>, ts: Seq<TypedStmt>)
    requires
        vars.len() >= 1,
    ensures
        stmts_out(vars, ts).len() == vars.len(),
        stmts_out(vars, ts).drop_last() == vars.drop_last(),
    decreases ts.len(),
{
    if ts.len() > 0 {
        lemma_stmts_out_keeps_outer(vars, ts.drop_last());
        let m = stmts_out(vars, ts.drop_last());
        assert(stmt_out(m, ts.last()).drop_last() =~= m.drop_last());
    }
}

/// The parameters of `f` as immutable bindings of the types `ptys`.
pub open spec fn param_bindings(f: Function, ptys: Seq<Type>) -> Seq<Symbol> {
    Seq::new(
        f.params@.len(),
        |i: int| binding(f.params@[i].name, ptys[i], false, f.params@[i].span),
    )
}

/// The type a function declares it returns.
pub open spec fn declared_return(f: Function) -> Option<Type> {
    match f.return_ty {
        Some(r) => type_of_text(r@),
        None => Some(Type::Void),
    }
}

/// `sig` is the signature that `f` declares: its name, its parameters'
/// types and its return type (`void` when none is written).
pub open spec fn declares(f: Function, sig: SigView) -> bool {
    &&& sig.0 == f.name@
    &&& sig.1.len() == f.params@.len()
    &&& forall|i: int|
        0 <= i < f.params@.len() ==> type_of_text(f.params@[i].ty@) == Some(#[trigger] sig.1[i])
    &&& declared_return(f) == Some(sig.2)
}

/// `tf` is the typed form of `f`: its parameters are bound (with distinct
/// names) in a new scope inside `vars`, and its body is checked there against
/// its signature in `sigs`.
pub open spec fn function_typed(
    vars: Seq<Seq<Symbol>>,
    sigs: Seq<SigView>,
    f: Function,
    tf: TypedFunction,
) -> bool {
    view_lookup(sigs, f.name@) matches Some(sig) && {
        let ps = param_bindings(f, sig.1);
        &&& sig.1.len() == f.params@.len()
        &&& names_unique(ps)
        &&& tf.name == f.name && tf.return_ty == sig.2 && tf.span == f.span
        &&& tf.body.span == f.body.span
        &&& tf.params@.len() == f.params@.len()
        &&& forall|i: int|
            0 <= i < f.params@.len() ==> #[trigger] tf.params@[i] == (TypedParam {
                name: f.params@[i].name,
                ty: sig.1[i],
                span: f.params@[i].span,
            })
        &&& stmts_typed(vars.push(ps), sigs, sig.2, false, f.body.stmts@, tf.body.stmts@)
    }
}

/// The signatures `sigs` are those the functions `fs` declare, in order.
pub open spec fn declares_all(fs: Seq<Function>, sigs: Seq<SigView>) -> bool {
    &&& sigs.len() == fs.len()
    &&& forall|i: int| 0 <= i < fs.len() ==> declares(#[trigger] fs[i], sigs[i])
}

/// Every typed form of `e` has type `t`: the type of an expression is
/// determined by the expression, the scopes and the expected type.
pub open spec fn type_determined(
    vars: Seq<Seq<Symbol>>,
    sigs: Seq<SigView>,
    e: Expr,
    hint: Option<Type>,
    t: Type,
) -> bool {
    forall|te: TypedExpr| #[trigger] expr_typed(vars, sigs, e, hint, te) ==> te.spec_ty() == t
}

/// `e` has no typed form.
pub open spec fn untypable(
    vars: Seq<Seq<Symbol>>,
    sigs: Seq<SigView>,
    e: Expr,
    hint: Option<Type>,
) -> bool {
    forall|te: TypedExpr| !#[trigger] expr_typed(vars, sigs, e, hint, te)
}

/// The value of a typed integer literal.
pub open spec fn int_lit_value(t: TypedExpr) -> Option<i64> {
    match t {
        TypedExpr::Literal { lit: TypedLiteral::Int(n, _), .. } => Some(n),
        _ => None,
    }
}

/// All typed forms of an expression agree on whether they are an integer
/// literal, and on its value.
pub proof fn lemma_literal_determined(
    vars: Seq<Seq<Symbol>>,
    sigs: Seq<SigView>,
    e: Expr,
    hint: Option<Type>,
    t1: TypedExpr,
    t2: TypedExpr,
)
    requires
        expr_typed(vars, sigs, e, hint, t1),
        expr_typed(vars, sigs, e, hint, t2),
    ensures
        int_lit_value(t1) == int_lit_value(t2),
    decreases e,
{
    match e {
        Expr::Group(inner, _) => {
            lemma_literal_determined(vars, sigs, *inner, hint, t1, t2);
        },
        _ => {},
    }
}

/// The statement `s` has no typed form.
pub open spec fn stmt_untypable(
    vars: Seq<Seq<Symbol>>,
    sigs: Seq<SigView>,
    ret: Type,
    in_loop: bool,
    s: Stmt,
) -> bool {
    forall|ts: TypedStmt| !#[trigger] stmt_typed(vars, sigs, ret, in_loop, s, ts)
}

/// Every typed form of `s` leaves the scopes `out`.
pub open spec fn stmt_out_determined(
    vars: Seq<Seq<Symbol>>,
    sigs: Seq<SigView>,
    ret: Type,
    in_loop: bool,
    s: Stmt,
    out: Seq<Seq<Symbol>>,
) -> bool {
    forall|ts: TypedStmt| #[trigger] stmt_typed(vars, sigs, ret, in_loop, s, ts) ==> stmt_out(vars, ts) == out
}

pub open spec fn stmts_untypable(
    vars: Seq<Seq<Symbol>>,
    sigs: Seq<SigView>,
    ret: Type,
    in_loop: bool,
    ss: Seq<Stmt>,
) -> bool {
    forall|ts: Seq<TypedStmt>| !#[trigger] stmts_typed(vars, sigs, ret, in_loop, ss, ts)
}

pub open spec fn stmts_out_determined(
    vars: Seq<Seq<Symbol>>,
    sigs: Seq<SigView>,
    ret: Type,
    in_loop: bool,
    ss: Seq<Stmt>,
    out: Seq<Seq<Symbol>>,
) -> bool {
    forall|ts: Seq<TypedStmt>| #[trigger] stmts_typed(vars, sigs, ret, in_loop, ss, ts) ==> stmts_out(vars, ts) == out
}

pub open spec fn block_untypable(
    vars: Seq<Seq<Symbol>>,
    sigs: Seq<SigView>,
    ret: Type,
    in_loop: bool,
    b: Block,
) -> bool {
    forall|tb: TypedBlock| !#[trigger] block_typed(vars, sigs, ret, in_loop, b, tb)
}

/// A typed form of a statement list gives typed forms of its prefixes.
pub proof fn lemma_stmts_typed_prefix(
    vars: Seq<Seq<Symbol>>,
    sigs: Seq<SigView>,
    ret: Type,
    in_loop: bool,
    ss: Seq<Stmt>,
    ts: Seq<TypedStmt>,
    k: int,
)
    requires
        stmts_typed(vars, sigs, ret, in_loop, ss, ts),
        0 <= k <= ss.len(),
    ensures
        ts.len() == ss.len(),
        stmts_typed(vars, sigs, ret, in_loop, ss.subrange(0, k), ts.subrange(0, k)),
        k < ss.len() ==> stmt_typed(
            stmts_out(vars, ts.subrange(0, k)),
            sigs,
            ret,
            in_loop,
            ss[k],
            ts[k],
        ),
    decreases ss.len(),
{
    if ss.len() == 0 {
        assert(ss.subrange(0, k) =~= ss);
        assert(ts.subrange(0, k) =~= ts);
    } else if k == ss.len() {
        assert(ss.subrange(0, k) =~= ss);
        assert(ts.subrange(0, k) =~= ts);
    } else {
        let n = ss.len() - 1;
        let pre = ss.subrange(0, n);
        let tpre = ts.subrange(0, n);
        lemma_stmts_typed_prefix(vars, sigs, ret, in_loop, pre, tpre, k);
        assert(pre.subrange(0, k) =~= ss.subrange(0, k));
        assert(tpre.subrange(0, k) =~= ts.subrange(0, k));
        if k < n {
            assert(pre[k] == ss[k] && tpre[k] == ts[k]);
        } else {
            assert(tpre =~= ts.subrange(0, k));
        }
    }
}

/// The signatures a program declares are determined by the program.
pub proof fn lemma_declares_unique(fs: Seq<Function>, a: Seq<SigView>, b: Seq<SigView>)
    requires
        declares_all(fs, a),
        declares_all(fs, b),
    ensures
        a == b,
{
    assert forall|i: int| 0 <= i < fs.len() implies #[trigger] a[i] == b[i] by {
        assert(declares(fs[i], a[i]) && declares(fs[i], b[i]));
        assert forall|j: int| 0 <= j < a[i].1.len() implies a[i].1[j] == b[i].1[j] by {
            assert(type_of_text(fs[i].params@[j].ty@) == Some(a[i].1[j]));
            assert(type_of_text(fs[i].params@[j].ty@) == Some(b[i].1[j]));
        }
        assert(a[i].1 =~= b[i].1);
    }
    assert(a =~= b);
}

// ---------------------------------------------------------------------------
// Executable checker
// ---------------------------------------------------------------------------

/// Whether `s` spells `w`.
pub fn text_is(s: &String, w: &str) -> (b: bool)
    ensures
        b == (s@ == w@),
{
    *s == String::from_str(w)
}

fn builtin_arity_of(name: &String) -> (r: Option<usize>)
    ensures
        match builtin_arity(name@) {
            Some(n) => r == Some(n as usize),
            None => r.is_none(),
        },
{
    if text_is(name, "abs") || text_is(name, "sqrt") || text_is(name, "to_i64") || text_is(
        name,
        "popcnt",
    ) || text_is(name, "ctz") || text_is(name, "clz") || text_is(name, "sum") {
        Some(1)
    } else if text_is(name, "rotl") || text_is(name, "rotr") || text_is(name, "dot") || text_is(
        name,
        "vec_add",
    ) {
        Some(2)
    } else {
        None
    }
}

fn builtin_passes_hint_of(name: &String) -> (b: bool)
    ensures
        b == builtin_passes_hint(name@),
{
    text_is(name, "abs") || text_is(name, "sqrt") || text_is(name, "popcnt") || text_is(
        name,
        "ctz",
    ) || text_is(name, "clz") || text_is(name, "rotl") || text_is(name, "rotr")
}

fn is_numeric_array(t: &Type) -> (b: bool)
    ensures
        b == numeric_array(*t),
{
    match t {
        Type::Array(e, _) => e.is_numeric(),
        _ => false,
    }
}

fn elem_type_of(t: &Type) -> (r: Type)
    ensures
        r == elem_of(*t),
{
    match t {
        Type::Array(e, _) => e.duplicate(),
        _ => Type::Void,
    }
}

fn builtin_result_of(name: &String, tys: &Vec<Type>) -> (r: Option<Type>)
    ensures
        r == builtin_result(name@, tys@),
{
    let n = tys.len();
    if text_is(name, "abs") {
        if n == 1 && tys[0].is_numeric() {
            Some(tys[0].duplicate())
        } else {
            None
        }
    } else if text_is(name, "sqrt") {
        if n == 1 && tys[0].is_float() {
            Some(tys[0].duplicate())
        } else {
            None
        }
    } else if text_is(name, "to_i64") {
        if n == 1 && tys[0].is_numeric() {
            Some(Type::I64)
        } else {
            None
        }
    } else if text_is(name, "popcnt") || text_is(name, "ctz") || text_is(name, "clz") {
        if n == 1 && tys[0].is_integer() {
            Some(tys[0].duplicate())
        } else {
            None
        }
    } else if text_is(name, "rotl") || text_is(name, "rotr") {
        if n == 2 && tys[0].is_integer() && tys[1].is_integer() {
            Some(tys[0].duplicate())
        } else {
            None
        }
    } else if text_is(name, "sum") {
        if n == 1 && is_numeric_array(&tys[0]) {
            Some(elem_type_of(&tys[0]))
        } else {
            None
        }
    } else if text_is(name, "dot") {
        if n == 2 && is_numeric_array(&tys[0]) && tys[1].same(&tys[0]) {
            Some(elem_type_of(&tys[0]))
        } else {
            None
        }
    } else if text_is(name, "vec_add") {
        if n == 2 && is_numeric_array(&tys[0]) && tys[1].same(&tys[0]) {
            Some(tys[0].duplicate())
        } else {
            None
        }
    } else {
        None
    }
}

/// The type checker: the variable scopes, the signatures of the program's
/// functions, the return type of the function being checked, and how many
/// loops enclose the current statement.
pub struct TypeChecker {
    env: ScopeEnvironment,
    current_fn_return_ty: Type,
    in_loop: bool,
}

impl TypeChecker {
    pub closed spec fn vars(&self) -> Seq<Seq<Symbol>> {
        self.env.model()
    }

    pub closed spec fn sigs(&self) -> Seq<SigView> {
        views_of(self.env.sigs())
    }

    pub closed spec fn ret_ty(&self) -> Type {
        self.current_fn_return_ty
    }

    pub closed spec fn in_loop(&self) -> bool {
        self.in_loop
    }

    pub closed spec fn wf(&self) -> bool {
        self.env.wf()
    }

    pub fn new() -> (c: Self)
        ensures
            c.wf(),
            c.vars() == seq![Seq::<Symbol>::empty()],
            c.sigs() == Seq::<SigView>::empty(),
            c.ret_ty() == Type::Void,
            !c.in_loop(),
    {
        let c = TypeChecker { env: ScopeEnvironment::new(), current_fn_return_ty: Type::Void, in_loop: false };
        assert(c.sigs() =~= Seq::<SigView>::empty());
        c
    }

    /// Types `expr` where a value of type `expected_hint` (if any) is expected.
    /// An `Ok` result is the typed form of `expr` under the typing rules
    /// (`expr_typed`).
    pub fn check_expr(&self, expr: &Expr, expected_hint: Option<Type>) -> (res: Result<
        TypedExpr,
        TypeError,
    >)
        requires
            self.wf(),
        ensures
            res matches Ok(te) ==> expr_typed(self.vars(), self.sigs(), *expr, expected_hint, te)
                && type_determined(self.vars(), self.sigs(), *expr, expected_hint, te.spec_ty()),
            res is Err ==> untypable(self.vars(), self.sigs(), *expr, expected_hint),
            res is Ok ==> expr_error(self.vars(), self.sigs(), *expr, expected_hint) is None,
            res matches Err(err) ==> expr_error(self.vars(), self.sigs(), *expr, expected_hint)
                == Some(err),
        decreases expr, 1nat,
    {
        match expr {
            Expr::Literal(lit, span) => match lit {
                Literal::Int(n) => {
                    let ty = match &expected_hint {
                        Some(Type::I32) => Type::I32,
                        _ => Type::I64,
                    };
                    Ok(TypedExpr::Literal { lit: TypedLiteral::Int(*n, ty.duplicate()), ty, span: *span })
                },
                Literal::Float(f) => {
                    let ty = match &expected_hint {
                        Some(Type::F32) => Type::F32,
                        _ => Type::F64,
                    };
                    Ok(
                        TypedExpr::Literal {
                            lit: TypedLiteral::Float(f.clone(), ty.duplicate()),
                            ty,
                            span: *span,
                        },
                    )
                },
                Literal::Bool(b) => Ok(
                    TypedExpr::Literal { lit: TypedLiteral::Bool(*b), ty: Type::Bool, span: *span },
                ),
            },
            Expr::Ident(name, span) => match self.env.lookup_variable(name.as_str()) {
                Some(sym) => Ok(TypedExpr::Ident { name: name.clone(), ty: sym.ty.duplicate(), span: *span }),
                None => Err(TypeError::UndeclaredVariable { name: name.clone(), span: *span }),
            },
            Expr::Group(inner, _) => {
                let r = self.check_expr(inner, expected_hint);
                proof {
                    assert forall|te2: TypedExpr| #[trigger] expr_typed(self.vars(), self.sigs(), *expr, expected_hint, te2)
                        == expr_typed(self.vars(), self.sigs(), **inner, expected_hint, te2) by {}
                }
                r
            },
            Expr::Unary { op, expr: inner, span } => self.check_unary(expr, op, inner, span, expected_hint),
            Expr::Binary { op, left, right, span } => self.check_binary(expr, op, left, right, span, expected_hint),
            Expr::Call { callee, args, span } => self.check_call(expr, callee, args, *span, expected_hint),
            Expr::ArrayLiteral { elements, span } => self.check_array(expr, elements, span, expected_hint),
            Expr::Index { target, index, span } => self.check_index(expr, target, index, span, expected_hint),
        }
    }

    fn check_unary(&self, expr: &Expr, op: &UnaryOp, inner: &Box<Expr>, span: &Span, expected_hint: Option<Type>) -> (res: Result<TypedExpr, TypeError>)
        requires
            self.wf(),
            *expr == (Expr::Unary { op: *op, expr: *inner, span: *span }),
        ensures
            res matches Ok(te) ==> expr_typed(self.vars(), self.sigs(), *expr, expected_hint, te)
                && type_determined(self.vars(), self.sigs(), *expr, expected_hint, te.spec_ty()),
            res is Err ==> untypable(self.vars(), self.sigs(), *expr, expected_hint),
            res is Ok ==> expr_error(self.vars(), self.sigs(), *expr, expected_hint) is None,
            res matches Err(err) ==> expr_error(self.vars(), self.sigs(), *expr, expected_hint)
                == Some(err),
        decreases expr, 0nat,
    {
        proof {
            assert(decreases_to!(*expr => (*expr)->Unary_expr));
        }
        let typed_inner = match self.check_expr(inner, expected_hint) {
            Ok(t) => t,
            Err(err) => {
                proof {
                    assert forall|te2: TypedExpr| !expr_typed(self.vars(), self.sigs(), *expr, expected_hint, te2) by {
                        if expr_typed(self.vars(), self.sigs(), *expr, expected_hint, te2) {
                            assert(expr_typed(self.vars(), self.sigs(), **inner, expected_hint, *te2->Unary_expr));
                        }
                    }
                }
                return Err(err);
            },
        };
        let ity = typed_inner.ty();
        proof {
            assert forall|te2: TypedExpr| expr_typed(self.vars(), self.sigs(), *expr, expected_hint, te2) implies
                te2->Unary_expr.spec_ty() == ity && te2 is Unary by {
                assert(expr_typed(self.vars(), self.sigs(), **inner, expected_hint, *te2->Unary_expr));
            }
        }
        match op {
            UnaryOp::Not => {
                if !ity.same(&Type::Bool) {
                    return Err(TypeError::InvalidUnaryOperand { op: *op, found: ity, span: *span });
                }
                Ok(TypedExpr::Unary { op: *op, expr: Box::new(typed_inner), ty: Type::Bool, span: *span })
            },
            UnaryOp::Neg => {
                if !ity.is_numeric() {
                    return Err(TypeError::InvalidUnaryOperand { op: *op, found: ity, span: *span });
                }
                Ok(TypedExpr::Unary { op: *op, expr: Box::new(typed_inner), ty: ity, span: *span })
            },
        }
    }

    fn check_binary(&self, expr: &Expr, op: &BinaryOp, left: &Box<Expr>, right: &Box<Expr>, span: &Span, expected_hint: Option<Type>) -> (res: Result<TypedExpr, TypeError>)
        requires
            self.wf(),
            *expr == (Expr::Binary { op: *op, left: *left, right: *right, span: *span }),
        ensures
            res matches Ok(te) ==> expr_typed(self.vars(), self.sigs(), *expr, expected_hint, te)
                && type_determined(self.vars(), self.sigs(), *expr, expected_hint, te.spec_ty()),
            res is Err ==> untypable(self.vars(), self.sigs(), *expr, expected_hint),
            res is Ok ==> expr_error(self.vars(), self.sigs(), *expr, expected_hint) is None,
            res matches Err(err) ==> expr_error(self.vars(), self.sigs(), *expr, expected_hint)
                == Some(err),
        decreases expr, 0nat,
    {
        proof {
            assert(decreases_to!(*expr => (*expr)->Binary_left));
            assert(decreases_to!(*expr => (*expr)->Binary_right));
        }
        let typed_left = match self.check_expr(left, expected_hint) {
            Ok(t) => t,
            Err(err) => {
                proof {
                    assert forall|te2: TypedExpr| !expr_typed(self.vars(), self.sigs(), *expr, expected_hint, te2) by {
                        if expr_typed(self.vars(), self.sigs(), *expr, expected_hint, te2) {
                            assert(expr_typed(self.vars(), self.sigs(), **left, expected_hint, *te2->Binary_left));
                        }
                    }
                }
                return Err(err);
            },
        };
        let lty = typed_left.ty();
        proof {
            assert forall|te2: TypedExpr| expr_typed(self.vars(), self.sigs(), *expr, expected_hint, te2) implies
                te2->Binary_left.spec_ty() == lty && te2 is Binary by {
                assert(expr_typed(self.vars(), self.sigs(), **left, expected_hint, *te2->Binary_left));
            }
        }
        let typed_right = match self.check_expr(right, Some(lty.duplicate())) {
            Ok(t) => t,
            Err(err) => {
                proof {
                    assert forall|te2: TypedExpr| !expr_typed(self.vars(), self.sigs(), *expr, expected_hint, te2) by {
                        if expr_typed(self.vars(), self.sigs(), *expr, expected_hint, te2) {
                            assert(expr_typed(self.vars(), self.sigs(), **right, Some(lty), *te2->Binary_right));
                        }
                    }
                }
                return Err(err);
            },
        };
        let rty = typed_right.ty();
        proof {
            assert forall|te2: TypedExpr| expr_typed(self.vars(), self.sigs(), *expr, expected_hint, te2) implies
                te2->Binary_right.spec_ty() == rty by {
                assert(expr_typed(self.vars(), self.sigs(), **right, Some(lty), *te2->Binary_right));
            }
        }
        if !lty.same(&rty) {
            return Err(TypeError::InvalidBinaryOperands { op: *op, left: lty, right: rty, span: *span });
        }
        let ty = match op {
            BinaryOp::Add | BinaryOp::Sub | BinaryOp::Mul | BinaryOp::Div | BinaryOp::Mod
            | BinaryOp::Pow => {
                if !lty.is_numeric() {
                    return Err(TypeError::InvalidBinaryOperands { op: *op, left: lty, right: rty, span: *span });
                }
                lty
            },
            BinaryOp::BitAnd | BinaryOp::BitOr | BinaryOp::BitXor | BinaryOp::Shl
            | BinaryOp::Shr => {
                if !lty.is_integer() {
                    return Err(TypeError::InvalidBinaryOperands { op: *op, left: lty, right: rty, span: *span });
                }
                lty
            },
            BinaryOp::Eq | BinaryOp::Ne => Type::Bool,
            BinaryOp::Lt | BinaryOp::Le | BinaryOp::Gt | BinaryOp::Ge => {
                if !lty.is_numeric() {
                    return Err(TypeError::InvalidBinaryOperands { op: *op, left: lty, right: rty, span: *span });
                }
                Type::Bool
            },
        };
        Ok(TypedExpr::Binary { op: *op, left: Box::new(typed_left), right: Box::new(typed_right), ty, span: *span })
    }

    fn check_array(&self, expr: &Expr, elements: &Vec<Expr>, span: &Span, expected_hint: Option<Type>) -> (res: Result<TypedExpr, TypeError>)
        requires
            self.wf(),
            *expr == (Expr::ArrayLiteral { elements: *elements, span: *span }),
        ensures
            res matches Ok(te) ==> expr_typed(self.vars(), self.sigs(), *expr, expected_hint, te)
                && type_determined(self.vars(), self.sigs(), *expr, expected_hint, te.spec_ty()),
            res is Err ==> untypable(self.vars(), self.sigs(), *expr, expected_hint),
            res is Ok ==> expr_error(self.vars(), self.sigs(), *expr, expected_hint) is None,
            res matches Err(err) ==> expr_error(self.vars(), self.sigs(), *expr, expected_hint)
                == Some(err),
        decreases expr, 0nat,
    {
        let ghost fh = elem_hint(expected_hint);
        let n = elements.len();
        if n == 0 {
            return Err(TypeError::EmptyArrayLiteral { span: *span });
        }
        let first_hint = match &expected_hint {
            Some(Type::Array(h, _)) => Some(h.duplicate()),
            _ => None,
        };
        assert(first_hint == fh);
        proof {
            assert((*expr)->elements == *elements);
            assert(decreases_to!(*expr => (*expr)->elements));
            assert(decreases_to!(*elements => elements@));
            assert(decreases_to!(elements@ => elements@[0]));
        }
        let first = match self.check_expr(&elements[0], first_hint) {
            Ok(t) => t,
            Err(err) => {
                proof {
                    assert forall|te2: TypedExpr| !expr_typed(self.vars(), self.sigs(), *expr, expected_hint, te2) by {
                        if expr_typed(self.vars(), self.sigs(), *expr, expected_hint, te2) {
                            assert(expr_typed(self.vars(), self.sigs(), elements@[0], fh, te2->ArrayLiteral_elements@[0]));
                        }
                    }
                }
                return Err(err);
            },
        };
        let first_ty = first.ty();
        proof {
            assert forall|te2: TypedExpr| expr_typed(self.vars(), self.sigs(), *expr, expected_hint, te2) implies
                te2->ArrayLiteral_elements@[0].spec_ty() == first_ty && te2 is ArrayLiteral by {
                assert(expr_typed(self.vars(), self.sigs(), elements@[0], fh, te2->ArrayLiteral_elements@[0]));
            }
            lemma_expr_type(self.vars(), self.sigs(), elements@[0], fh, first);
        }
        let ghost bad = elem_bad(self.vars(), self.sigs(), elements@, first_ty);
        let mut telems: Vec<TypedExpr> = Vec::new();
        telems.push(first);
        let mut i: usize = 1;
        while i < n
            invariant
                self.wf(),
                *expr == (Expr::ArrayLiteral { elements: *elements, span: *span }),
                n == elements@.len(),
                1 <= i <= n,
                telems@.len() == i,
                telems@[0].spec_ty() == first_ty,
                fh == elem_hint(expected_hint),
                expr_typed(self.vars(), self.sigs(), elements@[0], fh, telems@[0]),
                forall|te2: TypedExpr| #[trigger] expr_typed(self.vars(), self.sigs(), *expr, expected_hint, te2) ==>
                    te2->ArrayLiteral_elements@[0].spec_ty() == first_ty && te2 is ArrayLiteral,
                forall|j: int|
                    1 <= j < i ==> expr_typed(
                        self.vars(),
                        self.sigs(),
                        #[trigger] elements@[j],
                        Some(first_ty),
                        telems@[j],
                    ) && telems@[j].spec_ty() == first_ty,
                !untypable(self.vars(), self.sigs(), elements@[0], fh),
                expr_type(self.vars(), self.sigs(), elements@[0], fh) == first_ty,
                bad == elem_bad(self.vars(), self.sigs(), elements@, first_ty),
                forall|j: int| 1 <= j < i ==> !#[trigger] bad(j),
            decreases n - i,
        {
            proof {
                assert((*expr)->elements == *elements);
                assert(decreases_to!(*expr => (*expr)->elements));
                assert(decreases_to!(*elements => elements@));
                assert(decreases_to!(elements@ => elements@[i as int]));
            }
            let te = match self.check_expr(&elements[i], Some(first_ty.duplicate())) {
                Ok(t) => t,
                Err(err) => {
                    proof {
                        assert(bad(i as int));
                        assert(first_index(bad, 1, n as int, i as int));
                        let k = choose|k: int| first_index(bad, 1, elements@.len() as int, k);
                        lemma_first_index_unique(bad, 1, n as int, i as int, k);
                        assert forall|te2: TypedExpr| !expr_typed(self.vars(), self.sigs(), *expr, expected_hint, te2) by {
                            if expr_typed(self.vars(), self.sigs(), *expr, expected_hint, te2) {
                                assert(expr_typed(self.vars(), self.sigs(), elements@[i as int], Some(te2->ArrayLiteral_elements@[0].spec_ty()), te2->ArrayLiteral_elements@[i as int]));
                            }
                        }
                    }
                    return Err(err);
                },
            };
            let ety = te.ty();
            proof {
                lemma_expr_type(self.vars(), self.sigs(), elements@[i as int], Some(first_ty), te);
                lemma_typed_span(self.vars(), self.sigs(), elements@[i as int], Some(first_ty), te);
            }
            if !ety.same(&first_ty) {
                proof {
                    assert(bad(i as int));
                    assert(first_index(bad, 1, n as int, i as int));
                    let k = choose|k: int| first_index(bad, 1, elements@.len() as int, k);
                    lemma_first_index_unique(bad, 1, n as int, i as int, k);
                    assert forall|te2: TypedExpr| !expr_typed(self.vars(), self.sigs(), *expr, expected_hint, te2) by {
                        if expr_typed(self.vars(), self.sigs(), *expr, expected_hint, te2) {
                            assert(expr_typed(self.vars(), self.sigs(), elements@[i as int], Some(te2->ArrayLiteral_elements@[0].spec_ty()), te2->ArrayLiteral_elements@[i as int]));
                        }
                    }
                }
                return Err(TypeError::ArrayElementMismatch { expected: first_ty, found: ety, span: te.span() });
            }
            assert(!bad(i as int));
            telems.push(te);
            i += 1;
        }
        proof {
            assert forall|k: int| !first_index(bad, 1, n as int, k) by {
                if first_index(bad, 1, n as int, k) {
                    assert(bad(k));
                }
            }
        }
        Ok(TypedExpr::ArrayLiteral { elements: telems, ty: Type::Array(Box::new(first_ty), n), span: *span })
    }

    fn check_index(&self, expr: &Expr, target: &Box<Expr>, index: &Box<Expr>, span: &Span, expected_hint: Option<Type>) -> (res: Result<TypedExpr, TypeError>)
        requires
            self.wf(),
            *expr == (Expr::Index { target: *target, index: *index, span: *span }),
        ensures
            res matches Ok(te) ==> expr_typed(self.vars(), self.sigs(), *expr, expected_hint, te)
                && type_determined(self.vars(), self.sigs(), *expr, expected_hint, te.spec_ty()),
            res is Err ==> untypable(self.vars(), self.sigs(), *expr, expected_hint),
            res is Ok ==> expr_error(self.vars(), self.sigs(), *expr, expected_hint) is None,
            res matches Err(err) ==> expr_error(self.vars(), self.sigs(), *expr, expected_hint)
                == Some(err),
        decreases expr, 0nat,
    {
        proof {
            assert(decreases_to!(*expr => (*expr)->Index_target));
            assert(decreases_to!(*expr => (*expr)->Index_index));
        }
        let tt = match self.check_expr(target, None) {
            Ok(t) => t,
            Err(err) => {
                proof {
                    assert forall|te2: TypedExpr| !expr_typed(self.vars(), self.sigs(), *expr, expected_hint, te2) by {
                        if expr_typed(self.vars(), self.sigs(), *expr, expected_hint, te2) {
                            assert(expr_typed(self.vars(), self.sigs(), **target, None, *te2->Index_target));
                        }
                    }
                }
                return Err(err);
            },
        };
        let tty = tt.ty();
        proof {
            assert forall|te2: TypedExpr| expr_typed(self.vars(), self.sigs(), *expr, expected_hint, te2) implies
                te2->Index_target.spec_ty() == tty && te2 is Index by {
                assert(expr_typed(self.vars(), self.sigs(), **target, None, *te2->Index_target));
            }
            lemma_expr_type(self.vars(), self.sigs(), **target, None, tt);
        }
        let len = match &tty {
            Type::Array(_, len) => *len,
            _ => {
                return Err(TypeError::CannotIndexNonArray { found: tty, span: *span });
            },
        };
        let ti = match self.check_expr(index, None) {
            Ok(t) => t,
            Err(err) => {
                proof {
                    assert forall|te2: TypedExpr| !expr_typed(self.vars(), self.sigs(), *expr, expected_hint, te2) by {
                        if expr_typed(self.vars(), self.sigs(), *expr, expected_hint, te2) {
                            assert(expr_typed(self.vars(), self.sigs(), **index, None, *te2->Index_index));
                        }
                    }
                }
                return Err(err);
            },
        };
        let ity = ti.ty();
        proof {
            assert forall|te2: TypedExpr| expr_typed(self.vars(), self.sigs(), *expr, expected_hint, te2) implies
                te2->Index_index.spec_ty() == ity && int_lit_value(*te2->Index_index) == int_lit_value(ti) by {
                assert(expr_typed(self.vars(), self.sigs(), **index, None, *te2->Index_index));
                lemma_literal_determined(self.vars(), self.sigs(), **index, None, ti, *te2->Index_index);
            }
            lemma_expr_type(self.vars(), self.sigs(), **index, None, ti);
            let c = choose|t: TypedExpr| expr_typed(self.vars(), self.sigs(), **index, None, t);
            lemma_literal_determined(self.vars(), self.sigs(), **index, None, ti, c);
            assert(expr_lit_value(self.vars(), self.sigs(), **index, None) == int_lit_value(ti));
        }
        if !ity.is_integer() {
            return Err(TypeError::InvalidIndexType { found: ity, span: *span });
        }
        if let TypedExpr::Literal { lit: TypedLiteral::Int(n, _), .. } = &ti {
            if *n < 0 || (*n as i128) >= (len as i128) {
                return Err(TypeError::IndexOutOfBounds { index: *n, len, span: *span });
            }
        }
        let ety = elem_type_of(&tty);
        Ok(TypedExpr::Index { target: Box::new(tt), index: Box::new(ti), is_safe: false, ty: ety, span: *span })
    }


    /// Types a call of a declared function or of a built-in.
    fn check_call(
        &self,
        expr: &Expr,
        callee: &String,
        args: &Vec<Expr>,
        span: Span,
        expected_hint: Option<Type>,
    ) -> (res: Result<TypedExpr, TypeError>)
        requires
            self.wf(),
            *expr == (Expr::Call { callee: *callee, args: *args, span }),
        ensures
            res matches Ok(te) ==> expr_typed(self.vars(), self.sigs(), *expr, expected_hint, te)
                && type_determined(self.vars(), self.sigs(), *expr, expected_hint, te.spec_ty()),
            res is Err ==> untypable(self.vars(), self.sigs(), *expr, expected_hint),
            res is Ok ==> expr_error(self.vars(), self.sigs(), *expr, expected_hint) is None,
            res matches Err(err) ==> expr_error(self.vars(), self.sigs(), *expr, expected_hint)
                == Some(err),
        decreases expr, 0nat,
    {
        proof {
            assert forall|te2: TypedExpr| #[trigger] expr_typed(self.vars(), self.sigs(), *expr, expected_hint, te2)
                implies te2 is Call && call_typed(self.vars(), self.sigs(), *expr, expected_hint, te2->Call_args@, te2->Call_ty)
                && te2->Call_args@.len() == args@.len() by {}
        }
        match self.env.lookup_function(callee.as_str()) {
            Some(found) => {
                let sig = found.clone();
                proof {
                    lemma_view_lookup(self.env.sigs(), callee@);
                }
                let ghost s = sig_view(sig);
                let n = args.len();
                if n != sig.param_types.len() {
                    return Err(TypeError::ArityMismatch { name: callee.clone(), expected: sig.param_types.len(), found: n, span });
                }
                let mut targs: Vec<TypedExpr> = Vec::new();
                let mut i: usize = 0;
                let ghost bad = arg_bad(self.vars(), self.sigs(), args@, s.1);
                while i < n
                    invariant
                        self.wf(),
                        *expr == (Expr::Call { callee: *callee, args: *args, span }),
                        n == args@.len(),
                        n == sig.param_types@.len(),
                        bad == arg_bad(self.vars(), self.sigs(), args@, s.1),
                        forall|j: int| 0 <= j < i ==> !#[trigger] bad(j),
                        view_lookup(self.sigs(), callee@) == Some(s),
                        s == sig_view(sig),
                        forall|te2: TypedExpr| #[trigger] expr_typed(self.vars(), self.sigs(), *expr, expected_hint, te2)
                            ==> te2 is Call && call_typed(self.vars(), self.sigs(), *expr, expected_hint, te2->Call_args@, te2->Call_ty)
                            && te2->Call_args@.len() == args@.len(),
                        i <= n,
                        targs@.len() == i,
                        forall|j: int|
                            #![trigger args@[j]]
                            #![trigger targs@[j]]
                            0 <= j < i ==> expr_typed(
                                self.vars(),
                                self.sigs(),
                                args@[j],
                                Some(sig.param_types@[j]),
                                targs@[j],
                            ) && targs@[j].spec_ty() == sig.param_types@[j],
                    decreases n - i,
                {
                    let pty = sig.param_types[i].duplicate();
                    proof {
                        assert((*expr)->args == *args);
                        assert(decreases_to!(*expr => (*expr)->args));
                        assert(decreases_to!(*args => args@));
                        assert(decreases_to!(args@ => args@[i as int]));
                    }
                    let ta = match self.check_expr(&args[i], Some(pty)) {
                        Ok(t) => t,
                        Err(err) => {
                            proof {
                                assert(bad(i as int));
                                assert(first_index(bad, 0, n as int, i as int));
                                let k = choose|k: int| first_index(bad, 0, args@.len() as int, k);
                                lemma_first_index_unique(bad, 0, n as int, i as int, k);
                                assert forall|te2: TypedExpr| !expr_typed(self.vars(), self.sigs(), *expr, expected_hint, te2) by {
                                    if expr_typed(self.vars(), self.sigs(), *expr, expected_hint, te2) {
                                        let t2 = te2->Call_args@;
                                        assert(args_match_params(self.vars(), self.sigs(), args@, s.1, t2));
                                        assert(expr_typed(self.vars(), self.sigs(), args@[i as int], Some(s.1[i as int]), t2[i as int]));
                                    }
                                }
                            }
                            return Err(err);
                        },
                    };
                    let aty = ta.ty();
                    proof {
                        lemma_expr_type(self.vars(), self.sigs(), args@[i as int], Some(s.1[i as int]), ta);
                        lemma_typed_span(self.vars(), self.sigs(), args@[i as int], Some(s.1[i as int]), ta);
                    }
                    if !aty.same(&sig.param_types[i]) {
                        proof {
                            assert(bad(i as int));
                            assert(first_index(bad, 0, n as int, i as int));
                            let k = choose|k: int| first_index(bad, 0, args@.len() as int, k);
                            lemma_first_index_unique(bad, 0, n as int, i as int, k);
                            assert forall|te2: TypedExpr| !expr_typed(self.vars(), self.sigs(), *expr, expected_hint, te2) by {
                                if expr_typed(self.vars(), self.sigs(), *expr, expected_hint, te2) {
                                    let t2 = te2->Call_args@;
                                    assert(args_match_params(self.vars(), self.sigs(), args@, s.1, t2));
                                    assert(expr_typed(self.vars(), self.sigs(), args@[i as int], Some(s.1[i as int]), t2[i as int]));
                                }
                            }
                        }
                        return Err(TypeError::TypeMismatch { expected: sig.param_types[i].duplicate(), found: aty, span: ta.span() });
                    }
                    assert(!bad(i as int));
                    targs.push(ta);
                    i += 1;
                }
                proof {
                    assert(args_match_params(self.vars(), self.sigs(), args@, sig.param_types@, targs@));
                    assert forall|k: int| !first_index(bad, 0, n as int, k) by {
                        if first_index(bad, 0, n as int, k) {
                            assert(bad(k));
                        }
                    }
                }
                let te = TypedExpr::Call { callee: callee.clone(), args: targs, ty: sig.return_ty.duplicate(), span };
                assert(call_typed(self.vars(), self.sigs(), *expr, expected_hint, te->args@, te.spec_ty()));
                Ok(te)
            },
            None => {
                proof {
                    lemma_view_lookup(self.env.sigs(), callee@);
                }
                let arity = match builtin_arity_of(callee) {
                    Some(a) => a,
                    None => {
                        return Err(TypeError::UndeclaredFunction { name: callee.clone(), span });
                    },
                };
                let n = args.len();
                if n != arity {
                    return Err(TypeError::ArityMismatch { name: callee.clone(), expected: arity, found: n, span });
                }
                let passes = builtin_passes_hint_of(callee);
                let h0 = if passes { expected_hint } else { None };
                proof {
                    assert((*expr)->args == *args);
                    assert(decreases_to!(*expr => (*expr)->args));
                    assert(decreases_to!(*args => args@));
                    assert(decreases_to!(args@ => args@[0]));
                }
                let first = match self.check_expr(&args[0], h0) {
                    Ok(t) => t,
                    Err(err) => {
                        proof {
                            assert forall|te2: TypedExpr| !expr_typed(self.vars(), self.sigs(), *expr, expected_hint, te2) by {
                                if expr_typed(self.vars(), self.sigs(), *expr, expected_hint, te2) {
                                    let t2 = te2->Call_args@;
                                    assert(builtin_args_typed(self.vars(), self.sigs(), callee@, expected_hint, args@, t2));
                                    assert(expr_typed(self.vars(), self.sigs(), args@[0], builtin_arg_hint(callee@, expected_hint, 0, t2[0].spec_ty()), t2[0]));
                                }
                            }
                        }
                        return Err(err);
                    },
                };
                let first_ty = first.ty();
                proof {
                    lemma_expr_type(self.vars(), self.sigs(), args@[0], h0, first);
                    assert forall|te2: TypedExpr| expr_typed(self.vars(), self.sigs(), *expr, expected_hint, te2)
                        implies te2->Call_args@[0].spec_ty() == first_ty by {
                        let t2 = te2->Call_args@;
                        assert(builtin_args_typed(self.vars(), self.sigs(), callee@, expected_hint, args@, t2));
                        assert(expr_typed(self.vars(), self.sigs(), args@[0], builtin_arg_hint(callee@, expected_hint, 0, t2[0].spec_ty()), t2[0]));
                    }
                }
                let mut tys: Vec<Type> = Vec::new();
                tys.push(first.ty());
                let mut targs: Vec<TypedExpr> = Vec::new();
                targs.push(first);
                let mut i: usize = 1;
                let ghost bad = builtin_arg_bad(self.vars(), self.sigs(), args@, first_ty);
                while i < n
                    invariant
                        self.wf(),
                        *expr == (Expr::Call { callee: *callee, args: *args, span }),
                        n == args@.len(),
                        view_lookup(self.sigs(), callee@) is None,
                        bad == builtin_arg_bad(self.vars(), self.sigs(), args@, first_ty),
                        forall|j: int| 1 <= j < i ==> !#[trigger] bad(j),
                        builtin_arity(callee@) == Some(n as nat),
                        !untypable(self.vars(), self.sigs(), args@[0], builtin_arg_hint(callee@, expected_hint, 0, Type::Void)),
                        expr_type(self.vars(), self.sigs(), args@[0], builtin_arg_hint(callee@, expected_hint, 0, Type::Void)) == first_ty,
                        1 <= i <= n,
                        targs@.len() == i,
                        tys@.len() == i,
                        first_ty == targs@[0].spec_ty(),
                        forall|te2: TypedExpr| #[trigger] expr_typed(self.vars(), self.sigs(), *expr, expected_hint, te2)
                            ==> te2 is Call && call_typed(self.vars(), self.sigs(), *expr, expected_hint, te2->Call_args@, te2->Call_ty)
                            && te2->Call_args@.len() == args@.len() && te2->Call_args@[0].spec_ty() == first_ty,
                        forall|j: int| 0 <= j < i ==> #[trigger] tys@[j] == targs@[j].spec_ty(),
                        forall|j: int|
                            0 <= j < i ==> expr_typed(
                                self.vars(),
                                self.sigs(),
                                #[trigger] args@[j],
                                builtin_arg_hint(callee@, expected_hint, j, first_ty),
                                targs@[j],
                            ) && type_determined(
                                self.vars(),
                                self.sigs(),
                                args@[j],
                                builtin_arg_hint(callee@, expected_hint, j, first_ty),
                                tys@[j],
                            ),
                    decreases n - i,
                {
                    proof {
                        assert((*expr)->args == *args);
                        assert(decreases_to!(*expr => (*expr)->args));
                        assert(decreases_to!(*args => args@));
                        assert(decreases_to!(args@ => args@[i as int]));
                    }
                    let ta = match self.check_expr(&args[i], Some(first_ty.duplicate())) {
                        Ok(t) => t,
                        Err(err) => {
                            proof {
                                assert(bad(i as int));
                                assert(first_index(bad, 1, n as int, i as int));
                                let k = choose|k: int| first_index(bad, 1, args@.len() as int, k);
                                lemma_first_index_unique(bad, 1, n as int, i as int, k);
                                assert forall|te2: TypedExpr| !expr_typed(self.vars(), self.sigs(), *expr, expected_hint, te2) by {
                                    if expr_typed(self.vars(), self.sigs(), *expr, expected_hint, te2) {
                                        let t2 = te2->Call_args@;
                                        assert(builtin_args_typed(self.vars(), self.sigs(), callee@, expected_hint, args@, t2));
                                        assert(expr_typed(self.vars(), self.sigs(), args@[i as int], builtin_arg_hint(callee@, expected_hint, i as int, t2[0].spec_ty()), t2[i as int]));
                                    }
                                }
                            }
                            return Err(err);
                        },
                    };
                    proof {
                        lemma_expr_type(self.vars(), self.sigs(), args@[i as int], Some(first_ty), ta);
                    }
                    assert(!bad(i as int));
                    tys.push(ta.ty());
                    targs.push(ta);
                    i += 1;
                }
                assert(tys@ =~= tys_of(targs@));
                proof {
                    assert forall|k: int| !first_index(bad, 1, n as int, k) by {
                        if first_index(bad, 1, n as int, k) {
                            assert(bad(k));
                        }
                    }
                    let spec_tys = Seq::new(
                        args@.len(),
                        |j: int| expr_type(self.vars(), self.sigs(), args@[j], builtin_arg_hint(callee@, expected_hint, j, first_ty)),
                    );
                    assert forall|j: int| 0 <= j < n implies #[trigger] spec_tys[j] == tys@[j] by {
                        lemma_expr_type(self.vars(), self.sigs(), args@[j], builtin_arg_hint(callee@, expected_hint, j, first_ty), targs@[j]);
                    }
                    assert(spec_tys =~= tys@);
                }
                proof {
                    assert forall|te2: TypedExpr| expr_typed(self.vars(), self.sigs(), *expr, expected_hint, te2)
                        implies tys_of(te2->Call_args@) == tys@ by {
                        let t2 = te2->Call_args@;
                        assert(builtin_args_typed(self.vars(), self.sigs(), callee@, expected_hint, args@, t2));
                        assert forall|j: int| 0 <= j < n implies #[trigger] tys_of(t2)[j] == tys@[j] by {
                            assert(expr_typed(self.vars(), self.sigs(), args@[j], builtin_arg_hint(callee@, expected_hint, j, t2[0].spec_ty()), t2[j]));
                        }
                        assert(tys_of(t2) =~= tys@);
                    }
                }
                match builtin_result_of(callee, &tys) {
                    Some(ty) => {
                        proof {
                            assert(builtin_arity(callee@) == Some(args@.len()));
                            assert(args@.len() > 0);
                        }
                        assert(builtin_args_typed(self.vars(), self.sigs(), callee@, expected_hint, args@, targs@));
                        let te = TypedExpr::Call { callee: callee.clone(), args: targs, ty, span };
                        assert(call_typed(self.vars(), self.sigs(), *expr, expected_hint, te->args@, te.spec_ty()));
                        Ok(te)
                    },
                    None => Err(TypeError::TypeMismatch { expected: first_ty, found: tys[n - 1].duplicate(), span }),
                }
            },
        }
    }

    /// Checks the statements of a block in order, in the current scope.
    fn check_stmts(&mut self, stmts: &Vec<Stmt>) -> (res: Result<Vec<TypedStmt>, TypeError>)
        requires
            old(self).wf(),
        ensures
            final(self).wf(),
            final(self).sigs() == old(self).sigs(),
            final(self).ret_ty() == old(self).ret_ty(),
            res is Ok ==> final(self).in_loop() == old(self).in_loop(),
            res matches Ok(v) ==> stmts_typed(
                old(self).vars(),
                old(self).sigs(),
                old(self).ret_ty(),
                old(self).in_loop(),
                stmts@,
                v@,
            ) && final(self).vars() == stmts_out(old(self).vars(), v@) && stmts_out_determined(
                old(self).vars(),
                old(self).sigs(),
                old(self).ret_ty(),
                old(self).in_loop(),
                stmts@,
                final(self).vars(),
            ),
            res is Err ==> stmts_untypable(
                old(self).vars(),
                old(self).sigs(),
                old(self).ret_ty(),
                old(self).in_loop(),
                stmts@,
            ),
            res is Ok ==> stmts_error(
                old(self).vars(),
                old(self).sigs(),
                old(self).ret_ty(),
                old(self).in_loop(),
                stmts@,
            ) is None,
            res matches Err(err) ==> stmts_error(
                old(self).vars(),
                old(self).sigs(),
                old(self).ret_ty(),
                old(self).in_loop(),
                stmts@,
            ) == Some(err),
        decreases stmts, 0nat,
    {
        let ghost v0 = self.vars();
        let ghost sigs = self.sigs();
        let ghost ret = self.ret_ty();
        let ghost lp = self.in_loop();
        let mut out: Vec<TypedStmt> = Vec::new();
        let mut i: usize = 0;
        assert(stmts@.subrange(0, 0) =~= Seq::<Stmt>::empty());
        proof {
            assert forall|ts2: Seq<TypedStmt>| #[trigger] stmts_typed(v0, sigs, ret, lp, stmts@.subrange(0, 0), ts2)
                implies stmts_out(v0, ts2) == self.vars() by {
                assert(ts2.len() == 0);
            }
        }
        while i < stmts.len()
            invariant
                self.wf(),
                self.sigs() == sigs,
                self.ret_ty() == ret,
                self.in_loop() == lp,
                v0 == old(self).vars(),
                sigs == old(self).sigs(),
                ret == old(self).ret_ty(),
                lp == old(self).in_loop(),
                i <= stmts@.len(),
                out@.len() == i,
                stmts_typed(v0, sigs, ret, lp, stmts@.subrange(0, i as int), out@),
                self.vars() == stmts_out(v0, out@),
                stmts_out_determined(v0, sigs, ret, lp, stmts@.subrange(0, i as int), self.vars()),
            decreases stmts@.len() - i,
        {
            proof {
                assert(decreases_to!(*stmts => stmts@));
                assert(decreases_to!(stmts@ => stmts@[i as int]));
            }
            let ghost prev = out@;
            let ghost mid = self.vars();
            let ts = match self.check_stmt(&stmts[i]) {
                Ok(t) => t,
                Err(err) => {
                    proof {
                        assert forall|ts2: Seq<TypedStmt>| !stmts_typed(v0, sigs, ret, lp, stmts@, ts2) by {
                            if stmts_typed(v0, sigs, ret, lp, stmts@, ts2) {
                                lemma_stmts_typed_prefix(v0, sigs, ret, lp, stmts@, ts2, i as int);
                                assert(stmts_typed(v0, sigs, ret, lp, stmts@.subrange(0, i as int), ts2.subrange(0, i as int)));
                                assert(stmt_typed(mid, sigs, ret, lp, stmts@[i as int], ts2[i as int]));
                            }
                        }
                        let upto = stmts@.subrange(0, i + 1);
                        assert forall|ts2: Seq<TypedStmt>| !stmts_typed(v0, sigs, ret, lp, upto, ts2) by {
                            if stmts_typed(v0, sigs, ret, lp, upto, ts2) {
                                lemma_stmts_typed_prefix(v0, sigs, ret, lp, upto, ts2, i as int);
                                assert(upto.subrange(0, i as int) =~= stmts@.subrange(0, i as int));
                                assert(stmts_typed(v0, sigs, ret, lp, stmts@.subrange(0, i as int), ts2.subrange(0, i as int)));
                                assert(upto[i as int] == stmts@[i as int]);
                                assert(stmt_typed(mid, sigs, ret, lp, stmts@[i as int], ts2[i as int]));
                            }
                        }
                        assert(stmts_typed(v0, sigs, ret, lp, stmts@.subrange(0, i as int), out@));
                        assert(stops_at(v0, sigs, ret, lp, stmts@, i as int));
                        let k = choose|k: int| stops_at(v0, sigs, ret, lp, stmts@, k);
                        lemma_stops_at_unique(v0, sigs, ret, lp, stmts@, i as int, k);
                        let c = choose|t: Seq<TypedStmt>| stmts_typed(v0, sigs, ret, lp, stmts@.subrange(0, i as int), t);
                        assert(stmts_typed(v0, sigs, ret, lp, stmts@.subrange(0, i as int), c));
                        assert(scopes_after(v0, sigs, ret, lp, stmts@, i as int) == mid);
                    }
                    return Err(err);
                },
            };
            out.push(ts);
            i += 1;
            proof {
                let ss = stmts@.subrange(0, i as int);
                assert(ss.subrange(0, ss.len() - 1) =~= stmts@.subrange(0, i - 1));
                assert(out@.subrange(0, out@.len() - 1) =~= prev);
                assert(out@.drop_last() =~= prev);
                assert(ss[ss.len() - 1] == stmts@[i - 1]);
                assert forall|ts2: Seq<TypedStmt>| #[trigger] stmts_typed(v0, sigs, ret, lp, ss, ts2)
                    implies stmts_out(v0, ts2) == self.vars() by {
                    lemma_stmts_typed_prefix(v0, sigs, ret, lp, ss, ts2, i - 1);
                    assert(ss.subrange(0, i - 1) =~= stmts@.subrange(0, i - 1));
                    assert(stmts_typed(v0, sigs, ret, lp, stmts@.subrange(0, i - 1), ts2.subrange(0, i - 1)));
                    assert(ts2.drop_last() =~= ts2.subrange(0, i - 1));
                    assert(stmt_typed(mid, sigs, ret, lp, stmts@[i - 1], ts2[i - 1]));
                }
            }
        }
        assert(stmts@.subrange(0, stmts@.len() as int) =~= stmts@);
        proof {
            assert forall|k: int| !stops_at(v0, sigs, ret, lp, stmts@, k) by {
                if 0 <= k < stmts@.len() {
                    assert(stmts_typed(v0, sigs, ret, lp, stmts@.subrange(0, stmts@.len() as int), out@));
                    lemma_prefix_typable(v0, sigs, ret, lp, stmts@, stmts@.len() as int, k + 1);
                }
            }
        }
        Ok(out)
    }

    /// Checks a block in a scope of its own.
    fn check_block(&mut self, block: &Block) -> (res: Result<TypedBlock, TypeError>)
        requires
            old(self).wf(),
        ensures
            final(self).wf(),
            final(self).sigs() == old(self).sigs(),
            final(self).ret_ty() == old(self).ret_ty(),
            res is Ok ==> final(self).in_loop() == old(self).in_loop() && final(self).vars()
                == old(self).vars(),
            res matches Ok(tb) ==> block_typed(
                old(self).vars(),
                old(self).sigs(),
                old(self).ret_ty(),
                old(self).in_loop(),
                *block,
                tb,
            ),
            res is Err ==> block_untypable(
                old(self).vars(),
                old(self).sigs(),
                old(self).ret_ty(),
                old(self).in_loop(),
                *block,
            ),
            res is Ok ==> block_error(
                old(self).vars(),
                old(self).sigs(),
                old(self).ret_ty(),
                old(self).in_loop(),
                *block,
            ) is None,
            res matches Err(err) ==> block_error(
                old(self).vars(),
                old(self).sigs(),
                old(self).ret_ty(),
                old(self).in_loop(),
                *block,
            ) == Some(err),
        decreases block, 0nat,
    {
        self.env.enter_scope();
        proof {
            assert(decreases_to!(*block => block.stmts));
        }
        let ghost pushed = self.vars();
        let stmts = match self.check_stmts(&block.stmts) {
            Ok(v) => v,
            Err(err) => {
                proof {
                    assert forall|tb: TypedBlock| !block_typed(old(self).vars(), old(self).sigs(), old(self).ret_ty(), old(self).in_loop(), *block, tb) by {
                        if block_typed(old(self).vars(), old(self).sigs(), old(self).ret_ty(), old(self).in_loop(), *block, tb) {
                            assert(stmts_typed(pushed, old(self).sigs(), old(self).ret_ty(), old(self).in_loop(), block.stmts@, tb.stmts@));
                        }
                    }
                }
                return Err(err);
            },
        };
        let ghost inner = self.vars();
        proof {
            lemma_stmts_out_keeps_outer(pushed, stmts@);
        }
        self.env.exit_scope();
        proof {
            assert(inner.drop_last() =~= old(self).vars());
        }
        Ok(TypedBlock { stmts, span: block.span })
    }

    /// Checks one statement; a `let` binds its name in the innermost scope.
    fn check_stmt(&mut self, stmt: &Stmt) -> (res: Result<TypedStmt, TypeError>)
        requires
            old(self).wf(),
        ensures
            final(self).wf(),
            final(self).sigs() == old(self).sigs(),
            final(self).ret_ty() == old(self).ret_ty(),
            res is Ok ==> final(self).in_loop() == old(self).in_loop(),
            res matches Ok(ts) ==> stmt_typed(
                old(self).vars(),
                old(self).sigs(),
                old(self).ret_ty(),
                old(self).in_loop(),
                *stmt,
                ts,
            ) && final(self).vars() == stmt_out(old(self).vars(), ts) && stmt_out_determined(
                old(self).vars(),
                old(self).sigs(),
                old(self).ret_ty(),
                old(self).in_loop(),
                *stmt,
                final(self).vars(),
            ),
            res is Err ==> stmt_untypable(
                old(self).vars(),
                old(self).sigs(),
                old(self).ret_ty(),
                old(self).in_loop(),
                *stmt,
            ),
            res is Ok ==> stmt_error(
                old(self).vars(),
                old(self).sigs(),
                old(self).ret_ty(),
                old(self).in_loop(),
                *stmt,
            ) is None,
            res matches Err(err) ==> stmt_error(
                old(self).vars(),
                old(self).sigs(),
                old(self).ret_ty(),
                old(self).in_loop(),
                *stmt,
            ) == Some(err),
        decreases stmt, 0nat,
    {
        match stmt {
            Stmt::Let { name, is_mutable, ty, value, span } => {
                let declared = match ty {
                    Some(tn) => match Type::from_name(tn.as_str()) {
                        Some(t) => Some(t),
                        None => {
                            return Err(TypeError::UnknownType { name: tn.clone(), span: *span });
                        },
                    },
                    None => None,
                };
                let hint = match &declared {
                    Some(t) => Some(t.duplicate()),
                    None => None,
                };
                let ghost gh = hint;
                let tv = self.check_expr(value, hint)?;
                let vty = tv.ty();
                proof {
                    lemma_expr_type(self.vars(), self.sigs(), *value, gh, tv);
                    lemma_typed_span(self.vars(), self.sigs(), *value, gh, tv);
                }
                let final_ty = match declared {
                    Some(dt) => {
                        if !vty.same(&dt) {
                            return Err(TypeError::TypeMismatch { expected: dt, found: vty, span: tv.span() });
                        }
                        dt
                    },
                    None => {
                        if vty.same(&Type::Void) {
                            return Err(TypeError::TypeMismatch { expected: Type::I64, found: Type::Void, span: tv.span() });
                        }
                        vty
                    },
                };
                let sym = Symbol { name: name.clone(), ty: final_ty.duplicate(), is_mutable: *is_mutable, span: *span };
                let ghost v0 = self.vars();
                match self.env.define_variable(sym) {
                    Ok(()) => {},
                    Err(_) => {
                        return Err(TypeError::DuplicateDeclaration { name: name.clone(), span: *span });
                    },
                }
                Ok(TypedStmt::Let { name: name.clone(), is_mutable: *is_mutable, ty: final_ty, value: tv, span: *span })
            },
            Stmt::Assign { name, value, span } => {
                let sym = match self.env.lookup_variable(name.as_str()) {
                    Some(s) => s.clone(),
                    None => {
                        return Err(TypeError::UndeclaredVariable { name: name.clone(), span: *span });
                    },
                };
                if !sym.is_mutable {
                    return Err(TypeError::CannotMutateImmutable { name: name.clone(), span: *span });
                }
                let tv = self.check_expr(value, Some(sym.ty.duplicate()))?;
                let vty = tv.ty();
                proof {
                    lemma_expr_type(self.vars(), self.sigs(), *value, Some(sym.ty), tv);
                    lemma_typed_span(self.vars(), self.sigs(), *value, Some(sym.ty), tv);
                }
                if !vty.same(&sym.ty) {
                    return Err(TypeError::TypeMismatch { expected: sym.ty, found: vty, span: tv.span() });
                }
                Ok(TypedStmt::Assign { name: name.clone(), value: tv, span: *span })
            },
            Stmt::IndexAssign { target, index, value, span } => {
                let sym = match self.env.lookup_variable(target.as_str()) {
                    Some(s) => s.clone(),
                    None => {
                        return Err(TypeError::UndeclaredVariable { name: target.clone(), span: *span });
                    },
                };
                if !sym.is_mutable {
                    return Err(TypeError::CannotMutateImmutable { name: target.clone(), span: *span });
                }
                let len = match &sym.ty {
                    Type::Array(_, len) => *len,
                    _ => {
                        return Err(TypeError::CannotIndexNonArray { found: sym.ty, span: *span });
                    },
                };
                let ti = self.check_expr(index, None)?;
                let ity = ti.ty();
                proof {
                    lemma_expr_type(self.vars(), self.sigs(), *index, None, ti);
                    let c = choose|t: TypedExpr| expr_typed(self.vars(), self.sigs(), *index, None, t);
                    lemma_literal_determined(self.vars(), self.sigs(), *index, None, ti, c);
                    assert(expr_lit_value(self.vars(), self.sigs(), *index, None) == int_lit_value(ti));
                }
                if !ity.is_integer() {
                    return Err(TypeError::InvalidIndexType { found: ity, span: *span });
                }
                if let TypedExpr::Literal { lit: TypedLiteral::Int(n, _), .. } = &ti {
                    if *n < 0 || (*n as i128) >= (len as i128) {
                        proof {
                            assert forall|ts2: TypedStmt| !stmt_typed(old(self).vars(), old(self).sigs(), old(self).ret_ty(), old(self).in_loop(), *stmt, ts2) by {
                                if stmt_typed(old(self).vars(), old(self).sigs(), old(self).ret_ty(), old(self).in_loop(), *stmt, ts2) {
                                    lemma_literal_determined(self.vars(), self.sigs(), *index, None, ti, ts2->IndexAssign_index);
                                }
                            }
                        }
                        return Err(TypeError::IndexOutOfBounds { index: *n, len, span: *span });
                    }
                }
                let ety = elem_type_of(&sym.ty);
                let tv = self.check_expr(value, Some(ety.duplicate()))?;
                let vty = tv.ty();
                proof {
                    lemma_expr_type(self.vars(), self.sigs(), *value, Some(ety), tv);
                    lemma_typed_span(self.vars(), self.sigs(), *value, Some(ety), tv);
                }
                if !vty.same(&ety) {
                    return Err(TypeError::TypeMismatch { expected: ety, found: vty, span: tv.span() });
                }
                Ok(TypedStmt::IndexAssign { target: target.clone(), index: ti, value: tv, is_safe: false, span: *span })
            },
            Stmt::Return(e, span) => match e {
                Some(e) => {
                    let te = self.check_expr(e, Some(self.current_fn_return_ty.duplicate()))?;
                    let ety = te.ty();
                    proof {
                        lemma_expr_type(self.vars(), self.sigs(), *e, Some(self.ret_ty()), te);
                    }
                    if !ety.same(&self.current_fn_return_ty) {
                        return Err(TypeError::InvalidReturn { expected: self.current_fn_return_ty.duplicate(), found: ety, span: *span });
                    }
                    Ok(TypedStmt::Return(Some(te), *span))
                },
                None => {
                    if !self.current_fn_return_ty.same(&Type::Void) {
                        return Err(TypeError::InvalidReturn { expected: self.current_fn_return_ty.duplicate(), found: Type::Void, span: *span });
                    }
                    Ok(TypedStmt::Return(None, *span))
                },
            },
            Stmt::Break(span) => {
                if !self.in_loop {
                    return Err(TypeError::BreakOutsideLoop { span: *span });
                }
                Ok(TypedStmt::Break(*span))
            },
            Stmt::Expr(e) => {
                let te = self.check_expr(e, None)?;
                Ok(TypedStmt::Expr(te))
            },
            Stmt::If { condition, then_branch, else_branch, span } => {
                let tc = self.check_expr(condition, Some(Type::Bool))?;
                let cty = tc.ty();
                proof {
                    lemma_expr_type(self.vars(), self.sigs(), *condition, Some(Type::Bool), tc);
                    lemma_typed_span(self.vars(), self.sigs(), *condition, Some(Type::Bool), tc);
                }
                if !cty.same(&Type::Bool) {
                    return Err(TypeError::InvalidConditionType { found: cty, span: tc.span() });
                }
                let tt = match self.check_block(then_branch) {
                    Ok(t) => t,
                    Err(err) => {
                        proof {
                            assert forall|ts2: TypedStmt| !stmt_typed(old(self).vars(), old(self).sigs(), old(self).ret_ty(), old(self).in_loop(), *stmt, ts2) by {
                                if stmt_typed(old(self).vars(), old(self).sigs(), old(self).ret_ty(), old(self).in_loop(), *stmt, ts2) {
                                    assert(block_typed(old(self).vars(), old(self).sigs(), old(self).ret_ty(), old(self).in_loop(), *then_branch, ts2->If_then_branch));
                                }
                            }
                        }
                        return Err(err);
                    },
                };
                let te = match else_branch {
                    Some(eb) => {
                        let teb = match self.check_block(eb) {
                            Ok(t) => t,
                            Err(err) => {
                                proof {
                                    assert forall|ts2: TypedStmt| !stmt_typed(old(self).vars(), old(self).sigs(), old(self).ret_ty(), old(self).in_loop(), *stmt, ts2) by {
                                        if stmt_typed(old(self).vars(), old(self).sigs(), old(self).ret_ty(), old(self).in_loop(), *stmt, ts2) {
                                            assert(block_typed(old(self).vars(), old(self).sigs(), old(self).ret_ty(), old(self).in_loop(), *eb, ts2->If_else_branch.unwrap()));
                                        }
                                    }
                                }
                                return Err(err);
                            },
                        };
                        Some(teb)
                    },
                    None => None,
                };
                Ok(TypedStmt::If { condition: tc, then_branch: tt, else_branch: te, span: *span })
            },
            Stmt::While { condition, body, span } => {
                let tc = self.check_expr(condition, Some(Type::Bool))?;
                let cty = tc.ty();
                proof {
                    lemma_expr_type(self.vars(), self.sigs(), *condition, Some(Type::Bool), tc);
                    lemma_typed_span(self.vars(), self.sigs(), *condition, Some(Type::Bool), tc);
                }
                if !cty.same(&Type::Bool) {
                    return Err(TypeError::InvalidConditionType { found: cty, span: tc.span() });
                }
                let saved = self.in_loop;
                self.in_loop = true;
                let tb = match self.check_block(body) {
                    Ok(t) => t,
                    Err(err) => {
                        proof {
                            assert forall|ts2: TypedStmt| !stmt_typed(old(self).vars(), old(self).sigs(), old(self).ret_ty(), old(self).in_loop(), *stmt, ts2) by {
                                if stmt_typed(old(self).vars(), old(self).sigs(), old(self).ret_ty(), old(self).in_loop(), *stmt, ts2) {
                                    assert(block_typed(old(self).vars(), old(self).sigs(), old(self).ret_ty(), true, *body, ts2->While_body));
                                }
                            }
                        }
                        return Err(err);
                    },
                };
                self.in_loop = saved;
                Ok(TypedStmt::While { condition: tc, body: tb, span: *span })
            },
        }
    }

    /// Checks a function against its registered signature: the parameters
    /// are bound in a new scope, in which the body is checked.
    fn check_function(&mut self, func: &Function) -> (res: Result<TypedFunction, TypeError>)
        requires
            old(self).wf(),
            view_lookup(old(self).sigs(), func.name@) matches Some(sig) && sig.1.len()
                == func.params@.len(),
        ensures
            final(self).wf(),
            final(self).sigs() == old(self).sigs(),
            res is Ok ==> final(self).vars() == old(self).vars(),
            res matches Ok(tf) ==> function_typed(old(self).vars(), old(self).sigs(), *func, tf),
            res is Err ==> forall|tf: TypedFunction|
                !#[trigger] function_typed(old(self).vars(), old(self).sigs(), *func, tf),
            res is Ok ==> function_error(old(self).vars(), old(self).sigs(), *func) is None,
            res matches Err(err) ==> function_error(old(self).vars(), old(self).sigs(), *func)
                == Some(err),
    {
        proof {
            lemma_view_lookup(self.env.sigs(), func.name@);
        }
        let sig = match self.env.lookup_function(func.name.as_str()) {
            Some(s) => s.clone(),
            None => {
                return Err(TypeError::UndeclaredFunction { name: func.name.clone(), span: func.span });
            },
        };
        let ghost ps = param_bindings(*func, sig.param_types@);
        self.current_fn_return_ty = sig.return_ty.duplicate();
        self.in_loop = false;
        self.env.enter_scope();
        let n = func.params.len();
        let mut tparams: Vec<TypedParam> = Vec::new();
        let mut i: usize = 0;
        assert(ps.subrange(0, 0) =~= Seq::<Symbol>::empty());
        while i < n
            invariant
                self.wf(),
                self.sigs() == old(self).sigs(),
                self.ret_ty() == sig.return_ty,
                !self.in_loop(),
                view_lookup(old(self).sigs(), func.name@) == Some(sig_view(sig)),
                n == func.params@.len(),
                n == sig.param_types@.len(),
                ps == param_bindings(*func, sig.param_types@),
                i <= n,
                self.vars() == old(self).vars().push(ps.subrange(0, i as int)),
                names_unique(ps.subrange(0, i as int)),
                forall|j: int| 0 <= j < i ==> !#[trigger] param_repeated(ps)(j),
                tparams@.len() == i,
                forall|j: int|
                    0 <= j < i ==> #[trigger] tparams@[j] == (TypedParam {
                        name: func.params@[j].name,
                        ty: sig.param_types@[j],
                        span: func.params@[j].span,
                    }),
            decreases n - i,
        {
            let param = &func.params[i];
            let pty = sig.param_types[i].duplicate();
            let sym = Symbol { name: param.name.clone(), ty: pty.duplicate(), is_mutable: false, span: param.span };
            let ghost before = ps.subrange(0, i as int);
            match self.env.define_variable(sym) {
                Ok(()) => {},
                Err(_) => {
                    proof {
                        let j = choose|j: int| 0 <= j < before.len() && (#[trigger] before[j]).name@ == param.name@;
                        assert(ps[j] == before[j]);
                        assert(ps[i as int].name@ == param.name@);
                        assert(!names_unique(ps));
                        assert(param_repeated(ps)(i as int));
                        assert(first_index(param_repeated(ps), 0, n as int, i as int));
                        let k = choose|k: int| first_index(param_repeated(ps), 0, func.params@.len() as int, k);
                        lemma_first_index_unique(param_repeated(ps), 0, n as int, i as int, k);
                    }
                    return Err(TypeError::DuplicateDeclaration { name: param.name.clone(), span: param.span });
                },
            }
            assert(!param_repeated(ps)(i as int));
            tparams.push(TypedParam { name: param.name.clone(), ty: pty, span: param.span });
            i += 1;
            proof {
                let after = ps.subrange(0, i as int);
                assert(after =~= before.push(ps[i - 1]));
                assert(self.vars() =~= old(self).vars().push(after));
                assert forall|a: int, b: int|
                    0 <= a < after.len() && 0 <= b < after.len() && a != b implies (#[trigger] after[a]).name@
                        != (#[trigger] after[b]).name@ by {
                    if a == i - 1 && b < i - 1 {
                        assert(before[b] == after[b]);
                    } else if b == i - 1 && a < i - 1 {
                        assert(before[a] == after[a]);
                    } else if a < i - 1 && b < i - 1 {
                        assert(before[a] == after[a] && before[b] == after[b]);
                    }
                }
            }
        }
        assert(ps.subrange(0, n as int) =~= ps);
        proof {
            assert forall|k: int| !first_index(param_repeated(ps), 0, n as int, k) by {
                if first_index(param_repeated(ps), 0, n as int, k) {
                    assert(param_repeated(ps)(k));
                }
            }
        }
        let stmts = match self.check_stmts(&func.body.stmts) {
            Ok(v) => v,
            Err(err) => {
                return Err(err);
            },
        };
        proof {
            lemma_stmts_out_keeps_outer(old(self).vars().push(ps), stmts@);
        }
        self.env.exit_scope();
        proof {
            assert(old(self).vars().push(ps).drop_last() =~= old(self).vars());
        }
        Ok(TypedFunction {
            name: func.name.clone(),
            params: tparams,
            return_ty: sig.return_ty.duplicate(),
            body: TypedBlock { stmts, span: func.body.span },
            span: func.span,
        })
    }

    /// Checks a program: first every function's signature is resolved and
    /// registered, then every body is checked.
    pub fn check_program(&mut self, program: &Program) -> (res: Result<TypedProgram, TypeError>)
        requires
            old(self).wf(),
        ensures
            final(self).wf(),
            res matches Ok(tp) ==> {
                let k = old(self).sigs().len();
                let sigs = final(self).sigs();
                &&& sigs.len() == k + program.functions@.len()
                &&& sigs.subrange(0, k as int) == old(self).sigs()
                &&& declares_all(program.functions@, sigs.subrange(k as int, sigs.len() as int))
                &&& tp.functions@.len() == program.functions@.len()
                &&& forall|i: int|
                    0 <= i < program.functions@.len() ==> function_typed(
                        old(self).vars(),
                        sigs,
                        program.functions@[i],
                        #[trigger] tp.functions@[i],
                    )
            },
            res is Err && old(self).sigs().len() == 0 && old(self).vars() == seq![Seq::<Symbol>::empty()]
                ==> forall|sigs: Seq<SigView>, tp: TypedProgram|
                !#[trigger] program_typed(*program, sigs, tp),
            old(self).sigs().len() == 0 && old(self).vars() == seq![Seq::<Symbol>::empty()] ==> (
            match res {
                Ok(_) => program_error(*program) is None,
                Err(err) => program_error(*program) == Some(err),
            }),
    {
        let n = program.functions.len();
        let ghost s0 = self.sigs();
        let ghost fs = program.functions@;
        let mut i: usize = 0;
        while i < n
            invariant
                self.wf(),
                self.vars() == old(self).vars(),
                s0 == old(self).sigs(),
                fs == program.functions@,
                n == fs.len(),
                i <= n,
                self.sigs().len() == s0.len() + i,
                self.sigs().subrange(0, s0.len() as int) == s0,
                forall|k: int| 0 <= k < i ==> declares(#[trigger] fs[k], self.sigs()[s0.len() + k]),
                forall|k: int| 0 <= k < i ==> !#[trigger] signature_bad(fs)(k) || s0.len() != 0,
            decreases n - i,
        {
            let func = &program.functions[i];
            let return_ty = match &func.return_ty {
                Some(r) => match Type::from_name(r.as_str()) {
                    Some(t) => t,
                    None => {
                        proof {
                            assert forall|sigs: Seq<SigView>, tp: TypedProgram| !#[trigger] program_typed(*program, sigs, tp) by {
                                if program_typed(*program, sigs, tp) {
                                    assert(declares(fs[i as int], sigs[i as int]));
                                }
                            }
                        }
                        proof {
                            lemma_signature_return_unknown(fs, i as int);
                            if s0.len() == 0 {
                                lemma_program_signature_error(*program, i as int);
                            }
                        }
                        return Err(TypeError::UnknownType { name: r.clone(), span: func.span });
                    },
                },
                None => Type::Void,
            };
            assert(return_known(fs[i as int]));
            let m = func.params.len();
            let mut param_names: Vec<String> = Vec::new();
            let mut param_types: Vec<Type> = Vec::new();
            let mut j: usize = 0;
            while j < m
                invariant
                    self.wf(),
                    fs == program.functions@,
                    i < n,
                    n == fs.len(),
                    *func == fs[i as int],
                    m == func.params@.len(),
                    j <= m,
                    param_names@.len() == j,
                    param_types@.len() == j,
                    forall|k: int|
                        #![trigger param_names@[k]]
                        #![trigger param_types@[k]]
                        0 <= k < j ==> param_names@[k] == func.params@[k].name && type_of_text(
                            func.params@[k].ty@,
                        ) == Some(param_types@[k]),
                    return_known(fs[i as int]),
                    s0 == old(self).sigs(),
                    forall|k: int| 0 <= k < i ==> !#[trigger] signature_bad(fs)(k) || s0.len() != 0,
                decreases m - j,
            {
                let p = &func.params[j];
                let pty = match Type::from_name(p.ty.as_str()) {
                    Some(t) => t,
                    None => {
                        proof {
                            assert forall|sigs: Seq<SigView>, tp: TypedProgram| !#[trigger] program_typed(*program, sigs, tp) by {
                                if program_typed(*program, sigs, tp) {
                                    assert(declares(fs[i as int], sigs[i as int]));
                                    assert(type_of_text(fs[i as int].params@[j as int].ty@) == Some(sigs[i as int].1[j as int]));
                                }
                            }
                        }
                        proof {
                            assert(params_known(fs[i as int], j as int)) by {
                                assert forall|k: int| 0 <= k < j implies !#[trigger] param_type_unknown(fs[i as int])(k) by {
                                    assert(type_of_text(func.params@[k].ty@) == Some(param_types@[k]));
                                }
                            }
                            lemma_signature_param_unknown(fs, i as int, j as int);
                            if s0.len() == 0 {
                                lemma_program_signature_error(*program, i as int);
                            }
                        }
                        return Err(TypeError::UnknownType { name: p.ty.clone(), span: p.span });
                    },
                };
                param_names.push(p.name.clone());
                param_types.push(pty);
                j += 1;
            }
            assert(params_known(fs[i as int], m as int)) by {
                assert forall|k: int| 0 <= k < m implies !#[trigger] param_type_unknown(fs[i as int])(k) by {
                    assert(type_of_text(func.params@[k].ty@) == Some(param_types@[k]));
                }
            }
            let sig = FunctionSig { name: func.name.clone(), param_names, param_types, return_ty, span: func.span };
            let ghost gsig = sig;
            assert(declares(*func, sig_view(gsig)));
            let ghost before = self.sigs();
            let ghost old_env_sigs = self.env.sigs();
            match self.env.define_function(sig) {
                Ok(()) => {},
                Err(_) => {
                    proof {
                        if s0.len() == 0 {
                            let es = old_env_sigs;
                            let k = choose|k: int| 0 <= k < es.len() && (#[trigger] es[k]).name@ == gsig.name@;
                            assert(before[k] == sig_view(es[k]));
                            assert(declares(fs[k], before[0 + k]));
                            assert forall|sigs: Seq<SigView>, tp: TypedProgram| !#[trigger] program_typed(*program, sigs, tp) by {
                                if program_typed(*program, sigs, tp) {
                                    assert(declares(fs[k], sigs[k]));
                                    assert(declares(fs[i as int], sigs[i as int]));
                                    assert(sigs[k].0 == sigs[i as int].0);
                                }
                            }
                            lemma_signature_repeated(fs, i as int, k);
                            lemma_program_signature_error(*program, i as int);
                        }
                    }
                    return Err(TypeError::DuplicateDeclaration { name: func.name.clone(), span: func.span });
                },
            }
            proof {
                if s0.len() == 0 {
                    let es = old_env_sigs;
                    assert forall|k: int| 0 <= k < i implies (#[trigger] fs[k]).name@ != fs[i as int].name@ by {
                        assert(before[k] == sig_view(es[k]));
                        assert(declares(fs[k], before[0 + k]));
                        if fs[k].name@ == fs[i as int].name@ {
                            assert(es[k].name@ == gsig.name@);
                        }
                    }
                    lemma_signature_fine(fs, i as int);
                }
            }
            i += 1;
            proof {
                assert(self.env.sigs() == old_env_sigs.push(gsig));
                assert(self.sigs() =~= before.push(sig_view(gsig)));
                assert(self.sigs().subrange(0, s0.len() as int) =~= before.subrange(0, s0.len() as int));
                assert forall|k: int| 0 <= k < i implies declares(#[trigger] fs[k], self.sigs()[s0.len() + k]) by {
                    if k < i - 1 {
                        assert(self.sigs()[s0.len() + k] == before[s0.len() + k]);
                    }
                }
            }
        }
        let ghost sigs = self.sigs();
        proof {
            if s0.len() == 0 {
                assert forall|q: int| 0 <= q < fs.len() implies declares(#[trigger] fs[q], sigs[q]) by {
                    assert(declares(fs[q], sigs[0 + q]));
                }
                lemma_declared_sigs(fs, sigs);
            }
        }
        let mut tfs: Vec<TypedFunction> = Vec::new();
        let mut i: usize = 0;
        while i < n
            invariant
                s0.len() == 0 ==> declared_sigs(fs) == sigs,
                forall|k: int| 0 <= k < n ==> !#[trigger] signature_bad(fs)(k) || s0.len() != 0,
                forall|k: int|
                    0 <= k < i ==> !#[trigger] function_bad(fs)(k) || s0.len() != 0 || old(self).vars()
                        != seq![Seq::<Symbol>::empty()],
                self.wf(),
                self.vars() == old(self).vars(),
                self.sigs() == sigs,
                s0 == old(self).sigs(),
                fs == program.functions@,
                n == fs.len(),
                sigs.len() == s0.len() + n,
                forall|k: int| 0 <= k < n ==> declares(#[trigger] fs[k], sigs[s0.len() + k]),
                i <= n,
                tfs@.len() == i,
                forall|k: int|
                    0 <= k < i ==> function_typed(old(self).vars(), sigs, fs[k], #[trigger] tfs@[k]),
            decreases n - i,
        {
            proof {
                lemma_view_lookup(self.env.sigs(), Seq::<char>::empty());
                lemma_view_lookup_at(sigs, s0.len() + i);
                assert(declares(fs[i as int], sigs[s0.len() + i]));
            }
            let tf = match self.check_function(&program.functions[i]) {
                Ok(t) => t,
                Err(err) => {
                    proof {
                        if s0.len() == 0 && old(self).vars() == seq![Seq::<Symbol>::empty()] {
                            assert(sigs.subrange(0, sigs.len() as int) =~= sigs);
                            assert forall|q: int| 0 <= q < fs.len() implies declares(#[trigger] fs[q], sigs[q]) by {
                                assert(declares(fs[q], sigs[0 + q]));
                            }
                            assert forall|sigs2: Seq<SigView>, tp: TypedProgram| !#[trigger] program_typed(*program, sigs2, tp) by {
                                if program_typed(*program, sigs2, tp) {
                                    lemma_declares_unique(fs, sigs, sigs2);
                                    assert(function_typed(seq![Seq::<Symbol>::empty()], sigs, fs[i as int], tp.functions@[i as int]));
                                }
                            }
                            assert(function_bad(fs)(i as int));
                            lemma_program_function_error(*program, i as int);
                        }
                    }
                    return Err(err);
                },
            };
            tfs.push(tf);
            i += 1;
        }
        proof {
            if s0.len() == 0 && old(self).vars() == seq![Seq::<Symbol>::empty()] {
                lemma_program_fine(*program);
            }
        }
        proof {
            let k = s0.len();
            assert forall|q: int| 0 <= q < fs.len() implies declares(
                #[trigger] fs[q],
                sigs.subrange(k as int, sigs.len() as int)[q],
            ) by {
                assert(sigs.subrange(k as int, sigs.len() as int)[q] == sigs[k + q]);
            }
        }
        Ok(TypedProgram { functions: tfs })
    }
}


/// `tp` is the typed form of `program` as the checker builds it: `sigs` are
/// the signatures the functions declare (under distinct names), and every
/// function is typed against them.
pub open spec fn program_typed(program: Program, sigs: Seq<SigView>, tp: TypedProgram) -> bool {
    &&& declares_all(program.functions@, sigs)
    &&& view_names_unique(sigs)
    &&& tp.functions@.len() == program.functions@.len()
    &&& forall|i: int|
        0 <= i < program.functions@.len() ==> function_typed(
            seq![Seq::<Symbol>::empty()],
            sigs,
            program.functions@[i],
            #[trigger] tp.functions@[i],
        )
}

/// Type checks a program and then marks the index operations that are known
/// to be in bounds. An `Ok` result is the typed program after bounds check
/// elimination; an error is the one that `program_error` names: the first
/// failing check, signatures first, then the functions' bodies in order.
pub fn typecheck(program: &Program) -> (res: Result<TypedProgram, TypeError>)
    ensures
        res matches Ok(tp) ==> exists|sigs: Seq<SigView>, tp0: TypedProgram|
            #[trigger] program_typed(*program, sigs, tp0) && program_bce(tp0, tp),
        res is Err ==> forall|sigs: Seq<SigView>, tp0: TypedProgram|
            !#[trigger] program_typed(*program, sigs, tp0),
        res is Ok ==> program_error(*program) is None,
        res matches Err(err) ==> program_error(*program) == Some(err),
{
    let mut checker = TypeChecker::new();
    let mut tp = checker.check_program(program)?;
    let ghost sigs = checker.sigs();
    let ghost tp0 = tp;
    proof {
        assert(sigs.subrange(0, sigs.len() as int) =~= sigs);
        lemma_view_lookup(checker.env.sigs(), Seq::<char>::empty());
    }
    optimize_program(&mut tp);
    assert(program_typed(*program, sigs, tp0) && program_bce(tp0, tp));
    Ok(tp)
}

} // verus!
