//! Which error the checker reports: the first failing check, in the order
//! in which the checker makes its checks.

use vstd::prelude::*;
use crate::ast::{Block, Expr, Function, Program, Stmt, UnaryOp};
use crate::span::Span;
use crate::typecheck::checker::{
    SigView, TypeError, builtin_arg_hint, builtin_arity, builtin_result, elem_hint, elem_of,
    expr_typed, int_lit_value, is_int_ty, is_numeric_ty, binop_result, type_determined, untypable,
    view_lookup, stmts_typed, stmts_out, block_untypable, lemma_stmts_typed_prefix, param_bindings,
    declares_all,
};
use crate::typecheck::symtab::{Symbol, scope_lookup, scopes_lookup};
use crate::typecheck::typed_ast::{TypedExpr, TypedStmt};
use crate::typecheck::types::{Type, type_of_text};

verus! {

/// The type of `e`, where `e` has a typed form (all its typed forms share it).
pub open spec fn expr_type(vars: Seq<Seq<Symbol>>, sigs: Seq<SigView>, e: Expr, hint: Option<Type>) -> Type {
    (choose|te: TypedExpr| expr_typed(vars, sigs, e, hint, te)).spec_ty()
}

/// The value of `e` as an integer literal, where `e` has a typed form.
pub open spec fn expr_lit_value(
    vars: Seq<Seq<Symbol>>,
    sigs: Seq<SigView>,
    e: Expr,
    hint: Option<Type>,
) -> Option<i64> {
    int_lit_value(choose|te: TypedExpr| expr_typed(vars, sigs, e, hint, te))
}

/// The span that the typed form of `e` carries: a group has the span of what
/// it holds.
pub open spec fn typed_span(e: Expr) -> Span
    decreases e,
{
    match e {
        Expr::Literal(_, span) => span,
        Expr::Ident(_, span) => span,
        Expr::Group(inner, _) => typed_span(*inner),
        Expr::Unary { span, .. } => span,
        Expr::Binary { span, .. } => span,
        Expr::Call { span, .. } => span,
        Expr::ArrayLiteral { span, .. } => span,
        Expr::Index { span, .. } => span,
    }
}

/// `i` is the first position in `lo..hi` where `bad` holds.
pub open spec fn first_index(bad: spec_fn(int) -> bool, lo: int, hi: int, i: int) -> bool {
    &&& lo <= i < hi
    &&& bad(i)
    &&& forall|j: int| lo <= j < i ==> !#[trigger] bad(j)
}

/// An element of an array literal whose first element has type `ft` stops the
/// check: it has no typed form, or one of another type.
pub open spec fn elem_bad(
    vars: Seq<Seq<Symbol>>,
    sigs: Seq<SigView>,
    es: Seq<Expr>,
    ft: Type,
) -> spec_fn(int) -> bool {
    |i: int| untypable(vars, sigs, es[i], Some(ft)) || expr_type(vars, sigs, es[i], Some(ft)) != ft
}

/// An argument of a declared function stops the check: it has no typed form
/// against its parameter's type, or one of another type.
pub open spec fn arg_bad(
    vars: Seq<Seq<Symbol>>,
    sigs: Seq<SigView>,
    args: Seq<Expr>,
    ptys: Seq<Type>,
) -> spec_fn(int) -> bool {
    |i: int|
        untypable(vars, sigs, args[i], Some(ptys[i])) || expr_type(vars, sigs, args[i], Some(ptys[i]))
            != ptys[i]
}

/// An argument after the first of a built-in stops the check: it has no typed
/// form against the first argument's type `ft`.
pub open spec fn builtin_arg_bad(
    vars: Seq<Seq<Symbol>>,
    sigs: Seq<SigView>,
    args: Seq<Expr>,
    ft: Type,
) -> spec_fn(int) -> bool {
    |i: int| untypable(vars, sigs, args[i], Some(ft))
}

/// The error the checker reports for `e` in the scopes `vars`, with the
/// signatures `sigs`, when a value of type `hint` is expected; `None` when
/// `e` has a typed form.
pub open spec fn expr_error(
    vars: Seq<Seq<Symbol>>,
    sigs: Seq<SigView>,
    e: Expr,
    hint: Option<Type>,
) -> Option<TypeError>
    decreases e,
{
    match e {
        Expr::Literal(..) => None,
        Expr::Ident(name, span) => if scopes_lookup(vars, name@) is None {
            Some(TypeError::UndeclaredVariable { name, span })
        } else {
            None
        },
        Expr::Group(inner, _) => expr_error(vars, sigs, *inner, hint),
        Expr::Unary { op, expr: inner, span } => if untypable(vars, sigs, *inner, hint) {
            expr_error(vars, sigs, *inner, hint)
        } else {
            let t = expr_type(vars, sigs, *inner, hint);
            if (op == UnaryOp::Not && t != Type::Bool) || (op == UnaryOp::Neg && !is_numeric_ty(t)) {
                Some(TypeError::InvalidUnaryOperand { op, found: t, span })
            } else {
                None
            }
        },
        Expr::Binary { op, left, right, span } => if untypable(vars, sigs, *left, hint) {
            expr_error(vars, sigs, *left, hint)
        } else {
            let lt = expr_type(vars, sigs, *left, hint);
            if untypable(vars, sigs, *right, Some(lt)) {
                expr_error(vars, sigs, *right, Some(lt))
            } else {
                let rt = expr_type(vars, sigs, *right, Some(lt));
                if lt != rt || binop_result(op, lt) is None {
                    Some(TypeError::InvalidBinaryOperands { op, left: lt, right: rt, span })
                } else {
                    None
                }
            }
        },
        Expr::ArrayLiteral { elements, span } => {
            let es = elements@;
            if es.len() == 0 {
                Some(TypeError::EmptyArrayLiteral { span })
            } else if untypable(vars, sigs, es[0], elem_hint(hint)) {
                proof {
                    assert(decreases_to!(e => e->elements));
                    assert(decreases_to!(elements => es));
                    assert(decreases_to!(es => es[0]));
                }
                expr_error(vars, sigs, es[0], elem_hint(hint))
            } else {
                let ft = expr_type(vars, sigs, es[0], elem_hint(hint));
                let bad = elem_bad(vars, sigs, es, ft);
                if exists|i: int| first_index(bad, 1, es.len() as int, i) {
                    let i = choose|i: int| first_index(bad, 1, es.len() as int, i);
                    if untypable(vars, sigs, es[i], Some(ft)) {
                        proof {
                            assert(decreases_to!(e => e->elements));
                            assert(decreases_to!(elements => es));
                            assert(decreases_to!(es => es[i]));
                        }
                        expr_error(vars, sigs, es[i], Some(ft))
                    } else {
                        Some(
                            TypeError::ArrayElementMismatch {
                                expected: ft,
                                found: expr_type(vars, sigs, es[i], Some(ft)),
                                span: typed_span(es[i]),
                            },
                        )
                    }
                } else {
                    None
                }
            }
        },
        Expr::Index { target, index, span } => if untypable(vars, sigs, *target, None) {
            expr_error(vars, sigs, *target, None)
        } else {
            let tt = expr_type(vars, sigs, *target, None);
            if !(tt is Array) {
                Some(TypeError::CannotIndexNonArray { found: tt, span })
            } else if untypable(vars, sigs, *index, None) {
                expr_error(vars, sigs, *index, None)
            } else {
                let it = expr_type(vars, sigs, *index, None);
                let len = tt->Array_1;
                if !is_int_ty(it) {
                    Some(TypeError::InvalidIndexType { found: it, span })
                } else if expr_lit_value(vars, sigs, *index, None) matches Some(n) && (n < 0 || n
                    >= len) {
                    Some(
                        TypeError::IndexOutOfBounds {
                            index: expr_lit_value(vars, sigs, *index, None)->0,
                            len,
                            span,
                        },
                    )
                } else {
                    None
                }
            }
        },
        Expr::Call { callee, args, span } => {
            let a = args@;
            match view_lookup(sigs, callee@) {
                Some(sig) => if a.len() != sig.1.len() {
                    Some(
                        TypeError::ArityMismatch {
                            name: callee,
                            expected: sig.1.len() as usize,
                            found: a.len() as usize,
                            span,
                        },
                    )
                } else {
                    let bad = arg_bad(vars, sigs, a, sig.1);
                    if exists|i: int| first_index(bad, 0, a.len() as int, i) {
                        let i = choose|i: int| first_index(bad, 0, a.len() as int, i);
                        if untypable(vars, sigs, a[i], Some(sig.1[i])) {
                            proof {
                                assert(decreases_to!(e => e->args));
                                assert(decreases_to!(args => a));
                                assert(decreases_to!(a => a[i]));
                            }
                            expr_error(vars, sigs, a[i], Some(sig.1[i]))
                        } else {
                            Some(
                                TypeError::TypeMismatch {
                                    expected: sig.1[i],
                                    found: expr_type(vars, sigs, a[i], Some(sig.1[i])),
                                    span: typed_span(a[i]),
                                },
                            )
                        }
                    } else {
                        None
                    }
                },
                None => match builtin_arity(callee@) {
                    None => Some(TypeError::UndeclaredFunction { name: callee, span }),
                    Some(n) => if a.len() != n {
                        Some(
                            TypeError::ArityMismatch {
                                name: callee,
                                expected: n as usize,
                                found: a.len() as usize,
                                span,
                            },
                        )
                    } else {
                        let h0 = builtin_arg_hint(callee@, hint, 0, Type::Void);
                        if untypable(vars, sigs, a[0], h0) {
                            proof {
                                assert(decreases_to!(e => e->args));
                                assert(decreases_to!(args => a));
                                assert(decreases_to!(a => a[0]));
                            }
                            expr_error(vars, sigs, a[0], h0)
                        } else {
                            let ft = expr_type(vars, sigs, a[0], h0);
                            let bad = builtin_arg_bad(vars, sigs, a, ft);
                            if exists|i: int| first_index(bad, 1, a.len() as int, i) {
                                let i = choose|i: int| first_index(bad, 1, a.len() as int, i);
                                proof {
                                    assert(decreases_to!(e => e->args));
                                    assert(decreases_to!(args => a));
                                    assert(decreases_to!(a => a[i]));
                                }
                                expr_error(vars, sigs, a[i], Some(ft))
                            } else {
                                let tys = Seq::new(
                                    a.len(),
                                    |j: int| expr_type(vars, sigs, a[j], builtin_arg_hint(callee@, hint, j, ft)),
                                );
                                if builtin_result(callee@, tys) is None {
                                    Some(
                                        TypeError::TypeMismatch {
                                            expected: ft,
                                            found: tys[a.len() - 1],
                                            span,
                                        },
                                    )
                                } else {
                                    None
                                }
                            }
                        }
                    },
                },
            }
        },
    }
}

/// The statements `ss`, checked in order from the scopes `vars`, have a
/// typed form.
pub open spec fn stmts_typable(
    vars: Seq<Seq<Symbol>>,
    sigs: Seq<SigView>,
    ret: Type,
    lp: bool,
    ss: Seq<Stmt>,
) -> bool {
    exists|ts: Seq<TypedStmt>| #[trigger] stmts_typed(vars, sigs, ret, lp, ss, ts)
}

/// Checking `ss` stops at position `k`: the statements before it have a
/// typed form, and with it they have none.
pub open spec fn stops_at(
    vars: Seq<Seq<Symbol>>,
    sigs: Seq<SigView>,
    ret: Type,
    lp: bool,
    ss: Seq<Stmt>,
    k: int,
) -> bool {
    &&& 0 <= k < ss.len()
    &&& stmts_typable(vars, sigs, ret, lp, ss.subrange(0, k))
    &&& !stmts_typable(vars, sigs, ret, lp, ss.subrange(0, k + 1))
}

/// The scopes after the first `k` statements of `ss`, where they have a typed
/// form.
pub open spec fn scopes_after(
    vars: Seq<Seq<Symbol>>,
    sigs: Seq<SigView>,
    ret: Type,
    lp: bool,
    ss: Seq<Stmt>,
    k: int,
) -> Seq<Seq<Symbol>> {
    stmts_out(vars, choose|ts: Seq<TypedStmt>| stmts_typed(vars, sigs, ret, lp, ss.subrange(0, k), ts))
}

/// The error the checker reports for the statements `ss` checked in order
/// from the scopes `vars` in a function returning `ret` (`lp`: inside a
/// loop): that of the statement where checking stops; `None` when they have
/// a typed form.
pub open spec fn stmts_error(
    vars: Seq<Seq<Symbol>>,
    sigs: Seq<SigView>,
    ret: Type,
    lp: bool,
    ss: Seq<Stmt>,
) -> Option<TypeError>
    decreases ss,
{
    if exists|k: int| stops_at(vars, sigs, ret, lp, ss, k) {
        let k = choose|k: int| stops_at(vars, sigs, ret, lp, ss, k);
        stmt_error(scopes_after(vars, sigs, ret, lp, ss, k), sigs, ret, lp, ss[k])
    } else {
        None
    }
}

/// The error the checker reports for a block: its statements are checked in
/// a scope of their own.
pub open spec fn block_error(
    vars: Seq<Seq<Symbol>>,
    sigs: Seq<SigView>,
    ret: Type,
    lp: bool,
    b: Block,
) -> Option<TypeError>
    decreases b,
{
    proof {
        assert(decreases_to!(b => b.stmts));
        assert(decreases_to!(b.stmts => b.stmts@));
    }
    stmts_error(vars.push(Seq::<Symbol>::empty()), sigs, ret, lp, b.stmts@)
}

/// The error the checker reports for the statement `s` in the scopes `vars`;
/// `None` when it has a typed form.
pub open spec fn stmt_error(
    vars: Seq<Seq<Symbol>>,
    sigs: Seq<SigView>,
    ret: Type,
    lp: bool,
    s: Stmt,
) -> Option<TypeError>
    decreases s,
{
    match s {
        Stmt::Let { name, ty, value, span, .. } => {
            let hint = match ty {
                Some(tn) => type_of_text(tn@),
                None => None,
            };
            if ty matches Some(tn) && type_of_text(tn@) is None {
                Some(TypeError::UnknownType { name: ty->0, span })
            } else if untypable(vars, sigs, value, hint) {
                expr_error(vars, sigs, value, hint)
            } else {
                let vt = expr_type(vars, sigs, value, hint);
                if hint matches Some(t) && vt != t {
                    Some(TypeError::TypeMismatch { expected: hint->0, found: vt, span: typed_span(value) })
                } else if hint is None && vt == Type::Void {
                    Some(TypeError::TypeMismatch { expected: Type::I64, found: Type::Void, span: typed_span(value) })
                } else if scope_lookup(vars.last(), name@) is Some {
                    Some(TypeError::DuplicateDeclaration { name, span })
                } else {
                    None
                }
            }
        },
        Stmt::Assign { name, value, span } => match scopes_lookup(vars, name@) {
            None => Some(TypeError::UndeclaredVariable { name, span }),
            Some(sym) => if !sym.is_mutable {
                Some(TypeError::CannotMutateImmutable { name, span })
            } else if untypable(vars, sigs, value, Some(sym.ty)) {
                expr_error(vars, sigs, value, Some(sym.ty))
            } else if expr_type(vars, sigs, value, Some(sym.ty)) != sym.ty {
                Some(
                    TypeError::TypeMismatch {
                        expected: sym.ty,
                        found: expr_type(vars, sigs, value, Some(sym.ty)),
                        span: typed_span(value),
                    },
                )
            } else {
                None
            },
        },
        Stmt::IndexAssign { target, index, value, span } => match scopes_lookup(vars, target@) {
            None => Some(TypeError::UndeclaredVariable { name: target, span }),
            Some(sym) => if !sym.is_mutable {
                Some(TypeError::CannotMutateImmutable { name: target, span })
            } else if !(sym.ty is Array) {
                Some(TypeError::CannotIndexNonArray { found: sym.ty, span })
            } else if untypable(vars, sigs, index, None) {
                expr_error(vars, sigs, index, None)
            } else if !is_int_ty(expr_type(vars, sigs, index, None)) {
                Some(TypeError::InvalidIndexType { found: expr_type(vars, sigs, index, None), span })
            } else if expr_lit_value(vars, sigs, index, None) matches Some(n) && (n < 0 || n
                >= sym.ty->Array_1) {
                Some(
                    TypeError::IndexOutOfBounds {
                        index: expr_lit_value(vars, sigs, index, None)->0,
                        len: sym.ty->Array_1,
                        span,
                    },
                )
            } else if untypable(vars, sigs, value, Some(elem_of(sym.ty))) {
                expr_error(vars, sigs, value, Some(elem_of(sym.ty)))
            } else if expr_type(vars, sigs, value, Some(elem_of(sym.ty))) != elem_of(sym.ty) {
                Some(
                    TypeError::TypeMismatch {
                        expected: elem_of(sym.ty),
                        found: expr_type(vars, sigs, value, Some(elem_of(sym.ty))),
                        span: typed_span(value),
                    },
                )
            } else {
                None
            },
        },
        Stmt::Return(e, span) => match e {
            Some(e) => if untypable(vars, sigs, e, Some(ret)) {
                expr_error(vars, sigs, e, Some(ret))
            } else if expr_type(vars, sigs, e, Some(ret)) != ret {
                Some(
                    TypeError::InvalidReturn {
                        expected: ret,
                        found: expr_type(vars, sigs, e, Some(ret)),
                        span,
                    },
                )
            } else {
                None
            },
            None => if ret != Type::Void {
                Some(TypeError::InvalidReturn { expected: ret, found: Type::Void, span })
            } else {
                None
            },
        },
        Stmt::Break(span) => if !lp {
            Some(TypeError::BreakOutsideLoop { span })
        } else {
            None
        },
        Stmt::Expr(e) => expr_error(vars, sigs, e, None),
        Stmt::If { condition, then_branch, else_branch, .. } => if untypable(
            vars,
            sigs,
            condition,
            Some(Type::Bool),
        ) {
            expr_error(vars, sigs, condition, Some(Type::Bool))
        } else if expr_type(vars, sigs, condition, Some(Type::Bool)) != Type::Bool {
            Some(
                TypeError::InvalidConditionType {
                    found: expr_type(vars, sigs, condition, Some(Type::Bool)),
                    span: typed_span(condition),
                },
            )
        } else if block_untypable(vars, sigs, ret, lp, then_branch) {
            block_error(vars, sigs, ret, lp, then_branch)
        } else if else_branch matches Some(eb) && block_untypable(vars, sigs, ret, lp, eb) {
            block_error(vars, sigs, ret, lp, else_branch->0)
        } else {
            None
        },
        Stmt::While { condition, body, .. } => if untypable(vars, sigs, condition, Some(Type::Bool)) {
            expr_error(vars, sigs, condition, Some(Type::Bool))
        } else if expr_type(vars, sigs, condition, Some(Type::Bool)) != Type::Bool {
            Some(
                TypeError::InvalidConditionType {
                    found: expr_type(vars, sigs, condition, Some(Type::Bool)),
                    span: typed_span(condition),
                },
            )
        } else {
            block_error(vars, sigs, ret, true, body)
        },
    }
}

/// A parameter whose name an earlier parameter of the same function binds.
pub open spec fn param_repeated(ps: Seq<Symbol>) -> spec_fn(int) -> bool {
    |j: int| scope_lookup(ps.subrange(0, j), ps[j].name@) is Some
}

/// The error the checker reports for the function `f` with the signatures
/// `sigs`: a parameter name bound twice, else the error of its body, checked
/// with its parameters in a scope of their own; `None` when it has a typed
/// form.
pub open spec fn function_error(vars: Seq<Seq<Symbol>>, sigs: Seq<SigView>, f: Function) -> Option<
    TypeError,
> {
    match view_lookup(sigs, f.name@) {
        None => Some(TypeError::UndeclaredFunction { name: f.name, span: f.span }),
        Some(sig) => {
            let ps = param_bindings(f, sig.1);
            let n = f.params@.len() as int;
            if exists|j: int| first_index(param_repeated(ps), 0, n, j) {
                let j = choose|j: int| first_index(param_repeated(ps), 0, n, j);
                Some(
                    TypeError::DuplicateDeclaration {
                        name: f.params@[j].name,
                        span: f.params@[j].span,
                    },
                )
            } else {
                stmts_error(vars.push(ps), sigs, sig.2, false, f.body.stmts@)
            }
        },
    }
}

/// A parameter of `f` whose type is spelled by no type.
pub open spec fn param_type_unknown(f: Function) -> spec_fn(int) -> bool {
    |j: int| type_of_text(f.params@[j].ty@) is None
}

/// The error the checker reports for the signature of the function `fs[i]`:
/// an unknown return type, else the first unknown parameter type, else a name
/// that an earlier function already has; `None` when the signature is fine.
#[verifier::opaque]
pub open spec fn signature_error(fs: Seq<Function>, i: int) -> Option<TypeError> {
    let f = fs[i];
    let m = f.params@.len() as int;
    if f.return_ty matches Some(r) && type_of_text(r@) is None {
        Some(TypeError::UnknownType { name: f.return_ty->0, span: f.span })
    } else if exists|j: int| first_index(param_type_unknown(f), 0, m, j) {
        let j = choose|j: int| first_index(param_type_unknown(f), 0, m, j);
        Some(TypeError::UnknownType { name: f.params@[j].ty, span: f.params@[j].span })
    } else if exists|k: int| 0 <= k < i && (#[trigger] fs[k]).name@ == f.name@ {
        Some(TypeError::DuplicateDeclaration { name: f.name, span: f.span })
    } else {
        None
    }
}

pub open spec fn signature_bad(fs: Seq<Function>) -> spec_fn(int) -> bool {
    |i: int| signature_error(fs, i) is Some
}

/// The signatures that the functions `fs` declare, where they all declare one.
pub open spec fn declared_sigs(fs: Seq<Function>) -> Seq<SigView> {
    choose|sigs: Seq<SigView>| declares_all(fs, sigs)
}

pub open spec fn function_bad(fs: Seq<Function>) -> spec_fn(int) -> bool {
    |i: int| function_error(seq![Seq::<Symbol>::empty()], declared_sigs(fs), fs[i]) is Some
}

/// The error the checker reports for a program: first every signature is
/// checked, in order, and then every function, in order; `None` when the
/// program has a typed form.
#[verifier::opaque]
pub open spec fn program_error(program: Program) -> Option<TypeError> {
    let fs = program.functions@;
    let n = fs.len() as int;
    if exists|i: int| first_index(signature_bad(fs), 0, n, i) {
        signature_error(fs, choose|i: int| first_index(signature_bad(fs), 0, n, i))
    } else if exists|i: int| first_index(function_bad(fs), 0, n, i) {
        function_error(
            seq![Seq::<Symbol>::empty()],
            declared_sigs(fs),
            fs[choose|i: int| first_index(function_bad(fs), 0, n, i)],
        )
    } else {
        None
    }
}

/// The return type of `fs[i]` is spelled by a type.
pub open spec fn return_known(f: Function) -> bool {
    f.return_ty matches Some(r) ==> type_of_text(r@) is Some
}

/// Every parameter type of `f` before position `j` is spelled by a type.
pub open spec fn params_known(f: Function, j: int) -> bool {
    forall|k: int| 0 <= k < j ==> !#[trigger] param_type_unknown(f)(k)
}

pub proof fn lemma_signature_return_unknown(fs: Seq<Function>, i: int)
    requires
        !return_known(fs[i]),
    ensures
        signature_error(fs, i) == Some(
            TypeError::UnknownType { name: fs[i].return_ty->0, span: fs[i].span },
        ),
{
    reveal(signature_error);
}

pub proof fn lemma_signature_param_unknown(fs: Seq<Function>, i: int, j: int)
    requires
        return_known(fs[i]),
        0 <= j < fs[i].params@.len(),
        params_known(fs[i], j),
        param_type_unknown(fs[i])(j),
    ensures
        signature_error(fs, i) == Some(
            TypeError::UnknownType { name: fs[i].params@[j].ty, span: fs[i].params@[j].span },
        ),
{
    reveal(signature_error);
    let f = fs[i];
    let m = f.params@.len() as int;
    assert(first_index(param_type_unknown(f), 0, m, j));
    let jj = choose|jj: int| first_index(param_type_unknown(f), 0, m, jj);
    lemma_first_index_unique(param_type_unknown(f), 0, m, j, jj);
}

pub proof fn lemma_signature_repeated(fs: Seq<Function>, i: int, k: int)
    requires
        return_known(fs[i]),
        params_known(fs[i], fs[i].params@.len() as int),
        0 <= k < i,
        fs[k].name@ == fs[i].name@,
    ensures
        signature_error(fs, i) == Some(TypeError::DuplicateDeclaration { name: fs[i].name, span: fs[i].span }),
{
    reveal(signature_error);
    let f = fs[i];
    let m = f.params@.len() as int;
    assert forall|j: int| !first_index(param_type_unknown(f), 0, m, j) by {
        if first_index(param_type_unknown(f), 0, m, j) {
            assert(!param_type_unknown(f)(j));
        }
    }
}

pub proof fn lemma_signature_fine(fs: Seq<Function>, i: int)
    requires
        return_known(fs[i]),
        params_known(fs[i], fs[i].params@.len() as int),
        forall|k: int| 0 <= k < i ==> (#[trigger] fs[k]).name@ != fs[i].name@,
    ensures
        signature_error(fs, i) is None,
{
    reveal(signature_error);
    let f = fs[i];
    let m = f.params@.len() as int;
    assert forall|j: int| !first_index(param_type_unknown(f), 0, m, j) by {
        if first_index(param_type_unknown(f), 0, m, j) {
            assert(!param_type_unknown(f)(j));
        }
    }
}

/// Where the signature of `fs[i]` is the first that fails, its error is the
/// program's.
pub proof fn lemma_program_signature_error(program: Program, i: int)
    requires
        0 <= i < program.functions@.len(),
        forall|k: int| 0 <= k < i ==> !#[trigger] signature_bad(program.functions@)(k),
        signature_bad(program.functions@)(i),
    ensures
        program_error(program) == signature_error(program.functions@, i),
{
    reveal(program_error);
    let fs = program.functions@;
    let n = fs.len() as int;
    assert(first_index(signature_bad(fs), 0, n, i));
    let k = choose|k: int| first_index(signature_bad(fs), 0, n, k);
    lemma_first_index_unique(signature_bad(fs), 0, n, i, k);
}

/// Where every signature is fine and `fs[i]` is the first function that
/// fails, its error is the program's.
pub proof fn lemma_program_function_error(program: Program, i: int)
    requires
        0 <= i < program.functions@.len(),
        forall|k: int|
            0 <= k < program.functions@.len() ==> !#[trigger] signature_bad(program.functions@)(k),
        forall|k: int| 0 <= k < i ==> !#[trigger] function_bad(program.functions@)(k),
        function_bad(program.functions@)(i),
    ensures
        program_error(program) == function_error(
            seq![Seq::<Symbol>::empty()],
            declared_sigs(program.functions@),
            program.functions@[i],
        ),
{
    reveal(program_error);
    let fs = program.functions@;
    let n = fs.len() as int;
    assert forall|k: int| !first_index(signature_bad(fs), 0, n, k) by {
        if first_index(signature_bad(fs), 0, n, k) {
            assert(!signature_bad(fs)(k));
        }
    }
    assert(first_index(function_bad(fs), 0, n, i));
    let k = choose|k: int| first_index(function_bad(fs), 0, n, k);
    lemma_first_index_unique(function_bad(fs), 0, n, i, k);
}

/// Where every signature and every function is fine, the program has no error.
pub proof fn lemma_program_fine(program: Program)
    requires
        forall|k: int|
            0 <= k < program.functions@.len() ==> !#[trigger] signature_bad(program.functions@)(k),
        forall|k: int|
            0 <= k < program.functions@.len() ==> !#[trigger] function_bad(program.functions@)(k),
    ensures
        program_error(program) is None,
{
    reveal(program_error);
    let fs = program.functions@;
    let n = fs.len() as int;
    assert forall|k: int| !first_index(signature_bad(fs), 0, n, k) by {
        if first_index(signature_bad(fs), 0, n, k) {
            assert(!signature_bad(fs)(k));
        }
    }
    assert forall|k: int| !first_index(function_bad(fs), 0, n, k) by {
        if first_index(function_bad(fs), 0, n, k) {
            assert(!function_bad(fs)(k));
        }
    }
}

/// The signatures that `declares_all` fixes are `declared_sigs`.
pub proof fn lemma_declared_sigs(fs: Seq<Function>, sigs: Seq<SigView>)
    requires
        declares_all(fs, sigs),
    ensures
        declared_sigs(fs) == sigs,
{
    let c = choose|s: Seq<SigView>| declares_all(fs, s);
    assert(declares_all(fs, c));
    crate::typecheck::checker::lemma_declares_unique(fs, c, sigs);
}

/// Checking a statement list stops at one position at most.
pub proof fn lemma_stops_at_unique(
    vars: Seq<Seq<Symbol>>,
    sigs: Seq<SigView>,
    ret: Type,
    lp: bool,
    ss: Seq<Stmt>,
    k1: int,
    k2: int,
)
    requires
        stops_at(vars, sigs, ret, lp, ss, k1),
        stops_at(vars, sigs, ret, lp, ss, k2),
    ensures
        k1 == k2,
{
    if k1 < k2 {
        lemma_prefix_typable(vars, sigs, ret, lp, ss, k2, k1 + 1);
    } else if k2 < k1 {
        lemma_prefix_typable(vars, sigs, ret, lp, ss, k1, k2 + 1);
    }
}

/// If the first `k` statements have a typed form, so do the first `j <= k`.
pub proof fn lemma_prefix_typable(
    vars: Seq<Seq<Symbol>>,
    sigs: Seq<SigView>,
    ret: Type,
    lp: bool,
    ss: Seq<Stmt>,
    k: int,
    j: int,
)
    requires
        0 <= j <= k <= ss.len(),
        stmts_typable(vars, sigs, ret, lp, ss.subrange(0, k)),
    ensures
        stmts_typable(vars, sigs, ret, lp, ss.subrange(0, j)),
{
    let ts = choose|ts: Seq<TypedStmt>| stmts_typed(vars, sigs, ret, lp, ss.subrange(0, k), ts);
    lemma_stmts_typed_prefix(vars, sigs, ret, lp, ss.subrange(0, k), ts, j);
    assert(ss.subrange(0, k).subrange(0, j) =~= ss.subrange(0, j));
    assert(stmts_typed(vars, sigs, ret, lp, ss.subrange(0, j), ts.subrange(0, j)));
}

/// A typed form of `e` fixes the type that `expr_type` gives.
pub proof fn lemma_expr_type(
    vars: Seq<Seq<Symbol>>,
    sigs: Seq<SigView>,
    e: Expr,
    hint: Option<Type>,
    te: TypedExpr,
)
    requires
        expr_typed(vars, sigs, e, hint, te),
        type_determined(vars, sigs, e, hint, te.spec_ty()),
    ensures
        expr_type(vars, sigs, e, hint) == te.spec_ty(),
        !untypable(vars, sigs, e, hint),
{
    let c = choose|t: TypedExpr| expr_typed(vars, sigs, e, hint, t);
    assert(expr_typed(vars, sigs, e, hint, c));
}

/// Every typed form of `e` carries the span `typed_span(e)`.
pub proof fn lemma_typed_span(
    vars: Seq<Seq<Symbol>>,
    sigs: Seq<SigView>,
    e: Expr,
    hint: Option<Type>,
    te: TypedExpr,
)
    requires
        expr_typed(vars, sigs, e, hint, te),
    ensures
        te.spec_span() == typed_span(e),
    decreases e,
{
    if let Expr::Group(inner, _) = e {
        lemma_typed_span(vars, sigs, *inner, hint, te);
    }
}

/// There is at most one first position where `bad` holds.
pub proof fn lemma_first_index_unique(bad: spec_fn(int) -> bool, lo: int, hi: int, i: int, k: int)
    requires
        first_index(bad, lo, hi, i),
        first_index(bad, lo, hi, k),
    ensures
        i == k,
{
    if i < k {
        assert(!bad(i));
    } else if k < i {
        assert(!bad(k));
    }
}

} // verus!
