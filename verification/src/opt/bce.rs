//! Bounds check elimination: an interval analysis of the integer variables
//! of each function marks as safe the index operations whose index, by that
//! analysis, lies in `[0, len)`, so that no run-time check is emitted for
//! them. `lemma_safe_index_in_bounds` states what the analysis guarantees of
//! an index expression's value.

use vstd::prelude::*;
use crate::ast::BinaryOp;
use crate::opt::names::NameTable;
use crate::opt::range::{
    ValueRange, abs_int, clamp64, fits_i64, lemma_add_sound, lemma_div_const_sound,
    lemma_mul_const_sound, lemma_sub_sound, range_add, range_div_const, range_mul_const, range_sub,
    range_union, sat_abs, sat_add, trunc_div, vr,
};
use crate::typecheck::types::Type;
use crate::typecheck::typed_ast::{
    TypedBlock, TypedExpr, TypedFunction, TypedLiteral, TypedParam, TypedProgram, TypedStmt,
};

verus! {

/// The value of an integer literal.
pub open spec fn int_const(e: TypedExpr) -> Option<i64> {
    match e {
        TypedExpr::Literal { lit: TypedLiteral::Int(n, _), .. } => Some(n),
        _ => None,
    }
}

/// The range of the absolute values of a range's members (saturating).
pub open spec fn range_abs(r: ValueRange) -> ValueRange {
    let a = clamp64(if r.min < 0 { -r.min } else { r.min as int });
    let b = clamp64(if r.max < 0 { -r.max } else { r.max as int });
    vr(0, if a >= b { a } else { b })
}

/// The range that the analysis gives an integer expression, where `vars`
/// holds the known ranges of variables; `None` when nothing is known.
pub open spec fn range_of(e: TypedExpr, vars: Map<Seq<char>, ValueRange>) -> Option<ValueRange>
    decreases e,
{
    match e {
        TypedExpr::Literal { lit: TypedLiteral::Int(n, _), .. } => Some(
            ValueRange { min: n, max: n },
        ),
        TypedExpr::Ident { name, .. } => if vars.contains_key(name@) {
            Some(vars[name@])
        } else {
            None
        },
        TypedExpr::Binary { op, left, right, .. } => {
            let l = range_of(*left, vars);
            let r = range_of(*right, vars);
            let lc = int_const(*left);
            let rc = int_const(*right);
            match op {
                BinaryOp::Add => if l is Some && r is Some {
                    Some(range_add(l.unwrap(), r.unwrap()))
                } else {
                    None
                },
                BinaryOp::Sub => if l is Some && r is Some {
                    Some(range_sub(l.unwrap(), r.unwrap()))
                } else {
                    None
                },
                BinaryOp::Mul => if l is Some && rc is Some {
                    Some(range_mul_const(l.unwrap(), rc.unwrap()))
                } else if lc is Some && r is Some {
                    Some(range_mul_const(r.unwrap(), lc.unwrap()))
                } else {
                    None
                },
                BinaryOp::Div => if l is Some && rc is Some {
                    range_div_const(l.unwrap(), rc.unwrap())
                } else {
                    None
                },
                BinaryOp::Mod => match rc {
                    Some(c) => if c > 0 {
                        if l matches Some(a) && a.min >= 0 {
                            Some(vr(0, c - 1))
                        } else {
                            Some(vr(-(c - 1), c - 1))
                        }
                    } else {
                        None
                    },
                    None => None,
                },
                BinaryOp::BitAnd => match rc {
                    Some(c) => if c >= 0 {
                        Some(vr(0, c as int))
                    } else {
                        None
                    },
                    None => match lc {
                        Some(c) => if c >= 0 {
                            Some(vr(0, c as int))
                        } else {
                            None
                        },
                        None => None,
                    },
                },
                _ => None,
            }
        },
        TypedExpr::Call { callee, args, .. } => if callee@ == "abs"@ && args@.len() == 1 {
            match range_of(args@[0], vars) {
                Some(r) => Some(range_abs(r)),
                None => None,
            }
        } else {
            None
        },
        _ => None,
    }
}

/// The length of the array that `target` denotes, from its type or, for a
/// variable, from the recorded array lengths.
pub open spec fn target_len(target: TypedExpr, arrays: Map<Seq<char>, usize>) -> Option<usize> {
    match target.spec_ty() {
        Type::Array(_, n) => Some(n),
        _ => match target {
            TypedExpr::Ident { name, .. } => if arrays.contains_key(name@) {
                Some(arrays[name@])
            } else {
                None
            },
            _ => None,
        },
    }
}

/// The range of `index` is known and lies within `[0, len)`.
pub open spec fn index_in_bounds(
    index: TypedExpr,
    len: usize,
    vars: Map<Seq<char>, ValueRange>,
) -> bool {
    range_of(index, vars) matches Some(r) && r.min >= 0 && r.max < (len as i64)
}

// ---------------------------------------------------------------------------
// What the analysis guarantees of an index
// ---------------------------------------------------------------------------

/// `v` as an `i64`, where it is one.
pub open spec fn checked_i64(v: int) -> Option<i64> {
    if fits_i64(v) {
        Some(v as i64)
    } else {
        None
    }
}

/// The value of an integer expression of the kinds the analysis reads, when
/// its variables hold the values `env`, as `i64` arithmetic computes it:
/// `None` where a variable has no value, an operation overflows or divides
/// by zero, or the expression is of another kind.
pub open spec fn index_value(e: TypedExpr, env: Map<Seq<char>, i64>) -> Option<i64>
    decreases e,
{
    match e {
        TypedExpr::Literal { lit: TypedLiteral::Int(n, _), .. } => Some(n),
        TypedExpr::Ident { name, .. } => if env.contains_key(name@) {
            Some(env[name@])
        } else {
            None
        },
        TypedExpr::Binary { op, left, right, .. } => match (index_value(*left, env), index_value(*right, env)) {
            (Some(x), Some(y)) => match op {
                BinaryOp::Add => checked_i64(x + y),
                BinaryOp::Sub => checked_i64(x - y),
                BinaryOp::Mul => checked_i64(x * y),
                BinaryOp::Div => if y != 0 {
                    checked_i64(trunc_div(x as int, y as int))
                } else {
                    None
                },
                BinaryOp::Mod => if y != 0 {
                    checked_i64(x - y * trunc_div(x as int, y as int))
                } else {
                    None
                },
                BinaryOp::BitAnd => Some(x & y),
                _ => None,
            },
            _ => None,
        },
        TypedExpr::Call { callee, args, .. } => if callee@ == "abs"@ && args@.len() == 1 {
            match index_value(args@[0], env) {
                Some(x) => checked_i64(abs_int(x as int)),
                None => None,
            }
        } else {
            None
        },
        _ => None,
    }
}

/// Every variable with a known range has a value in `env`, and that value
/// lies in its range.
pub open spec fn values_in_ranges(vars: Map<Seq<char>, ValueRange>, env: Map<Seq<char>, i64>) -> bool {
    forall|n: Seq<char>| #[trigger]
        vars.contains_key(n) ==> env.contains_key(n) && vars[n].contains(env[n] as int)
}

proof fn lemma_rem_bounds(x: int, c: int)
    requires
        c > 0,
    ensures
        x >= 0 ==> 0 <= x - c * trunc_div(x, c) <= c - 1,
        x < 0 ==> -(c - 1) <= x - c * trunc_div(x, c) <= 0,
{
    if x >= 0 {
        assert(0 <= x - c * (x / c) <= c - 1) by (nonlinear_arith)
            requires
                x >= 0,
                c > 0,
        ;
    } else {
        let y = -x;
        assert(0 <= y - c * (y / c) <= c - 1) by (nonlinear_arith)
            requires
                y > 0,
                c > 0,
        ;
        assert(x - c * trunc_div(x, c) == -(y - c * (y / c))) by (nonlinear_arith)
            requires
                y == -x,
                trunc_div(x, c) == -(y / c),
        ;
    }
}

/// The range that the analysis gives an expression holds the expression's
/// value, whenever the variables hold values within their ranges and the
/// expression evaluates without overflow.
pub proof fn lemma_range_of_sound(e: TypedExpr, vars: Map<Seq<char>, ValueRange>, env: Map<Seq<char>, i64>)
    requires
        values_in_ranges(vars, env),
    ensures
        range_of(e, vars) matches Some(r) ==> (index_value(e, env) matches Some(x) ==> r.contains(x as int)),
    decreases e,
{
    match e {
        TypedExpr::Binary { op, left, right, .. } => {
            lemma_range_of_sound(*left, vars, env);
            lemma_range_of_sound(*right, vars, env);
            if let (Some(x), Some(y)) = (index_value(*left, env), index_value(*right, env)) {
                let l = range_of(*left, vars);
                let r = range_of(*right, vars);
                match op {
                    BinaryOp::Add => {
                        if l is Some && r is Some && fits_i64(x + y) {
                            lemma_add_sound(l.unwrap(), r.unwrap(), x as int, y as int);
                        }
                    },
                    BinaryOp::Sub => {
                        if l is Some && r is Some && fits_i64(x - y) {
                            lemma_sub_sound(l.unwrap(), r.unwrap(), x as int, y as int);
                        }
                    },
                    BinaryOp::Mul => {
                        if fits_i64(x * y) {
                            if l is Some && int_const(*right) is Some {
                                lemma_mul_const_sound(l.unwrap(), y, x as int);
                            } else if int_const(*left) is Some && r is Some {
                                assert(x * y == y * x) by (nonlinear_arith);
                                lemma_mul_const_sound(r.unwrap(), x, y as int);
                            }
                        }
                    },
                    BinaryOp::Div => {
                        if l is Some && int_const(*right) is Some && y > 0 {
                            lemma_div_const_sound(l.unwrap(), y, x as int);
                        }
                    },
                    BinaryOp::Mod => {
                        if int_const(*right) is Some && y > 0 {
                            lemma_rem_bounds(x as int, y as int);
                        }
                    },
                    BinaryOp::BitAnd => {
                        if y >= 0 {
                            assert(0 <= (x & y) && (x & y) <= y) by (bit_vector)
                                requires
                                    y >= 0,
                            ;
                        }
                        if x >= 0 {
                            assert(0 <= (x & y) && (x & y) <= x) by (bit_vector)
                                requires
                                    x >= 0,
                            ;
                        }
                    },
                    _ => {},
                }
            }
        },
        TypedExpr::Call { callee, args, .. } => {
            if callee@ == "abs"@ && args@.len() == 1 {
                assert(decreases_to!(e => e->Call_args));
                lemma_range_of_sound(args@[0], vars, env);
            }
        },
        _ => {},
    }
}

/// An index that the analysis finds in bounds is in bounds: whenever the
/// variables hold values within their known ranges, the index expression's
/// value, where it evaluates without overflow, lies in `[0, len)`.
pub proof fn lemma_safe_index_in_bounds(
    index: TypedExpr,
    len: usize,
    vars: Map<Seq<char>, ValueRange>,
    env: Map<Seq<char>, i64>,
)
    requires
        values_in_ranges(vars, env),
        index_in_bounds(index, len, vars),
    ensures
        index_value(index, env) matches Some(x) ==> 0 <= x < len,
{
    lemma_range_of_sound(index, vars, env);
}

/// `r` is `e` with each index operation marked safe when it already was or
/// when its index is known to lie within the bounds of its array.
pub open spec fn expr_bce(
    e: TypedExpr,
    vars: Map<Seq<char>, ValueRange>,
    arrays: Map<Seq<char>, usize>,
    r: TypedExpr,
) -> bool
    decreases e, 1nat,
{
    match e {
        TypedExpr::Index { target, index, is_safe, ty, span } => match r {
            TypedExpr::Index { target: t2, index: i2, is_safe: s2, ty: ty2, span: sp2 } => {
                &&& ty2 == ty && sp2 == span
                &&& expr_bce(*target, vars, arrays, *t2)
                &&& expr_bce(*index, vars, arrays, *i2)
                &&& s2 == (is_safe || (target_len(*target, arrays) matches Some(n) && index_in_bounds(
                    *index,
                    n,
                    vars,
                )))
            },
            _ => false,
        },
        TypedExpr::Binary { op, left, right, ty, span } => match r {
            TypedExpr::Binary { op: op2, left: l2, right: r2, ty: ty2, span: sp2 } => {
                &&& op2 == op && ty2 == ty && sp2 == span
                &&& expr_bce(*left, vars, arrays, *l2)
                &&& expr_bce(*right, vars, arrays, *r2)
            },
            _ => false,
        },
        TypedExpr::Unary { op, expr, ty, span } => match r {
            TypedExpr::Unary { op: op2, expr: e2, ty: ty2, span: sp2 } => {
                &&& op2 == op && ty2 == ty && sp2 == span
                &&& expr_bce(*expr, vars, arrays, *e2)
            },
            _ => false,
        },
        TypedExpr::Call { callee, args, ty, span } => match r {
            TypedExpr::Call { callee: c2, args: a2, ty: ty2, span: sp2 } => {
                &&& c2 == callee && ty2 == ty && sp2 == span
                &&& all_bce(args@, vars, arrays, a2@)
            },
            _ => false,
        },
        TypedExpr::ArrayLiteral { elements, ty, span } => match r {
            TypedExpr::ArrayLiteral { elements: e2, ty: ty2, span: sp2 } => {
                &&& ty2 == ty && sp2 == span
                &&& all_bce(elements@, vars, arrays, e2@)
            },
            _ => false,
        },
        _ => r == e,
    }
}

/// `rs` are the expressions `es`, each processed as `expr_bce` says.
pub open spec fn all_bce(
    es: Seq<TypedExpr>,
    vars: Map<Seq<char>, ValueRange>,
    arrays: Map<Seq<char>, usize>,
    rs: Seq<TypedExpr>,
) -> bool
    decreases es, 0nat,
{
    &&& rs.len() == es.len()
    &&& forall|i: int|
        #![trigger es[i]]
        #![trigger rs[i]]
        0 <= i < es.len() ==> expr_bce(es[i], vars, arrays, rs[i])
}

/// The ranges and array lengths known at a point of a function.
pub struct BceContext {
    pub var_ranges: NameTable<ValueRange>,
    pub array_lens: NameTable<usize>,
}

impl BceContext {
    pub open spec fn vars(&self) -> Map<Seq<char>, ValueRange> {
        self.var_ranges.view()
    }

    pub open spec fn arrays(&self) -> Map<Seq<char>, usize> {
        self.array_lens.view()
    }

    pub open spec fn wf(&self) -> bool {
        self.var_ranges.wf() && self.array_lens.wf()
    }

    /// A context that knows nothing.
    pub fn new() -> (c: Self)
        ensures
            c.wf(),
            c.vars() == Map::<Seq<char>, ValueRange>::empty(),
            c.arrays() == Map::<Seq<char>, usize>::empty(),
    {
        BceContext { var_ranges: NameTable::new(), array_lens: NameTable::new() }
    }

    /// A context with the same knowledge.
    pub fn duplicate(&self) -> (c: Self)
        requires
            self.wf(),
        ensures
            c.wf(),
            c.vars() == self.vars(),
            c.arrays() == self.arrays(),
    {
        BceContext { var_ranges: self.var_ranges.duplicate(), array_lens: self.array_lens.duplicate() }
    }
}

fn as_int_const(e: &TypedExpr) -> (r: Option<i64>)
    ensures
        r == int_const(*e),
{
    match e {
        TypedExpr::Literal { lit: TypedLiteral::Int(n, _), .. } => Some(*n),
        _ => None,
    }
}

fn is_abs(name: &String) -> (b: bool)
    ensures
        b == (name@ == "abs"@),
{
    *name == String::from_str("abs")
}

/// The range of an integer expression under the known variable ranges.
fn eval_range(e: &TypedExpr, ctx: &BceContext) -> (r: Option<ValueRange>)
    requires
        ctx.wf(),
    ensures
        r == range_of(*e, ctx.vars()),
    decreases e,
{
    match e {
        TypedExpr::Literal { lit: TypedLiteral::Int(n, _), .. } => Some(ValueRange::point(*n)),
        TypedExpr::Ident { name, .. } => ctx.var_ranges.get(name),
        TypedExpr::Binary { op, left, right, .. } => {
            let l_const = as_int_const(left);
            let r_const = as_int_const(right);
            let l = eval_range(left, ctx);
            let r = eval_range(right, ctx);
            match op {
                BinaryOp::Add => match (l, r) {
                    (Some(a), Some(b)) => Some(a.add(&b)),
                    _ => None,
                },
                BinaryOp::Sub => match (l, r) {
                    (Some(a), Some(b)) => Some(a.sub(&b)),
                    _ => None,
                },
                BinaryOp::Mul => match (l, r_const) {
                    (Some(a), Some(c)) => Some(a.mul_const(c)),
                    _ => match (l_const, r) {
                        (Some(c), Some(b)) => Some(b.mul_const(c)),
                        _ => None,
                    },
                },
                BinaryOp::Div => match (l, r_const) {
                    (Some(a), Some(c)) => a.div_const(c),
                    _ => None,
                },
                BinaryOp::Mod => match r_const {
                    Some(c) => if c > 0 {
                        // The remainder takes the sign of the dividend.
                        let non_negative = match l {
                            Some(a) => a.min >= 0,
                            None => false,
                        };
                        if non_negative {
                            Some(ValueRange::new(0, c - 1))
                        } else {
                            Some(ValueRange::new(-(c - 1), c - 1))
                        }
                    } else {
                        None
                    },
                    None => None,
                },
                BinaryOp::BitAnd => match r_const {
                    Some(c) => if c >= 0 {
                        Some(ValueRange::new(0, c))
                    } else {
                        None
                    },
                    None => match l_const {
                        Some(c) => if c >= 0 {
                            Some(ValueRange::new(0, c))
                        } else {
                            None
                        },
                        None => None,
                    },
                },
                _ => None,
            }
        },
        TypedExpr::Call { callee, args, .. } => {
            if is_abs(callee) && args.len() == 1 {
                proof {
                    assert(decreases_to!(*e => (*e)->Call_args));
                }
                match eval_range(&args[0], ctx) {
                    Some(r) => {
                        let a = sat_abs(r.min);
                        let b = sat_abs(r.max);
                        Some(ValueRange::new(0, if a >= b { a } else { b }))
                    },
                    None => None,
                }
            } else {
                None
            }
        },
        _ => None,
    }
}

/// Whether the index operation `target[index]` is known to be in bounds.
fn index_known_safe(target: &TypedExpr, index: &TypedExpr, ctx: &BceContext) -> (b: bool)
    requires
        ctx.wf(),
    ensures
        b == (target_len(*target, ctx.arrays()) matches Some(n) && index_in_bounds(
            *index,
            n,
            ctx.vars(),
        )),
{
    let len = match target.ty() {
        Type::Array(_, n) => Some(n),
        _ => match target {
            TypedExpr::Ident { name, .. } => ctx.array_lens.get(name),
            _ => None,
        },
    };
    match len {
        Some(n) => match eval_range(index, ctx) {
            Some(r) => r.is_within(0, n as i64),
            None => false,
        },
        None => false,
    }
}

/// Processes each expression of `es` in turn.
fn process_all(es: Vec<TypedExpr>, ctx: &BceContext, Ghost(whole): Ghost<TypedExpr>) -> (rs: Vec<
    TypedExpr,
>)
    requires
        ctx.wf(),
        forall|i: int| 0 <= i < es@.len() ==> decreases_to!(whole => #[trigger] es@[i]),
    ensures
        all_bce(es@, ctx.vars(), ctx.arrays(), rs@),
    decreases whole, 0nat,
{
    let ghost orig = es@;
    let mut es = es;
    let mut rs: Vec<TypedExpr> = Vec::new();
    let n = es.len();
    while es.len() > 0
        invariant
            ctx.wf(),
            n == orig.len(),
            rs@.len() + es@.len() == n,
            es@ == orig.subrange(rs@.len() as int, n as int),
            forall|i: int| 0 <= i < orig.len() ==> decreases_to!(whole => #[trigger] orig[i]),
            forall|i: int|
                #![trigger orig[i]]
                #![trigger rs@[i]]
                0 <= i < rs@.len() ==> expr_bce(orig[i], ctx.vars(), ctx.arrays(), rs@[i]),
        decreases es@.len(),
    {
        let ghost k = rs@.len() as int;
        let e = es.remove(0);
        assert(e == orig[k]);
        let r = process_expr(e, ctx);
        rs.push(r);
        assert(es@ =~= orig.subrange(rs@.len() as int, n as int));
    }
    rs
}

/// Marks the index operations of `e` that are known to be in bounds.
fn process_expr(e: TypedExpr, ctx: &BceContext) -> (r: TypedExpr)
    requires
        ctx.wf(),
    ensures
        expr_bce(e, ctx.vars(), ctx.arrays(), r),
    decreases e, 1nat,
{
    let ghost whole = e;
    match e {
        TypedExpr::Index { target, index, is_safe, ty, span } => {
            let known = index_known_safe(&target, &index, ctx);
            let t2 = process_expr(*target, ctx);
            let i2 = process_expr(*index, ctx);
            TypedExpr::Index { target: Box::new(t2), index: Box::new(i2), is_safe: is_safe || known, ty, span }
        },
        TypedExpr::Binary { op, left, right, ty, span } => {
            let l2 = process_expr(*left, ctx);
            let r2 = process_expr(*right, ctx);
            TypedExpr::Binary { op, left: Box::new(l2), right: Box::new(r2), ty, span }
        },
        TypedExpr::Unary { op, expr, ty, span } => {
            let e2 = process_expr(*expr, ctx);
            TypedExpr::Unary { op, expr: Box::new(e2), ty, span }
        },
        TypedExpr::Call { callee, args, ty, span } => {
            proof {
                assert forall|i: int| 0 <= i < args@.len() implies decreases_to!(whole => #[trigger] args@[i]) by {
                    assert(decreases_to!(whole => whole->Call_args));
                }
            }
            let a2 = process_all(args, ctx, Ghost(whole));
            TypedExpr::Call { callee, args: a2, ty, span }
        },
        TypedExpr::ArrayLiteral { elements, ty, span } => {
            proof {
                assert forall|i: int| 0 <= i < elements@.len() implies decreases_to!(whole => #[trigger] elements@[i]) by {
                    assert(decreases_to!(whole => whole->ArrayLiteral_elements));
                }
            }
            let e2 = process_all(elements, ctx, Ghost(whole));
            TypedExpr::ArrayLiteral { elements: e2, ty, span }
        },
        other => other,
    }
}


// ---------------------------------------------------------------------------
// Conditions narrow the ranges of the variables they compare
// ---------------------------------------------------------------------------

/// Where a condition holds: in the `then` branch of an `if`, in its `else`
/// branch, or in the body of a `while` loop.
#[derive(Debug, Clone, Copy, PartialEq, Eq, Structural)]
pub enum Narrowing {
    Then,
    Else,
    Loop,
}

/// How a comparison narrows its operands, when it does: whether the left
/// variable gets a new upper bound (else a new lower bound) and the offset to
/// the other side's bound, the same for the right variable, and whether the
/// right variable is narrowed first.
pub open spec fn narrowing_rule(op: BinaryOp, mode: Narrowing) -> Option<(bool, i64, bool, i64, bool)> {
    match mode {
        Narrowing::Then => match op {
            BinaryOp::Lt => Some((true, -1i64, false, 1i64, false)),
            BinaryOp::Le => Some((true, 0i64, false, 0i64, false)),
            BinaryOp::Ge => Some((false, 0i64, true, 0i64, false)),
            BinaryOp::Gt => Some((false, 1i64, true, -1i64, false)),
            _ => None,
        },
        Narrowing::Else => match op {
            BinaryOp::Lt => Some((false, 0i64, true, 0i64, false)),
            BinaryOp::Le => Some((false, 1i64, true, -1i64, false)),
            _ => None,
        },
        Narrowing::Loop => match op {
            BinaryOp::Lt => Some((true, -1i64, false, 1i64, false)),
            BinaryOp::Le => Some((true, 0i64, false, 0i64, false)),
            BinaryOp::Gt => Some((false, 1i64, true, -1i64, true)),
            BinaryOp::Ge => Some((false, 0i64, true, 0i64, true)),
            _ => None,
        },
    }
}

/// `name` gets the bound of `other` (moved by `delta`) as its new upper bound
/// (`upper`) or lower bound, keeping its other known bound (else `0` below or
/// `i64::MAX` above); inside a loop the lower bound is at least `0`.
pub open spec fn narrow(
    vars: Map<Seq<char>, ValueRange>,
    name: Seq<char>,
    other: ValueRange,
    upper: bool,
    delta: i64,
    nonneg: bool,
) -> Map<Seq<char>, ValueRange> {
    let known = vars.contains_key(name);
    let lo: int = if upper {
        if known {
            vars[name].min as int
        } else {
            0
        }
    } else {
        clamp64(other.min + delta)
    };
    let hi: int = if upper {
        clamp64(other.max + delta)
    } else {
        if known {
            vars[name].max as int
        } else {
            i64::MAX as int
        }
    };
    vars.insert(name, vr(if nonneg && lo < 0 { 0 } else { lo }, hi))
}

/// Narrows `side` when it is a variable and the range of the other side is known.
pub open spec fn narrow_side(
    vars: Map<Seq<char>, ValueRange>,
    side: TypedExpr,
    other: Option<ValueRange>,
    upper: bool,
    delta: i64,
    nonneg: bool,
) -> Map<Seq<char>, ValueRange> {
    match side {
        TypedExpr::Ident { name, .. } => match other {
            Some(o) => narrow(vars, name@, o, upper, delta, nonneg),
            None => vars,
        },
        _ => vars,
    }
}

/// The variable ranges where `cond` is known to hold (or, for `Else`, to fail).
pub open spec fn refined(
    cond: TypedExpr,
    vars: Map<Seq<char>, ValueRange>,
    mode: Narrowing,
) -> Map<Seq<char>, ValueRange> {
    match cond {
        TypedExpr::Binary { op, left, right, .. } => match narrowing_rule(op, mode) {
            Some((lu, ld, ru, rd, right_first)) => {
                let lr = range_of(*left, vars);
                let rr = range_of(*right, vars);
                let nn = mode == Narrowing::Loop;
                if right_first {
                    narrow_side(narrow_side(vars, *right, lr, ru, rd, nn), *left, rr, lu, ld, nn)
                } else {
                    narrow_side(narrow_side(vars, *left, rr, lu, ld, nn), *right, lr, ru, rd, nn)
                }
            },
            None => vars,
        },
        _ => vars,
    }
}

/// Whether `a op b` holds for a comparison operator (`false` for any other
/// operator).
pub open spec fn comparison_holds(op: BinaryOp, a: int, b: int) -> bool {
    match op {
        BinaryOp::Lt => a < b,
        BinaryOp::Le => a <= b,
        BinaryOp::Gt => a > b,
        BinaryOp::Ge => a >= b,
        BinaryOp::Eq => a == b,
        BinaryOp::Ne => a != b,
        _ => false,
    }
}

/// A variable operand has a known range.
pub open spec fn operand_known(e: TypedExpr, vars: Map<Seq<char>, ValueRange>) -> bool {
    match e {
        TypedExpr::Ident { name, .. } => vars.contains_key(name@),
        _ => true,
    }
}

/// `cond` compares two operands that evaluate in `env`, each variable among
/// them with a known range, and holds in `env` exactly when `mode` is not
/// the `else` branch; in a loop body both operands are at least 0.
pub open spec fn compared_in(
    cond: TypedExpr,
    vars: Map<Seq<char>, ValueRange>,
    env: Map<Seq<char>, i64>,
    mode: Narrowing,
) -> bool {
    match cond {
        TypedExpr::Binary { op, left, right, .. } => match (index_value(*left, env), index_value(*right, env)) {
            (Some(a), Some(b)) => operand_known(*left, vars) && operand_known(*right, vars) && (comparison_holds(
                op,
                a as int,
                b as int,
            ) <==> mode != Narrowing::Else) && (mode == Narrowing::Loop ==> a >= 0 && b >= 0),
            _ => false,
        },
        _ => false,
    }
}

proof fn lemma_narrow_keeps(
    vars: Map<Seq<char>, ValueRange>,
    env: Map<Seq<char>, i64>,
    name: Seq<char>,
    other: ValueRange,
    upper: bool,
    delta: i64,
    nonneg: bool,
)
    requires
        values_in_ranges(vars, env),
        vars.contains_key(name),
        upper ==> env[name] <= other.max + delta,
        !upper ==> env[name] >= other.min + delta,
        nonneg ==> env[name] >= 0,
    ensures
        values_in_ranges(narrow(vars, name, other, upper, delta, nonneg), env),
        forall|n: Seq<char>| vars.contains_key(n) ==> #[trigger] narrow(vars, name, other, upper, delta, nonneg).contains_key(n),
{
    let m2 = narrow(vars, name, other, upper, delta, nonneg);
    assert(vars[name].contains(env[name] as int));
    assert forall|n: Seq<char>| #[trigger] m2.contains_key(n) implies env.contains_key(n) && m2[n].contains(
        env[n] as int,
    ) by {
        if n != name {
            assert(vars.contains_key(n));
        }
    }
}

proof fn lemma_narrow_side_keeps(
    vars: Map<Seq<char>, ValueRange>,
    env: Map<Seq<char>, i64>,
    side: TypedExpr,
    other: Option<ValueRange>,
    upper: bool,
    delta: i64,
    nonneg: bool,
    v: i64,
)
    requires
        values_in_ranges(vars, env),
        operand_known(side, vars),
        index_value(side, env) == Some(v),
        other matches Some(o) ==> ((upper ==> v <= o.max + delta) && (!upper ==> v >= o.min + delta)),
        nonneg ==> v >= 0,
    ensures
        values_in_ranges(narrow_side(vars, side, other, upper, delta, nonneg), env),
        forall|e: TypedExpr| operand_known(e, vars) ==> #[trigger] operand_known(e, narrow_side(vars, side, other, upper, delta, nonneg)),
{
    match side {
        TypedExpr::Ident { name, .. } => match other {
            Some(o) => {
                lemma_narrow_keeps(vars, env, name@, o, upper, delta, nonneg);
                assert forall|e: TypedExpr| operand_known(e, vars) implies #[trigger] operand_known(
                    e,
                    narrow_side(vars, side, other, upper, delta, nonneg),
                ) by {
                    match e {
                        TypedExpr::Ident { name: n2, .. } => {
                            assert(narrow(vars, name@, o, upper, delta, nonneg).contains_key(n2@));
                        },
                        _ => {},
                    }
                }
            },
            None => {},
        },
        _ => {},
    }
}

/// Narrowing is sound: in any state whose variables lie within their ranges
/// and in which the comparison holds (the `then` branch, or a loop body
/// whose compared values are at least 0, as the loop analysis takes them
/// to be) or fails (the `else` branch), the variables still lie within the
/// narrowed ranges. So in the `then` branch of `x <= e`, `x` may still take
/// every value up to the largest value of `e`. (Compared variables are taken
/// to have known ranges.)
pub proof fn lemma_refined_sound(
    cond: TypedExpr,
    vars: Map<Seq<char>, ValueRange>,
    env: Map<Seq<char>, i64>,
    mode: Narrowing,
)
    requires
        values_in_ranges(vars, env),
        compared_in(cond, vars, env, mode),
    ensures
        values_in_ranges(refined(cond, vars, mode), env),
{
    match cond {
        TypedExpr::Binary { op, left, right, .. } => {
            let a = index_value(*left, env).unwrap();
            let b = index_value(*right, env).unwrap();
            let nn = mode == Narrowing::Loop;
            match narrowing_rule(op, mode) {
                Some((lu, ld, ru, rd, right_first)) => {
                    let lr = range_of(*left, vars);
                    let rr = range_of(*right, vars);
                    lemma_range_of_sound(*left, vars, env);
                    lemma_range_of_sound(*right, vars, env);
                    if right_first {
                        lemma_narrow_side_keeps(vars, env, *right, lr, ru, rd, nn, b);
                        let v1 = narrow_side(vars, *right, lr, ru, rd, nn);
                        assert(operand_known(*left, v1));
                        lemma_narrow_side_keeps(v1, env, *left, rr, lu, ld, nn, a);
                    } else {
                        lemma_narrow_side_keeps(vars, env, *left, rr, lu, ld, nn, a);
                        let v1 = narrow_side(vars, *left, rr, lu, ld, nn);
                        assert(operand_known(*right, v1));
                        lemma_narrow_side_keeps(v1, env, *right, lr, ru, rd, nn, b);
                    }
                },
                None => {},
            }
        },
        _ => {},
    }
}

fn rule_of(op: BinaryOp, mode: Narrowing) -> (r: Option<(bool, i64, bool, i64, bool)>)
    ensures
        r == narrowing_rule(op, mode),
{
    match mode {
        Narrowing::Then => match op {
            BinaryOp::Lt => Some((true, -1, false, 1, false)),
            BinaryOp::Le => Some((true, 0, false, 0, false)),
            BinaryOp::Ge => Some((false, 0, true, 0, false)),
            BinaryOp::Gt => Some((false, 1, true, -1, false)),
            _ => None,
        },
        Narrowing::Else => match op {
            BinaryOp::Lt => Some((false, 0, true, 0, false)),
            BinaryOp::Le => Some((false, 1, true, -1, false)),
            _ => None,
        },
        Narrowing::Loop => match op {
            BinaryOp::Lt => Some((true, -1, false, 1, false)),
            BinaryOp::Le => Some((true, 0, false, 0, false)),
            BinaryOp::Gt => Some((false, 1, true, -1, true)),
            BinaryOp::Ge => Some((false, 0, true, 0, true)),
            _ => None,
        },
    }
}

fn narrow_side_in(
    ctx: &mut BceContext,
    side: &TypedExpr,
    other: Option<ValueRange>,
    upper: bool,
    delta: i64,
    nonneg: bool,
)
    requires
        old(ctx).wf(),
    ensures
        final(ctx).wf(),
        final(ctx).arrays() == old(ctx).arrays(),
        final(ctx).vars() == narrow_side(old(ctx).vars(), *side, other, upper, delta, nonneg),
{
    match side {
        TypedExpr::Ident { name, .. } => match other {
            Some(o) => {
                let cur = ctx.var_ranges.get(name);
                let lo = if upper {
                    match cur {
                        Some(c) => c.min,
                        None => 0,
                    }
                } else {
                    sat_add(o.min, delta)
                };
                let hi = if upper {
                    sat_add(o.max, delta)
                } else {
                    match cur {
                        Some(c) => c.max,
                        None => i64::MAX,
                    }
                };
                let lo2 = if nonneg && lo < 0 {
                    0
                } else {
                    lo
                };
                ctx.var_ranges.insert(name.clone(), ValueRange::new(lo2, hi));
            },
            None => {},
        },
        _ => {},
    }
}

/// Narrows the ranges in `ctx` by the comparison `cond`.
fn refine(cond: &TypedExpr, ctx: &mut BceContext, mode: Narrowing)
    requires
        old(ctx).wf(),
    ensures
        final(ctx).wf(),
        final(ctx).arrays() == old(ctx).arrays(),
        final(ctx).vars() == refined(*cond, old(ctx).vars(), mode),
{
    match cond {
        TypedExpr::Binary { op, left, right, .. } => match rule_of(*op, mode) {
            Some((lu, ld, ru, rd, right_first)) => {
                let lr = eval_range(left, ctx);
                let rr = eval_range(right, ctx);
                let nn = mode == Narrowing::Loop;
                if right_first {
                    narrow_side_in(ctx, right, lr, ru, rd, nn);
                    narrow_side_in(ctx, left, rr, lu, ld, nn);
                } else {
                    narrow_side_in(ctx, left, rr, lu, ld, nn);
                    narrow_side_in(ctx, right, lr, ru, rd, nn);
                }
            },
            None => {},
        },
        _ => {},
    }
}

// ---------------------------------------------------------------------------
// Statements
// ---------------------------------------------------------------------------

/// The variable ranges after the statement `s`: a `let` gives its variable
/// the range of its value, an assignment widens the variable's range by that
/// of the value, and a variable whose new value has no known range keeps its
/// range.
pub open spec fn ranges_after(
    s: TypedStmt,
    vars: Map<Seq<char>, ValueRange>,
) -> Map<Seq<char>, ValueRange> {
    match s {
        TypedStmt::Let { name, value, .. } => match range_of(value, vars) {
            Some(r) => vars.insert(name@, r),
            None => vars,
        },
        TypedStmt::Assign { name, value, .. } => match range_of(value, vars) {
            Some(r) => vars.insert(
                name@,
                if vars.contains_key(name@) {
                    range_union(vars[name@], r)
                } else {
                    r
                },
            ),
            None => vars,
        },
        _ => vars,
    }
}

pub open spec fn ranges_after_all(
    ss: Seq<TypedStmt>,
    vars: Map<Seq<char>, ValueRange>,
) -> Map<Seq<char>, ValueRange>
    decreases ss.len(),
{
    if ss.len() == 0 {
        vars
    } else {
        ranges_after(ss.last(), ranges_after_all(ss.drop_last(), vars))
    }
}

/// `r` is the statement `s` after bounds check elimination with the
/// variable ranges `vars` and the array lengths `arrays`.
pub open spec fn stmt_bce(
    s: TypedStmt,
    vars: Map<Seq<char>, ValueRange>,
    arrays: Map<Seq<char>, usize>,
    r: TypedStmt,
) -> bool
    decreases s,
{
    match s {
        TypedStmt::Let { name, is_mutable, ty, value, span } => match r {
            TypedStmt::Let { name: n2, is_mutable: m2, ty: t2, value: v2, span: s2 } => {
                &&& n2 == name && m2 == is_mutable && t2 == ty && s2 == span
                &&& expr_bce(value, vars, arrays, v2)
            },
            _ => false,
        },
        TypedStmt::Assign { name, value, span } => match r {
            TypedStmt::Assign { name: n2, value: v2, span: s2 } => {
                &&& n2 == name && s2 == span
                &&& expr_bce(value, vars, arrays, v2)
            },
            _ => false,
        },
        TypedStmt::IndexAssign { target, index, value, is_safe, span } => match r {
            TypedStmt::IndexAssign { target: t2, index: i2, value: v2, is_safe: safe2, span: s2 } => {
                &&& t2 == target && s2 == span
                &&& expr_bce(index, vars, arrays, i2)
                &&& expr_bce(value, vars, arrays, v2)
                &&& safe2 == (is_safe || (arrays.contains_key(target@) && index_in_bounds(
                    index,
                    arrays[target@],
                    vars,
                )))
            },
            _ => false,
        },
        TypedStmt::Return(Some(e), span) => match r {
            TypedStmt::Return(Some(e2), s2) => s2 == span && expr_bce(e, vars, arrays, e2),
            _ => false,
        },
        TypedStmt::Expr(e) => match r {
            TypedStmt::Expr(e2) => expr_bce(e, vars, arrays, e2),
            _ => false,
        },
        TypedStmt::If { condition, then_branch, else_branch, span } => match r {
            TypedStmt::If { condition: c2, then_branch: t2, else_branch: e2, span: s2 } => {
                &&& s2 == span
                &&& expr_bce(condition, vars, arrays, c2)
                &&& block_bce(then_branch, refined(condition, vars, Narrowing::Then), arrays, t2)
                &&& match else_branch {
                    Some(eb) => e2 matches Some(eb2) && block_bce(
                        eb,
                        refined(condition, vars, Narrowing::Else),
                        arrays,
                        eb2,
                    ),
                    None => e2 is None,
                }
            },
            _ => false,
        },
        TypedStmt::While { condition, body, span } => match r {
            TypedStmt::While { condition: c2, body: b2, span: s2 } => {
                &&& s2 == span
                &&& expr_bce(condition, vars, arrays, c2)
                &&& block_bce(body, refined(condition, vars, Narrowing::Loop), arrays, b2)
            },
            _ => false,
        },
        _ => r == s,
    }
}

/// The statements `ss` after bounds check elimination, each with the ranges
/// left by those before it.
pub open spec fn stmts_bce(
    ss: Seq<TypedStmt>,
    vars: Map<Seq<char>, ValueRange>,
    arrays: Map<Seq<char>, usize>,
    rs: Seq<TypedStmt>,
) -> bool
    decreases ss,
{
    if ss.len() == 0 {
        rs.len() == 0
    } else {
        &&& rs.len() == ss.len()
        &&& stmts_bce(ss.subrange(0, ss.len() - 1), vars, arrays, rs.subrange(0, rs.len() - 1))
        &&& stmt_bce(
            ss[ss.len() - 1],
            ranges_after_all(ss.subrange(0, ss.len() - 1), vars),
            arrays,
            rs[rs.len() - 1],
        )
    }
}

pub open spec fn block_bce(
    b: TypedBlock,
    vars: Map<Seq<char>, ValueRange>,
    arrays: Map<Seq<char>, usize>,
    r: TypedBlock,
) -> bool
    decreases b,
{
    r.span == b.span && stmts_bce(b.stmts@, vars, arrays, r.stmts@)
}

/// Processes the statements of `whole` (a block) in order.
fn process_stmts(ss: Vec<TypedStmt>, ctx: &mut BceContext, Ghost(whole): Ghost<TypedBlock>) -> (rs: Vec<
    TypedStmt,
>)
    requires
        old(ctx).wf(),
        whole.stmts@ == ss@,
    ensures
        final(ctx).wf(),
        final(ctx).arrays() == old(ctx).arrays(),
        final(ctx).vars() == ranges_after_all(ss@, old(ctx).vars()),
        stmts_bce(ss@, old(ctx).vars(), old(ctx).arrays(), rs@),
    decreases whole, 0nat,
{
    let ghost orig = ss@;
    let ghost v0 = ctx.vars();
    let mut ss = ss;
    let mut rs: Vec<TypedStmt> = Vec::new();
    let n = ss.len();
    assert(orig.subrange(0, 0) =~= Seq::<TypedStmt>::empty());
    while ss.len() > 0
        invariant
            ctx.wf(),
            ctx.arrays() == old(ctx).arrays(),
            v0 == old(ctx).vars(),
            whole.stmts@ == orig,
            n == orig.len(),
            rs@.len() + ss@.len() == n,
            ss@ == orig.subrange(rs@.len() as int, n as int),
            ctx.vars() == ranges_after_all(orig.subrange(0, rs@.len() as int), v0),
            stmts_bce(orig.subrange(0, rs@.len() as int), v0, ctx.arrays(), rs@),
        decreases ss@.len(),
    {
        let ghost k = rs@.len() as int;
        let ghost prev = rs@;
        let s = ss.remove(0);
        assert(s == orig[k]);
        proof {
            assert(decreases_to!(whole => whole.stmts));
            assert(decreases_to!(whole.stmts => whole.stmts@));
            assert(decreases_to!(whole.stmts@ => whole.stmts@[k]));
        }
        let r = process_stmt(s, ctx);
        rs.push(r);
        proof {
            let done = orig.subrange(0, k + 1);
            assert(done.subrange(0, done.len() - 1) =~= orig.subrange(0, k));
            assert(done.drop_last() =~= orig.subrange(0, k));
            assert(rs@.subrange(0, rs@.len() - 1) =~= prev);
            assert(ss@ =~= orig.subrange(rs@.len() as int, n as int));
        }
    }
    assert(orig.subrange(0, n as int) =~= orig);
    rs
}

/// Processes a block with the ranges in `ctx`.
fn process_block(b: TypedBlock, ctx: &mut BceContext) -> (r: TypedBlock)
    requires
        old(ctx).wf(),
    ensures
        final(ctx).wf(),
        final(ctx).arrays() == old(ctx).arrays(),
        final(ctx).vars() == ranges_after_all(b.stmts@, old(ctx).vars()),
        block_bce(b, old(ctx).vars(), old(ctx).arrays(), r),
    decreases b, 1nat,
{
    let ghost whole = b;
    let TypedBlock { stmts, span } = b;
    let stmts2 = process_stmts(stmts, ctx, Ghost(whole));
    TypedBlock { stmts: stmts2, span }
}

/// Processes one statement, updating the ranges in `ctx` by it.
fn process_stmt(s: TypedStmt, ctx: &mut BceContext) -> (r: TypedStmt)
    requires
        old(ctx).wf(),
    ensures
        final(ctx).wf(),
        final(ctx).arrays() == old(ctx).arrays(),
        final(ctx).vars() == ranges_after(s, old(ctx).vars()),
        stmt_bce(s, old(ctx).vars(), old(ctx).arrays(), r),
    decreases s, 2nat,
{
    match s {
        TypedStmt::Let { name, is_mutable, ty, value, span } => {
            let range = eval_range(&value, ctx);
            let v2 = process_expr(value, ctx);
            match range {
                Some(r) => {
                    ctx.var_ranges.insert(name.clone(), r);
                },
                None => {},
            }
            TypedStmt::Let { name, is_mutable, ty, value: v2, span }
        },
        TypedStmt::Assign { name, value, span } => {
            let range = eval_range(&value, ctx);
            let v2 = process_expr(value, ctx);
            match range {
                Some(r) => {
                    let widened = match ctx.var_ranges.get(&name) {
                        Some(existing) => existing.union(&r),
                        None => r,
                    };
                    ctx.var_ranges.insert(name.clone(), widened);
                },
                None => {},
            }
            TypedStmt::Assign { name, value: v2, span }
        },
        TypedStmt::IndexAssign { target, index, value, is_safe, span } => {
            let known = match ctx.array_lens.get(&target) {
                Some(len) => match eval_range(&index, ctx) {
                    Some(r) => r.is_within(0, len as i64),
                    None => false,
                },
                None => false,
            };
            let i2 = process_expr(index, ctx);
            let v2 = process_expr(value, ctx);
            TypedStmt::IndexAssign { target, index: i2, value: v2, is_safe: is_safe || known, span }
        },
        TypedStmt::Return(Some(e), span) => {
            let e2 = process_expr(e, ctx);
            TypedStmt::Return(Some(e2), span)
        },
        TypedStmt::Expr(e) => {
            let e2 = process_expr(e, ctx);
            TypedStmt::Expr(e2)
        },
        TypedStmt::If { condition, then_branch, else_branch, span } => {
            let mut then_ctx = ctx.duplicate();
            refine(&condition, &mut then_ctx, Narrowing::Then);
            let t2 = process_block(then_branch, &mut then_ctx);
            let e2 = match else_branch {
                Some(eb) => {
                    let mut else_ctx = ctx.duplicate();
                    refine(&condition, &mut else_ctx, Narrowing::Else);
                    Some(process_block(eb, &mut else_ctx))
                },
                None => None,
            };
            let c2 = process_expr(condition, ctx);
            TypedStmt::If { condition: c2, then_branch: t2, else_branch: e2, span }
        },
        TypedStmt::While { condition, body, span } => {
            let mut loop_ctx = ctx.duplicate();
            refine(&condition, &mut loop_ctx, Narrowing::Loop);
            let b2 = process_block(body, &mut loop_ctx);
            let c2 = process_expr(condition, ctx);
            TypedStmt::While { condition: c2, body: b2, span }
        },
        other => other,
    }
}


// ---------------------------------------------------------------------------
// Array lengths and parameter ranges of a function
// ---------------------------------------------------------------------------

/// The array lengths `m` extended by the arrays that `s` declares, at any
/// depth.
pub open spec fn arrays_in_stmt(s: TypedStmt, m: Map<Seq<char>, usize>) -> Map<Seq<char>, usize>
    decreases s,
{
    match s {
        TypedStmt::Let { name, ty, .. } => match ty {
            Type::Array(_, n) => m.insert(name@, n),
            _ => m,
        },
        TypedStmt::If { then_branch, else_branch, .. } => {
            let m1 = arrays_in_stmts(then_branch.stmts@, m);
            match else_branch {
                Some(eb) => arrays_in_stmts(eb.stmts@, m1),
                None => m1,
            }
        },
        TypedStmt::While { body, .. } => arrays_in_stmts(body.stmts@, m),
        _ => m,
    }
}

pub open spec fn arrays_in_stmts(ss: Seq<TypedStmt>, m: Map<Seq<char>, usize>) -> Map<
    Seq<char>,
    usize,
>
    decreases ss,
{
    if ss.len() == 0 {
        m
    } else {
        arrays_in_stmt(ss[ss.len() - 1], arrays_in_stmts(ss.subrange(0, ss.len() - 1), m))
    }
}

fn collect_arrays_stmts(ss: &Vec<TypedStmt>, ctx: &mut BceContext)
    requires
        old(ctx).wf(),
    ensures
        final(ctx).wf(),
        final(ctx).vars() == old(ctx).vars(),
        final(ctx).arrays() == arrays_in_stmts(ss@, old(ctx).arrays()),
    decreases ss, 0nat,
{
    let mut i: usize = 0;
    assert(ss@.subrange(0, 0) =~= Seq::<TypedStmt>::empty());
    while i < ss.len()
        invariant
            ctx.wf(),
            ctx.vars() == old(ctx).vars(),
            i <= ss@.len(),
            ctx.arrays() == arrays_in_stmts(ss@.subrange(0, i as int), old(ctx).arrays()),
        decreases ss@.len() - i,
    {
        proof {
            assert(decreases_to!(*ss => ss@));
            assert(decreases_to!(ss@ => ss@[i as int]));
        }
        collect_arrays_stmt(&ss[i], ctx);
        i += 1;
        proof {
            let done = ss@.subrange(0, i as int);
            assert(done.subrange(0, done.len() - 1) =~= ss@.subrange(0, i - 1));
        }
    }
    assert(ss@.subrange(0, ss@.len() as int) =~= ss@);
}

fn collect_arrays_stmt(s: &TypedStmt, ctx: &mut BceContext)
    requires
        old(ctx).wf(),
    ensures
        final(ctx).wf(),
        final(ctx).vars() == old(ctx).vars(),
        final(ctx).arrays() == arrays_in_stmt(*s, old(ctx).arrays()),
    decreases s, 0nat,
{
    match s {
        TypedStmt::Let { name, ty, .. } => match ty {
            Type::Array(_, n) => {
                ctx.array_lens.insert(name.clone(), *n);
            },
            _ => {},
        },
        TypedStmt::If { then_branch, else_branch, .. } => {
            proof {
                assert(decreases_to!(*s => (*s)->If_then_branch));
            }
            collect_arrays_stmts(&then_branch.stmts, ctx);
            match else_branch {
                Some(eb) => {
                    collect_arrays_stmts(&eb.stmts, ctx);
                },
                None => {},
            }
        },
        TypedStmt::While { body, .. } => {
            collect_arrays_stmts(&body.stmts, ctx);
        },
        _ => {},
    }
}

/// `acc` widened by `r`.
pub open spec fn join(acc: Option<ValueRange>, r: ValueRange) -> Option<ValueRange> {
    match acc {
        Some(a) => Some(range_union(a, r)),
        None => Some(r),
    }
}

/// `acc` widened by the integer literals passed at position `i` in the calls
/// of the function `f` within `e`.
pub open spec fn lits_expr(e: TypedExpr, f: Seq<char>, i: int, acc: Option<ValueRange>) -> Option<
    ValueRange,
>
    decreases e, 1nat,
{
    match e {
        TypedExpr::Call { callee, args, .. } => {
            let acc1 = if callee@ == f && 0 <= i < args@.len() && int_const(args@[i]) is Some {
                join(acc, vr(int_const(args@[i]).unwrap() as int, int_const(args@[i]).unwrap() as int))
            } else {
                acc
            };
            lits_all(args@, f, i, acc1)
        },
        TypedExpr::Binary { left, right, .. } => lits_expr(*right, f, i, lits_expr(*left, f, i, acc)),
        TypedExpr::Unary { expr, .. } => lits_expr(*expr, f, i, acc),
        TypedExpr::Index { target, index, .. } => lits_expr(
            *index,
            f,
            i,
            lits_expr(*target, f, i, acc),
        ),
        TypedExpr::ArrayLiteral { elements, .. } => lits_all(elements@, f, i, acc),
        _ => acc,
    }
}

pub open spec fn lits_all(es: Seq<TypedExpr>, f: Seq<char>, i: int, acc: Option<ValueRange>) -> Option<
    ValueRange,
>
    decreases es, 0nat,
{
    if es.len() == 0 {
        acc
    } else {
        lits_expr(es[es.len() - 1], f, i, lits_all(es.subrange(0, es.len() - 1), f, i, acc))
    }
}

pub open spec fn lits_stmt(s: TypedStmt, f: Seq<char>, i: int, acc: Option<ValueRange>) -> Option<
    ValueRange,
>
    decreases s,
{
    match s {
        TypedStmt::Let { value, .. } => lits_expr(value, f, i, acc),
        TypedStmt::Assign { value, .. } => lits_expr(value, f, i, acc),
        TypedStmt::IndexAssign { index, value, .. } => lits_expr(
            value,
            f,
            i,
            lits_expr(index, f, i, acc),
        ),
        TypedStmt::Return(Some(e), _) => lits_expr(e, f, i, acc),
        TypedStmt::Expr(e) => lits_expr(e, f, i, acc),
        TypedStmt::If { condition, then_branch, else_branch, .. } => {
            let a1 = lits_stmts(then_branch.stmts@, f, i, lits_expr(condition, f, i, acc));
            match else_branch {
                Some(eb) => lits_stmts(eb.stmts@, f, i, a1),
                None => a1,
            }
        },
        TypedStmt::While { condition, body, .. } => lits_stmts(
            body.stmts@,
            f,
            i,
            lits_expr(condition, f, i, acc),
        ),
        _ => acc,
    }
}

pub open spec fn lits_stmts(ss: Seq<TypedStmt>, f: Seq<char>, i: int, acc: Option<ValueRange>) -> Option<
    ValueRange,
>
    decreases ss,
{
    if ss.len() == 0 {
        acc
    } else {
        lits_stmt(ss[ss.len() - 1], f, i, lits_stmts(ss.subrange(0, ss.len() - 1), f, i, acc))
    }
}

pub open spec fn lits_functions(fs: Seq<TypedFunction>, f: Seq<char>, i: int) -> Option<ValueRange>
    decreases fs.len(),
{
    if fs.len() == 0 {
        None
    } else {
        lits_stmts(fs.last().body.stmts@, f, i, lits_functions(fs.drop_last(), f, i))
    }
}

fn join_in(acc: Option<ValueRange>, r: ValueRange) -> (res: Option<ValueRange>)
    ensures
        res == join(acc, r),
{
    match acc {
        Some(a) => Some(a.union(&r)),
        None => Some(r),
    }
}

fn lits_in_all(es: &Vec<TypedExpr>, f: &String, i: usize, acc: Option<ValueRange>) -> (res: Option<
    ValueRange,
>)
    ensures
        res == lits_all(es@, f@, i as int, acc),
    decreases es, 0nat,
{
    let mut acc = acc;
    let ghost a0 = acc;
    let mut k: usize = 0;
    assert(es@.subrange(0, 0) =~= Seq::<TypedExpr>::empty());
    while k < es.len()
        invariant
            k <= es@.len(),
            acc == lits_all(es@.subrange(0, k as int), f@, i as int, a0),
        decreases es@.len() - k,
    {
        proof {
            assert(decreases_to!(*es => es@));
            assert(decreases_to!(es@ => es@[k as int]));
        }
        acc = lits_in_expr(&es[k], f, i, acc);
        k += 1;
        proof {
            let done = es@.subrange(0, k as int);
            assert(done.subrange(0, done.len() - 1) =~= es@.subrange(0, k - 1));
        }
    }
    assert(es@.subrange(0, es@.len() as int) =~= es@);
    acc
}

fn lits_in_expr(e: &TypedExpr, f: &String, i: usize, acc: Option<ValueRange>) -> (res: Option<
    ValueRange,
>)
    ensures
        res == lits_expr(*e, f@, i as int, acc),
    decreases e, 1nat,
{
    match e {
        TypedExpr::Call { callee, args, .. } => {
            let acc1 = if *callee == *f && i < args.len() {
                match as_int_const(&args[i]) {
                    Some(c) => join_in(acc, ValueRange::point(c)),
                    None => acc,
                }
            } else {
                acc
            };
            proof {
                assert(decreases_to!(*e => (*e)->Call_args));
            }
            lits_in_all(args, f, i, acc1)
        },
        TypedExpr::Binary { left, right, .. } => {
            let a1 = lits_in_expr(left, f, i, acc);
            lits_in_expr(right, f, i, a1)
        },
        TypedExpr::Unary { expr, .. } => lits_in_expr(expr, f, i, acc),
        TypedExpr::Index { target, index, .. } => {
            let a1 = lits_in_expr(target, f, i, acc);
            lits_in_expr(index, f, i, a1)
        },
        TypedExpr::ArrayLiteral { elements, .. } => {
            proof {
                assert(decreases_to!(*e => (*e)->ArrayLiteral_elements));
            }
            lits_in_all(elements, f, i, acc)
        },
        _ => acc,
    }
}

fn lits_in_stmts(ss: &Vec<TypedStmt>, f: &String, i: usize, acc: Option<ValueRange>) -> (res: Option<
    ValueRange,
>)
    ensures
        res == lits_stmts(ss@, f@, i as int, acc),
    decreases ss, 0nat,
{
    let mut acc = acc;
    let ghost a0 = acc;
    let mut k: usize = 0;
    assert(ss@.subrange(0, 0) =~= Seq::<TypedStmt>::empty());
    while k < ss.len()
        invariant
            k <= ss@.len(),
            acc == lits_stmts(ss@.subrange(0, k as int), f@, i as int, a0),
        decreases ss@.len() - k,
    {
        proof {
            assert(decreases_to!(*ss => ss@));
            assert(decreases_to!(ss@ => ss@[k as int]));
        }
        acc = lits_in_stmt(&ss[k], f, i, acc);
        k += 1;
        proof {
            let done = ss@.subrange(0, k as int);
            assert(done.subrange(0, done.len() - 1) =~= ss@.subrange(0, k - 1));
        }
    }
    assert(ss@.subrange(0, ss@.len() as int) =~= ss@);
    acc
}

fn lits_in_stmt(s: &TypedStmt, f: &String, i: usize, acc: Option<ValueRange>) -> (res: Option<
    ValueRange,
>)
    ensures
        res == lits_stmt(*s, f@, i as int, acc),
    decreases s, 0nat,
{
    match s {
        TypedStmt::Let { value, .. } => lits_in_expr(value, f, i, acc),
        TypedStmt::Assign { value, .. } => lits_in_expr(value, f, i, acc),
        TypedStmt::IndexAssign { index, value, .. } => {
            let a1 = lits_in_expr(index, f, i, acc);
            lits_in_expr(value, f, i, a1)
        },
        TypedStmt::Return(Some(e), _) => lits_in_expr(e, f, i, acc),
        TypedStmt::Expr(e) => lits_in_expr(e, f, i, acc),
        TypedStmt::If { condition, then_branch, else_branch, .. } => {
            proof {
                assert(decreases_to!(*s => (*s)->If_then_branch));
            }
            let a0 = lits_in_expr(condition, f, i, acc);
            let a1 = lits_in_stmts(&then_branch.stmts, f, i, a0);
            match else_branch {
                Some(eb) => lits_in_stmts(&eb.stmts, f, i, a1),
                None => a1,
            }
        },
        TypedStmt::While { condition, body, .. } => {
            let a0 = lits_in_expr(condition, f, i, acc);
            lits_in_stmts(&body.stmts, f, i, a0)
        },
        _ => acc,
    }
}

/// The range of the integer literals passed at position `i` in the calls of
/// `f` anywhere in `fs`.
fn call_site_range(fs: &Vec<TypedFunction>, f: &String, i: usize) -> (res: Option<ValueRange>)
    ensures
        res == lits_functions(fs@, f@, i as int),
{
    let mut acc: Option<ValueRange> = None;
    let mut k: usize = 0;
    assert(fs@.subrange(0, 0) =~= Seq::<TypedFunction>::empty());
    while k < fs.len()
        invariant
            k <= fs@.len(),
            acc == lits_functions(fs@.subrange(0, k as int), f@, i as int),
        decreases fs@.len() - k,
    {
        acc = lits_in_stmts(&fs[k].body.stmts, f, i, acc);
        k += 1;
        proof {
            let done = fs@.subrange(0, k as int);
            assert(done.drop_last() =~= fs@.subrange(0, k - 1));
        }
    }
    assert(fs@.subrange(0, fs@.len() as int) =~= fs@);
    acc
}


// ---------------------------------------------------------------------------
// Functions and programs
// ---------------------------------------------------------------------------

/// The number of parameters of the last function in `fs` named `f`.
pub open spec fn param_count(fs: Seq<TypedFunction>, f: Seq<char>) -> Option<nat>
    decreases fs.len(),
{
    if fs.len() == 0 {
        None
    } else if fs.last().name@ == f {
        Some(fs.last().params@.len())
    } else {
        param_count(fs.drop_last(), f)
    }
}

/// The range known for parameter `i` of the function `f`: that of the
/// integer literals passed there anywhere in the program.
pub open spec fn known_param_range(fs: Seq<TypedFunction>, f: Seq<char>, i: int) -> Option<
    ValueRange,
> {
    match param_count(fs, f) {
        Some(n) => if 0 <= i < n {
            lits_functions(fs, f, i)
        } else {
            None
        },
        None => None,
    }
}

/// The ranges of the parameters `params` whose range is known (`known`).
pub open spec fn param_ranges(params: Seq<TypedParam>, known: Seq<Option<ValueRange>>) -> Map<
    Seq<char>,
    ValueRange,
>
    decreases params.len(),
{
    if params.len() == 0 {
        Map::empty()
    } else {
        let k = params.len() - 1;
        let m = param_ranges(params.drop_last(), known);
        match known[k] {
            Some(r) => m.insert(params[k].name@, r),
            None => m,
        }
    }
}

/// The lengths of the array parameters.
pub open spec fn param_arrays(params: Seq<TypedParam>) -> Map<Seq<char>, usize>
    decreases params.len(),
{
    if params.len() == 0 {
        Map::empty()
    } else {
        let m = param_arrays(params.drop_last());
        match params.last().ty {
            Type::Array(_, n) => m.insert(params.last().name@, n),
            _ => m,
        }
    }
}

/// `r` is `func` after bounds check elimination, with the ranges of its
/// parameters known from the call sites in `fs` and the lengths of its array
/// parameters and local arrays.
pub open spec fn function_bce(fs: Seq<TypedFunction>, func: TypedFunction, r: TypedFunction) -> bool {
    let known = Seq::new(
        func.params@.len(),
        |i: int| known_param_range(fs, func.name@, i),
    );
    &&& r.name == func.name && r.params@ == func.params@ && r.return_ty == func.return_ty
    &&& r.span == func.span
    &&& block_bce(
        func.body,
        param_ranges(func.params@, known),
        arrays_in_stmts(func.body.stmts@, param_arrays(func.params@)),
        r.body,
    )
}

/// `r` is the program `p` after bounds check elimination of each function.
pub open spec fn program_bce(p: TypedProgram, r: TypedProgram) -> bool {
    &&& r.functions@.len() == p.functions@.len()
    &&& forall|k: int|
        0 <= k < p.functions@.len() ==> function_bce(
            p.functions@,
            #[trigger] p.functions@[k],
            r.functions@[k],
        )
}

fn param_count_of(fs: &Vec<TypedFunction>, f: &String) -> (r: Option<usize>)
    ensures
        match r {
            Some(c) => param_count(fs@, f@) == Some(c as nat),
            None => param_count(fs@, f@) is None,
        },
{
    let mut k: usize = fs.len();
    assert(fs@.subrange(0, k as int) =~= fs@);
    while k > 0
        invariant
            k <= fs@.len(),
            param_count(fs@, f@) == param_count(fs@.subrange(0, k as int), f@),
        decreases k,
    {
        let ghost sub = fs@.subrange(0, k as int);
        assert(sub.drop_last() =~= fs@.subrange(0, k - 1));
        if fs[k - 1].name == *f {
            return Some(fs[k - 1].params.len());
        }
        k -= 1;
    }
    None
}

/// The known ranges of the parameters of `func`, from the call sites in `fs`.
fn known_ranges(fs: &Vec<TypedFunction>, func: &TypedFunction) -> (known: Vec<Option<ValueRange>>)
    ensures
        known@ == Seq::new(
            func.params@.len(),
            |i: int| known_param_range(fs@, func.name@, i),
        ),
{
    let count = param_count_of(fs, &func.name);
    let mut known: Vec<Option<ValueRange>> = Vec::new();
    let mut i: usize = 0;
    while i < func.params.len()
        invariant
            i <= func.params@.len(),
            known@.len() == i,
            match count {
                Some(c) => param_count(fs@, func.name@) == Some(c as nat),
                None => param_count(fs@, func.name@) is None,
            },
            forall|j: int| 0 <= j < i ==> #[trigger] known@[j] == known_param_range(fs@, func.name@, j),
        decreases func.params@.len() - i,
    {
        let r = match count {
            Some(n) => if i < n {
                call_site_range(fs, &func.name, i)
            } else {
                None
            },
            None => None,
        };
        known.push(r);
        i += 1;
    }
    assert(known@ =~= Seq::new(
        func.params@.len(),
        |i: int| known_param_range(fs@, func.name@, i),
    ));
    known
}

/// Bounds check elimination of one function, with the known ranges of its
/// parameters.
fn optimize_function(func: TypedFunction, known: &Vec<Option<ValueRange>>) -> (r: TypedFunction)
    requires
        known@.len() == func.params@.len(),
    ensures
        r.name == func.name && r.params@ == func.params@ && r.return_ty == func.return_ty,
        r.span == func.span,
        block_bce(
            func.body,
            param_ranges(func.params@, known@),
            arrays_in_stmts(func.body.stmts@, param_arrays(func.params@)),
            r.body,
        ),
{
    let mut ctx = BceContext::new();
    let mut i: usize = 0;
    assert(func.params@.subrange(0, 0) =~= Seq::<TypedParam>::empty());
    while i < func.params.len()
        invariant
            ctx.wf(),
            i <= func.params@.len(),
            known@.len() == func.params@.len(),
            ctx.vars() == param_ranges(func.params@.subrange(0, i as int), known@.subrange(0, i as int)),
            ctx.arrays() == param_arrays(func.params@.subrange(0, i as int)),
        decreases func.params@.len() - i,
    {
        let ghost sub = func.params@.subrange(0, i + 1);
        proof {
            assert(sub.drop_last() =~= func.params@.subrange(0, i as int));
            lemma_param_ranges_prefix(func.params@.subrange(0, i as int), known@, known@.subrange(0, i as int));
            lemma_param_ranges_prefix(sub, known@, known@.subrange(0, i + 1));
        }
        match known[i] {
            Some(r) => {
                ctx.var_ranges.insert(func.params[i].name.clone(), r);
            },
            None => {},
        }
        match &func.params[i].ty {
            Type::Array(_, n) => {
                ctx.array_lens.insert(func.params[i].name.clone(), *n);
            },
            _ => {},
        }
        i += 1;
    }
    assert(func.params@.subrange(0, func.params@.len() as int) =~= func.params@);
    assert(known@.subrange(0, known@.len() as int) =~= known@);
    collect_arrays_stmts(&func.body.stmts, &mut ctx);
    let TypedFunction { name, params, return_ty, body, span } = func;
    let body2 = process_block(body, &mut ctx);
    TypedFunction { name, params, return_ty, body: body2, span }
}

/// `param_ranges` reads only the first `params.len()` known ranges.
proof fn lemma_param_ranges_prefix(
    params: Seq<TypedParam>,
    known: Seq<Option<ValueRange>>,
    prefix: Seq<Option<ValueRange>>,
)
    requires
        params.len() <= prefix.len() <= known.len(),
        prefix == known.subrange(0, prefix.len() as int),
    ensures
        param_ranges(params, known) == param_ranges(params, prefix),
    decreases params.len(),
{
    if params.len() > 0 {
        lemma_param_ranges_prefix(params.drop_last(), known, prefix);
    }
}

/// Bounds check elimination of every function of the program: the ranges of
/// parameters come from the integer literals passed to them at the call sites.
pub fn optimize_program(program: &mut TypedProgram)
    ensures
        program_bce(*old(program), *final(program)),
{
    let n = program.functions.len();
    let mut all_known: Vec<Vec<Option<ValueRange>>> = Vec::new();
    let mut k: usize = 0;
    while k < n
        invariant
            n == program.functions@.len(),
            k <= n,
            all_known@.len() == k,
            forall|j: int|
                0 <= j < k ==> (#[trigger] all_known@[j])@ == Seq::new(
                    program.functions@[j].params@.len(),
                    |i: int| known_param_range(program.functions@, program.functions@[j].name@, i),
                ),
        decreases n - k,
    {
        let known = known_ranges(&program.functions, &program.functions[k]);
        all_known.push(known);
        k += 1;
    }
    let ghost orig = program.functions@;
    let mut taken = TypedProgram { functions: Vec::new() };
    core::mem::swap(program, &mut taken);
    let mut fs = taken.functions;
    let mut out: Vec<TypedFunction> = Vec::new();
    while fs.len() > 0
        invariant
            n == orig.len(),
            all_known@.len() == n,
            orig == old(program).functions@,
            forall|j: int|
                0 <= j < n ==> (#[trigger] all_known@[j])@ == Seq::new(
                    orig[j].params@.len(),
                    |i: int| known_param_range(orig, orig[j].name@, i),
                ),
            out@.len() + fs@.len() == n,
            fs@ == orig.subrange(out@.len() as int, n as int),
            forall|j: int| 0 <= j < out@.len() ==> function_bce(orig, #[trigger] orig[j], out@[j]),
        decreases fs@.len(),
    {
        let j = out.len();
        let f = fs.remove(0);
        assert(f == orig[j as int]);
        let r = optimize_function(f, &all_known[j]);
        out.push(r);
        assert(fs@ =~= orig.subrange(out@.len() as int, n as int));
    }
    *program = TypedProgram { functions: out };
}


// ---------------------------------------------------------------------------
// What the pass may change
// ---------------------------------------------------------------------------

/// `r` is `e` with some index operations newly marked safe, and nothing
/// else changed.
pub open spec fn expr_marks_only(e: TypedExpr, r: TypedExpr) -> bool
    decreases e, 1nat,
{
    match e {
        TypedExpr::Index { target, index, is_safe, ty, span } => match r {
            TypedExpr::Index { target: t2, index: i2, is_safe: s2, ty: ty2, span: sp2 } => {
                &&& ty2 == ty && sp2 == span && (is_safe ==> s2)
                &&& expr_marks_only(*target, *t2)
                &&& expr_marks_only(*index, *i2)
            },
            _ => false,
        },
        TypedExpr::Binary { op, left, right, ty, span } => match r {
            TypedExpr::Binary { op: op2, left: l2, right: r2, ty: ty2, span: sp2 } => {
                &&& op2 == op && ty2 == ty && sp2 == span
                &&& expr_marks_only(*left, *l2)
                &&& expr_marks_only(*right, *r2)
            },
            _ => false,
        },
        TypedExpr::Unary { op, expr, ty, span } => match r {
            TypedExpr::Unary { op: op2, expr: e2, ty: ty2, span: sp2 } => {
                op2 == op && ty2 == ty && sp2 == span && expr_marks_only(*expr, *e2)
            },
            _ => false,
        },
        TypedExpr::Call { callee, args, ty, span } => match r {
            TypedExpr::Call { callee: c2, args: a2, ty: ty2, span: sp2 } => {
                c2 == callee && ty2 == ty && sp2 == span && all_marks_only(args@, a2@)
            },
            _ => false,
        },
        TypedExpr::ArrayLiteral { elements, ty, span } => match r {
            TypedExpr::ArrayLiteral { elements: e2, ty: ty2, span: sp2 } => {
                ty2 == ty && sp2 == span && all_marks_only(elements@, e2@)
            },
            _ => false,
        },
        _ => r == e,
    }
}

pub open spec fn all_marks_only(es: Seq<TypedExpr>, rs: Seq<TypedExpr>) -> bool
    decreases es, 0nat,
{
    &&& rs.len() == es.len()
    &&& forall|i: int|
        #![trigger es[i]]
        #![trigger rs[i]]
        0 <= i < es.len() ==> expr_marks_only(es[i], rs[i])
}

pub open spec fn stmt_marks_only(s: TypedStmt, r: TypedStmt) -> bool
    decreases s,
{
    match s {
        TypedStmt::Let { name, is_mutable, ty, value, span } => match r {
            TypedStmt::Let { name: n2, is_mutable: m2, ty: t2, value: v2, span: s2 } => {
                n2 == name && m2 == is_mutable && t2 == ty && s2 == span && expr_marks_only(value, v2)
            },
            _ => false,
        },
        TypedStmt::Assign { name, value, span } => match r {
            TypedStmt::Assign { name: n2, value: v2, span: s2 } => {
                n2 == name && s2 == span && expr_marks_only(value, v2)
            },
            _ => false,
        },
        TypedStmt::IndexAssign { target, index, value, is_safe, span } => match r {
            TypedStmt::IndexAssign { target: t2, index: i2, value: v2, is_safe: safe2, span: s2 } => {
                &&& t2 == target && s2 == span && (is_safe ==> safe2)
                &&& expr_marks_only(index, i2)
                &&& expr_marks_only(value, v2)
            },
            _ => false,
        },
        TypedStmt::Return(Some(e), span) => match r {
            TypedStmt::Return(Some(e2), s2) => s2 == span && expr_marks_only(e, e2),
            _ => false,
        },
        TypedStmt::Expr(e) => match r {
            TypedStmt::Expr(e2) => expr_marks_only(e, e2),
            _ => false,
        },
        TypedStmt::If { condition, then_branch, else_branch, span } => match r {
            TypedStmt::If { condition: c2, then_branch: t2, else_branch: e2, span: s2 } => {
                &&& s2 == span
                &&& expr_marks_only(condition, c2)
                &&& block_marks_only(then_branch, t2)
                &&& match else_branch {
                    Some(eb) => e2 matches Some(eb2) && block_marks_only(eb, eb2),
                    None => e2 is None,
                }
            },
            _ => false,
        },
        TypedStmt::While { condition, body, span } => match r {
            TypedStmt::While { condition: c2, body: b2, span: s2 } => {
                s2 == span && expr_marks_only(condition, c2) && block_marks_only(body, b2)
            },
            _ => false,
        },
        _ => r == s,
    }
}

pub open spec fn stmts_marks_only(ss: Seq<TypedStmt>, rs: Seq<TypedStmt>) -> bool
    decreases ss,
{
    &&& rs.len() == ss.len()
    &&& forall|i: int|
        #![trigger ss[i]]
        #![trigger rs[i]]
        0 <= i < ss.len() ==> stmt_marks_only(ss[i], rs[i])
}

pub open spec fn block_marks_only(b: TypedBlock, r: TypedBlock) -> bool
    decreases b,
{
    r.span == b.span && stmts_marks_only(b.stmts@, r.stmts@)
}

/// `r` is the program `p` with some index operations newly marked safe.
pub open spec fn program_marks_only(p: TypedProgram, r: TypedProgram) -> bool {
    &&& r.functions@.len() == p.functions@.len()
    &&& forall|k: int|
        #![trigger p.functions@[k]]
        #![trigger r.functions@[k]]
        0 <= k < p.functions@.len() ==> {
            let f = p.functions@[k];
            let g = r.functions@[k];
            &&& g.name == f.name && g.params@ == f.params@ && g.return_ty == f.return_ty
            &&& g.span == f.span
            &&& block_marks_only(f.body, g.body)
        }
}

pub proof fn lemma_expr_bce_marks_only(
    e: TypedExpr,
    vars: Map<Seq<char>, ValueRange>,
    arrays: Map<Seq<char>, usize>,
    r: TypedExpr,
)
    requires
        expr_bce(e, vars, arrays, r),
    ensures
        expr_marks_only(e, r),
    decreases e, 1nat,
{
    match e {
        TypedExpr::Index { target, index, .. } => {
            lemma_expr_bce_marks_only(*target, vars, arrays, *r->Index_target);
            lemma_expr_bce_marks_only(*index, vars, arrays, *r->Index_index);
        },
        TypedExpr::Binary { left, right, .. } => {
            lemma_expr_bce_marks_only(*left, vars, arrays, *r->Binary_left);
            lemma_expr_bce_marks_only(*right, vars, arrays, *r->Binary_right);
        },
        TypedExpr::Unary { expr, .. } => {
            lemma_expr_bce_marks_only(*expr, vars, arrays, *r->Unary_expr);
        },
        TypedExpr::Call { args, .. } => {
            lemma_all_bce_marks_only(args@, vars, arrays, r->Call_args@);
        },
        TypedExpr::ArrayLiteral { elements, .. } => {
            lemma_all_bce_marks_only(elements@, vars, arrays, r->ArrayLiteral_elements@);
        },
        _ => {},
    }
}

proof fn lemma_all_bce_marks_only(
    es: Seq<TypedExpr>,
    vars: Map<Seq<char>, ValueRange>,
    arrays: Map<Seq<char>, usize>,
    rs: Seq<TypedExpr>,
)
    requires
        all_bce(es, vars, arrays, rs),
    ensures
        all_marks_only(es, rs),
    decreases es, 0nat,
{
    assert forall|i: int| 0 <= i < es.len() implies expr_marks_only(#[trigger] es[i], rs[i]) by {
        lemma_expr_bce_marks_only(es[i], vars, arrays, rs[i]);
    }
}

pub proof fn lemma_stmt_bce_marks_only(
    s: TypedStmt,
    vars: Map<Seq<char>, ValueRange>,
    arrays: Map<Seq<char>, usize>,
    r: TypedStmt,
)
    requires
        stmt_bce(s, vars, arrays, r),
    ensures
        stmt_marks_only(s, r),
    decreases s,
{
    match s {
        TypedStmt::Let { value, .. } => {
            lemma_expr_bce_marks_only(value, vars, arrays, r->Let_value);
        },
        TypedStmt::Assign { value, .. } => {
            lemma_expr_bce_marks_only(value, vars, arrays, r->Assign_value);
        },
        TypedStmt::IndexAssign { index, value, .. } => {
            lemma_expr_bce_marks_only(index, vars, arrays, r->IndexAssign_index);
            lemma_expr_bce_marks_only(value, vars, arrays, r->IndexAssign_value);
        },
        TypedStmt::Return(Some(e), _) => {
            if let TypedStmt::Return(Some(e2), _) = r {
                lemma_expr_bce_marks_only(e, vars, arrays, e2);
            }
        },
        TypedStmt::Expr(e) => {
            if let TypedStmt::Expr(e2) = r {
                lemma_expr_bce_marks_only(e, vars, arrays, e2);
            }
        },
        TypedStmt::If { condition, then_branch, else_branch, .. } => {
            lemma_expr_bce_marks_only(condition, vars, arrays, r->If_condition);
            lemma_block_bce_marks_only(
                then_branch,
                refined(condition, vars, Narrowing::Then),
                arrays,
                r->If_then_branch,
            );
            match else_branch {
                Some(eb) => {
                    lemma_block_bce_marks_only(
                        eb,
                        refined(condition, vars, Narrowing::Else),
                        arrays,
                        r->If_else_branch.unwrap(),
                    );
                },
                None => {},
            }
        },
        TypedStmt::While { condition, body, .. } => {
            lemma_expr_bce_marks_only(condition, vars, arrays, r->While_condition);
            lemma_block_bce_marks_only(
                body,
                refined(condition, vars, Narrowing::Loop),
                arrays,
                r->While_body,
            );
        },
        _ => {},
    }
}

proof fn lemma_stmts_bce_marks_only(
    ss: Seq<TypedStmt>,
    vars: Map<Seq<char>, ValueRange>,
    arrays: Map<Seq<char>, usize>,
    rs: Seq<TypedStmt>,
)
    requires
        stmts_bce(ss, vars, arrays, rs),
    ensures
        stmts_marks_only(ss, rs),
    decreases ss,
{
    if ss.len() > 0 {
        let n = ss.len() - 1;
        let pre = ss.subrange(0, n);
        let rpre = rs.subrange(0, n);
        lemma_stmts_bce_marks_only(pre, vars, arrays, rpre);
        lemma_stmt_bce_marks_only(ss[n], ranges_after_all(pre, vars), arrays, rs[n]);
        assert forall|i: int| 0 <= i < ss.len() implies stmt_marks_only(#[trigger] ss[i], rs[i]) by {
            if i < n {
                assert(pre[i] == ss[i] && rpre[i] == rs[i]);
            }
        }
    }
}

proof fn lemma_block_bce_marks_only(
    b: TypedBlock,
    vars: Map<Seq<char>, ValueRange>,
    arrays: Map<Seq<char>, usize>,
    r: TypedBlock,
)
    requires
        block_bce(b, vars, arrays, r),
    ensures
        block_marks_only(b, r),
    decreases b,
{
    lemma_stmts_bce_marks_only(b.stmts@, vars, arrays, r.stmts@);
}

/// Bounds check elimination changes nothing in a program but marking index
/// operations safe: no mark is ever removed, and every other part of every
/// function is left as it was.
pub proof fn lemma_bce_only_marks_safe(p: TypedProgram, r: TypedProgram)
    requires
        program_bce(p, r),
    ensures
        program_marks_only(p, r),
{
    assert forall|k: int| 0 <= k < p.functions@.len() implies block_marks_only(
        #[trigger] p.functions@[k].body,
        r.functions@[k].body,
    ) by {
        let f = p.functions@[k];
        let known = Seq::new(f.params@.len(), |i: int| known_param_range(p.functions@, f.name@, i));
        assert(function_bce(p.functions@, f, r.functions@[k]));
        lemma_block_bce_marks_only(
            f.body,
            param_ranges(f.params@, known),
            arrays_in_stmts(f.body.stmts@, param_arrays(f.params@)),
            r.functions@[k].body,
        );
    }
}

} // verus!
