//! The integer value of an expression, the meaning that the rewrites on
//! integer arithmetic keep.

use vstd::prelude::*;
use crate::ast::{BinaryOp, UnaryOp};
use crate::typecheck::typed_ast::{TypedExpr, TypedLiteral};

verus! {

/// `a op b` on `i64`, wrapping, for `+`, `-` and `*`.
pub open spec fn wrapping_op(op: BinaryOp, a: i64, b: i64) -> Option<i64> {
    match op {
        BinaryOp::Add => Some(vstd::wrapping::i64_specs::wrapping_add(a, b)),
        BinaryOp::Sub => Some(vstd::wrapping::i64_specs::wrapping_sub(a, b)),
        BinaryOp::Mul => Some(vstd::wrapping::i64_specs::wrapping_mul(a, b)),
        _ => None,
    }
}

/// The value of an expression built from integer literals, names bound in
/// `env`, unary minus and binary `+`, `-`, `*` (wrapping on `i64`);
/// `None` for any other expression, and where minus would overflow.
pub open spec fn int_value(e: TypedExpr, env: Map<Seq<char>, i64>) -> Option<i64>
    decreases e,
{
    match e {
        TypedExpr::Literal { lit: TypedLiteral::Int(v, _), .. } => Some(v),
        TypedExpr::Ident { name, .. } => if env.contains_key(name@) {
            Some(env[name@])
        } else {
            None
        },
        TypedExpr::Unary { op: UnaryOp::Neg, expr, .. } => match int_value(*expr, env) {
            Some(v) => if v == i64::MIN {
                None
            } else {
                Some((-v) as i64)
            },
            None => None,
        },
        TypedExpr::Binary { op, left, right, .. } => match (int_value(*left, env), int_value(*right, env)) {
            (Some(a), Some(b)) => wrapping_op(op, a, b),
            _ => None,
        },
        _ => None,
    }
}

} // verus!
