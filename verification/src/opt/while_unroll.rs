//! Bounded unrolling of `while` loops.
//!
//! A loop whose counter has a known start value, is assigned once in the
//! body by a fixed step (division, right shift, subtraction or addition of a
//! constant), and whose condition stays constant along at most 16 iterations,
//! is replaced by straight-line code: one copy of the body per iteration, with
//! the counter's value substituted, constant conditions and values folded,
//! branches with a constant condition replaced by the branch taken, and, in the
//! last iteration, assignments dropped that nothing reads afterwards.

use vstd::prelude::*;
use vstd::arithmetic::power2::{pow2, lemma_pow2_unfold, lemma_pow2_pos};
use vstd::arithmetic::div_mod::{lemma_fundamental_div_mod, lemma_fundamental_div_mod_converse};
use crate::ast::{BinaryOp, UnaryOp};
use crate::opt::names::{NameTable, last_index_of, lemma_last_index_in_range};
use crate::opt::tree_view::{
    BlockV, ExprV, FunctionV, LitV, StmtV, copy_expr_view, copy_stmt, expr_view, exprs_view, functions_view,
    stmt_view, stmts_view,
};
use crate::span::Span;
use crate::typecheck::typed_ast::{TypedBlock, TypedExpr, TypedFunction, TypedLiteral, TypedProgram, TypedStmt};
use crate::typecheck::types::Type;

verus! {

/// How a loop counter moves in each iteration: divided, shifted right,
/// decreased or increased by a constant.
#[derive(Debug, Clone, Copy, PartialEq, Eq)]
pub enum StepOp {
    Div(i64),
    Shr(i64),
    Sub(i64),
    Add(i64),
}

/// `x / d` rounded toward zero, as `i64` division rounds.
pub open spec fn quotient_toward_zero(x: int, d: int) -> int {
    let q = abs_int(x) / abs_int(d);
    if (x >= 0) == (d > 0) || x == 0 {
        q
    } else {
        -q
    }
}

pub open spec fn abs_int(x: int) -> int {
    if x < 0 {
        -x
    } else {
        x
    }
}

/// The step can be taken without overflow, division by zero or an
/// out-of-range shift.
pub open spec fn step_defined(val: int, op: StepOp) -> bool {
    match op {
        StepOp::Div(c) => c != 0 && !(val == i64::MIN && c == -1),
        StepOp::Shr(c) => 0 <= c < 64,
        StepOp::Sub(c) => i64::MIN <= val - c <= i64::MAX,
        StepOp::Add(c) => i64::MIN <= val + c <= i64::MAX,
    }
}

/// The counter's value after one step; a right shift by `c` divides by
/// `2^c` rounding down.
pub open spec fn step_value(val: int, op: StepOp) -> int {
    match op {
        StepOp::Div(c) => quotient_toward_zero(val, c as int),
        StepOp::Shr(c) => val / (pow2(c as nat) as int),
        StepOp::Sub(c) => val - c,
        StepOp::Add(c) => val + c,
    }
}

/// Halving rounds down: `y >> 1 == floor(y / 2)`.
proof fn lemma_shr_one(y: i64)
    ensures
        (y >> 1u32) as int == (y as int) / 2,
{
    let h = y >> 1u32;
    let b = y & 1i64;
    assert(y as int == 2 * (h as int) + (b as int)) by (bit_vector)
        requires
            h == y >> 1u32,
            b == y & 1i64,
    ;
    assert(0 <= b < 2) by (bit_vector)
        requires
            b == y & 1i64,
    ;
    lemma_fundamental_div_mod_converse(y as int, 2, h as int, b as int);
}

/// Dividing twice, rounding down each time, is dividing once by the product.
#[verifier::spinoff_prover]
proof fn lemma_floor_div_twice(x: int, c: int, d: int)
    requires
        c > 0,
        d > 0,
    ensures
        (x / c) / d == x / (c * d),
{
    lemma_fundamental_div_mod(x, c);
    lemma_fundamental_div_mod(x / c, d);
    let q1 = x / c;
    let r1 = x % c;
    let q2 = q1 / d;
    let r2 = q1 % d;
    assert(x == (c * d) * q2 + (c * r2 + r1)) by (nonlinear_arith)
        requires
            x == c * q1 + r1,
            q1 == d * q2 + r2,
    ;
    assert(0 <= c * r2 + r1 < c * d) by (nonlinear_arith)
        requires
            0 <= r1 < c,
            0 <= r2 < d,
            c > 0,
    ;
    assert(c * d != 0) by (nonlinear_arith)
        requires
            c > 0,
            d > 0,
    ;
    lemma_fundamental_div_mod_converse(x, c * d, q2, c * r2 + r1);
}

/// An arithmetic right shift by `c` divides by `2^c`, rounding down.
#[verifier::spinoff_prover]
proof fn lemma_shr_divides(x: i64, c: u32)
    requires
        c < 64,
    ensures
        (x >> c) as int == (x as int) / (pow2(c as nat) as int),
    decreases c,
{
    if c == 0 {
        assert(x >> 0u32 == x) by (bit_vector);
        vstd::arithmetic::power2::lemma2_to64();
        assert((x as int) / 1 == x as int);
    } else {
        lemma_shr_divides(x, (c - 1) as u32);
        let y = x >> ((c - 1) as u32);
        assert(x >> c == (x >> ((c - 1) as u32)) >> 1u32) by (bit_vector)
            requires
                0 < c < 64,
        ;
        lemma_shr_one(y);
        lemma_pow2_pos((c - 1) as nat);
        lemma_pow2_unfold(c as nat);
        lemma_floor_div_twice(x as int, pow2((c - 1) as nat) as int, 2);
        assert(pow2((c - 1) as nat) * 2 == pow2(c as nat));
    }
}

/// One step of the counter.
pub fn apply_step(val: i64, op: StepOp) -> (r: i64)
    requires
        step_defined(val as int, op),
    ensures
        r == step_value(val as int, op),
{
    match op {
        StepOp::Div(c) => {
            proof {
                let ax = abs_int(val as int);
                let ac = abs_int(c as int);
                assert(ax / ac <= ax) by (nonlinear_arith)
                    requires
                        ax >= 0,
                        ac >= 1,
                ;
                assert(ax / ac >= 0) by (nonlinear_arith)
                    requires
                        ax >= 0,
                        ac >= 1,
                ;
                if ac == 1 {
                    assert(ax / 1 == ax);
                } else {
                    assert(ax / ac <= ax / 2) by (nonlinear_arith)
                        requires
                            ax >= 0,
                            ac >= 2,
                    ;
                }
            }
            match val.checked_div(c) {
                Some(q) => q,
                None => 0,
            }
        },
        StepOp::Shr(c) => {
            let k = c as u32;
            proof {
                lemma_shr_divides(val, k);
            }
            val >> k
        },
        StepOp::Sub(c) => val - c,
        StepOp::Add(c) => val + c,
    }
}

// ---------------------------------------------------------------------------
// What is known of the variables before a statement
// ---------------------------------------------------------------------------

/// The key under which a remainder is recorded: the divisor's name or
/// value (a name never spells a number, so the two cannot be confused).
pub enum ModKeyV {
    Name(Seq<char>),
    Int(i64),
}

/// The executable form of `ModKeyV`.
pub enum ModKey {
    Name(String),
    Int(i64),
}

pub open spec fn key_view(k: ModKey) -> ModKeyV {
    match k {
        ModKey::Name(s) => ModKeyV::Name(s@),
        ModKey::Int(v) => ModKeyV::Int(v),
    }
}

pub open spec fn opt_key_view(k: Option<ModKey>) -> Option<ModKeyV> {
    match k {
        Some(x) => Some(key_view(x)),
        None => None,
    }
}

fn copy_key(k: &ModKey) -> (r: ModKey)
    ensures
        key_view(r) == key_view(*k),
{
    match k {
        ModKey::Name(s) => ModKey::Name(s.clone()),
        ModKey::Int(v) => ModKey::Int(*v),
    }
}

/// A table from names to remainder keys, the latest binding of a name
/// winning; a name bound to `None` has no key.
pub struct KeyTable {
    keys: Vec<String>,
    vals: Vec<Option<ModKey>>,
}

impl KeyTable {
    pub closed spec fn key_seq(&self) -> Seq<Seq<char>> {
        self.keys@.map_values(|s: String| s@)
    }

    pub closed spec fn wf(&self) -> bool {
        self.keys@.len() == self.vals@.len()
    }

    pub closed spec fn view(&self) -> Map<Seq<char>, Option<ModKeyV>> {
        Map::new(
            |k: Seq<char>| last_index_of(self.key_seq(), k) is Some,
            |k: Seq<char>| opt_key_view(self.vals@[last_index_of(self.key_seq(), k).unwrap()]),
        )
    }

    pub fn new() -> (t: Self)
        ensures
            t.wf(),
            t.view() == Map::<Seq<char>, Option<ModKeyV>>::empty(),
    {
        let t = KeyTable { keys: Vec::new(), vals: Vec::new() };
        assert(t.view() =~= Map::<Seq<char>, Option<ModKeyV>>::empty());
        t
    }

    /// The key recorded for `name`, if any.
    pub fn get(&self, name: &String) -> (r: Option<ModKey>)
        requires
            self.wf(),
        ensures
            opt_key_view(r) == lookup(self.view(), name@),
    {
        let ghost ks = self.key_seq();
        let mut i: usize = self.keys.len();
        assert(ks.subrange(0, i as int) =~= ks);
        while i > 0
            invariant
                i <= self.keys@.len(),
                self.wf(),
                ks == self.key_seq(),
                last_index_of(ks, name@) == last_index_of(ks.subrange(0, i as int), name@),
            decreases i,
        {
            let ghost sub = ks.subrange(0, i as int);
            assert(sub.drop_last() =~= ks.subrange(0, i - 1));
            if self.keys[i - 1] == *name {
                proof {
                    assert(sub.last() == name@);
                }
                return match &self.vals[i - 1] {
                    Some(k) => Some(copy_key(k)),
                    None => None,
                };
            }
            i -= 1;
        }
        None
    }

    /// Binds `name` to `v`.
    pub fn insert(&mut self, name: String, v: Option<ModKey>)
        requires
            old(self).wf(),
        ensures
            final(self).wf(),
            final(self).view() == old(self).view().insert(name@, opt_key_view(v)),
    {
        let ghost ks = self.key_seq();
        let ghost nm = name@;
        let ghost vv = opt_key_view(v);
        self.keys.push(name);
        self.vals.push(v);
        proof {
            let ks2 = self.key_seq();
            assert(ks2.drop_last() =~= ks);
            assert(ks2.last() == nm);
            assert forall|k: Seq<char>| k != nm implies last_index_of(ks2, k) == last_index_of(ks, k) by {}
            assert forall|k: Seq<char>| #[trigger] last_index_of(ks, k) is Some implies self.vals@[last_index_of(
                ks,
                k,
            ).unwrap()] == old(self).vals@[last_index_of(ks, k).unwrap()] by {
                lemma_last_index_in_range(ks, k);
            }
            assert(self.view() =~= old(self).view().insert(nm, vv));
        }
    }

    /// A table with the same bindings.
    pub fn duplicate(&self) -> (t: Self)
        requires
            self.wf(),
        ensures
            t.wf(),
            t.view() == self.view(),
    {
        let mut keys: Vec<String> = Vec::new();
        let mut vals: Vec<Option<ModKey>> = Vec::new();
        let mut i: usize = 0;
        while i < self.keys.len()
            invariant
                self.wf(),
                i <= self.keys@.len(),
                keys@.len() == i,
                vals@.len() == i,
                forall|j: int| 0 <= j < i ==> #[trigger] keys@[j]@ == self.keys@[j]@,
                forall|j: int| 0 <= j < i ==> #[trigger] opt_key_view(vals@[j]) == opt_key_view(self.vals@[j]),
            decreases self.keys@.len() - i,
        {
            keys.push(self.keys[i].clone());
            vals.push(
                match &self.vals[i] {
                    Some(k) => Some(copy_key(k)),
                    None => None,
                },
            );
            i += 1;
        }
        let t = KeyTable { keys, vals };
        proof {
            assert(t.key_seq() =~= self.key_seq());
            assert forall|k: Seq<char>| #[trigger] t.view().contains_key(k) implies t.view()[k] == self.view()[k] by {
                lemma_last_index_in_range(self.key_seq(), k);
            }
            assert(t.view() =~= self.view());
        }
        t
    }
}

/// What `m` records of `n`: nothing when `n` is unbound or bound to `None`.
pub open spec fn lookup<V>(m: Map<Seq<char>, Option<V>>, n: Seq<char>) -> Option<V> {
    if m.contains_key(n) {
        m[n]
    } else {
        None
    }
}

/// What is known before a statement: constant values, remainder keys and
/// upper bounds of variables.
pub struct KnownV {
    pub consts: Map<Seq<char>, Option<i64>>,
    pub mods: Map<Seq<char>, Option<ModKeyV>>,
    pub bounds: Map<Seq<char>, Option<i64>>,
}

/// The executable form of `KnownV`.
pub struct Known {
    pub consts: NameTable<Option<i64>>,
    pub mods: KeyTable,
    pub bounds: NameTable<Option<i64>>,
}

impl Known {
    pub open spec fn wf(&self) -> bool {
        self.consts.wf() && self.mods.wf() && self.bounds.wf()
    }

    pub open spec fn view(&self) -> KnownV {
        KnownV { consts: self.consts.view(), mods: self.mods.view(), bounds: self.bounds.view() }
    }

    /// Nothing known.
    pub fn new() -> (k: Self)
        ensures
            k.wf(),
            k.view() == (KnownV { consts: Map::empty(), mods: Map::empty(), bounds: Map::empty() }),
    {
        Known { consts: NameTable::new(), mods: KeyTable::new(), bounds: NameTable::new() }
    }

    fn duplicate(&self) -> (k: Self)
        requires
            self.wf(),
        ensures
            k.wf(),
            k.view() == self.view(),
    {
        Known { consts: self.consts.duplicate(), mods: self.mods.duplicate(), bounds: self.bounds.duplicate() }
    }
}

fn lookup_i(t: &NameTable<Option<i64>>, n: &String) -> (r: Option<i64>)
    requires
        t.wf(),
    ensures
        r == lookup(t.view(), n@),
{
    match t.get(n) {
        Some(v) => v,
        None => None,
    }
}

// ---------------------------------------------------------------------------
// Constant values
// ---------------------------------------------------------------------------

/// `l` to the power `r`, wrapping on `i64`.
pub open spec fn wrapping_pow(l: i64, r: nat) -> i64
    decreases r,
{
    if r == 0 {
        1
    } else {
        vstd::wrapping::i64_specs::wrapping_mul(wrapping_pow(l, (r - 1) as nat), l)
    }
}

fn wrapping_pow_exec(l: i64, r: i64) -> (p: i64)
    requires
        0 <= r,
    ensures
        p == wrapping_pow(l, r as nat),
{
    let mut p: i64 = 1;
    let mut k: i64 = 0;
    while k < r
        invariant
            0 <= k <= r,
            p == wrapping_pow(l, k as nat),
        decreases r - k,
    {
        p = p.wrapping_mul(l);
        k += 1;
    }
    p
}

/// `l op r` on constants, as the pass computes it: wrapping `+ - *` and
/// power, truncating `/` and `%`, shifts by less than 64, comparisons as 0
/// or 1; `None` where it is undefined (division by zero, the one division
/// that overflows, a shift or power out of range).
pub open spec fn const_op(op: BinaryOp, l: i64, r: i64) -> Option<i64> {
    match op {
        BinaryOp::Add => Some(vstd::wrapping::i64_specs::wrapping_add(l, r)),
        BinaryOp::Sub => Some(vstd::wrapping::i64_specs::wrapping_sub(l, r)),
        BinaryOp::Mul => Some(vstd::wrapping::i64_specs::wrapping_mul(l, r)),
        BinaryOp::Div => l.checked_div(r),
        BinaryOp::Mod => l.checked_rem(r),
        BinaryOp::Pow => if 0 <= r <= 62 {
            Some(wrapping_pow(l, r as nat))
        } else {
            None
        },
        BinaryOp::BitAnd => Some(l & r),
        BinaryOp::BitOr => Some(l | r),
        BinaryOp::BitXor => Some(l ^ r),
        BinaryOp::Shl => if 0 <= r < 64 {
            Some(l << (r as u32))
        } else {
            None
        },
        BinaryOp::Shr => if 0 <= r < 64 {
            Some(l >> (r as u32))
        } else {
            None
        },
        BinaryOp::Eq => Some(if l == r { 1 } else { 0 }),
        BinaryOp::Ne => Some(if l != r { 1 } else { 0 }),
        BinaryOp::Lt => Some(if l < r { 1 } else { 0 }),
        BinaryOp::Le => Some(if l <= r { 1 } else { 0 }),
        BinaryOp::Gt => Some(if l > r { 1 } else { 0 }),
        BinaryOp::Ge => Some(if l >= r { 1 } else { 0 }),
    }
}

fn const_op_exec(op: BinaryOp, l: i64, r: i64) -> (v: Option<i64>)
    ensures
        v == const_op(op, l, r),
{
    match op {
        BinaryOp::Add => Some(l.wrapping_add(r)),
        BinaryOp::Sub => Some(l.wrapping_sub(r)),
        BinaryOp::Mul => Some(l.wrapping_mul(r)),
        BinaryOp::Div => l.checked_div(r),
        BinaryOp::Mod => l.checked_rem(r),
        BinaryOp::Pow => if 0 <= r && r <= 62 {
            Some(wrapping_pow_exec(l, r))
        } else {
            None
        },
        BinaryOp::BitAnd => Some(l & r),
        BinaryOp::BitOr => Some(l | r),
        BinaryOp::BitXor => Some(l ^ r),
        BinaryOp::Shl => if 0 <= r && r < 64 {
            Some(l << (r as u32))
        } else {
            None
        },
        BinaryOp::Shr => if 0 <= r && r < 64 {
            Some(l >> (r as u32))
        } else {
            None
        },
        BinaryOp::Eq => Some(if l == r { 1 } else { 0 }),
        BinaryOp::Ne => Some(if l != r { 1 } else { 0 }),
        BinaryOp::Lt => Some(if l < r { 1 } else { 0 }),
        BinaryOp::Le => Some(if l <= r { 1 } else { 0 }),
        BinaryOp::Gt => Some(if l > r { 1 } else { 0 }),
        BinaryOp::Ge => Some(if l >= r { 1 } else { 0 }),
    }
}

/// The constant value of `e` where `consts` holds the known values: from
/// integer and boolean literals (true as 1), known variables, `-`, `!` and
/// the operators of `const_op`; `None` otherwise, and for the negation of
/// `i64::MIN`.
pub open spec fn eval_v(e: ExprV, consts: Map<Seq<char>, Option<i64>>) -> Option<i64>
    decreases e,
{
    match e {
        ExprV::Literal { lit: LitV::Int(v, _), .. } => Some(v),
        ExprV::Literal { lit: LitV::Bool(b), .. } => Some(if b { 1 } else { 0 }),
        ExprV::Ident { name, .. } => lookup(consts, name),
        ExprV::Unary { op, expr, .. } => match eval_v(*expr, consts) {
            Some(v) => match op {
                UnaryOp::Neg => if v == i64::MIN {
                    None
                } else {
                    Some((-v) as i64)
                },
                UnaryOp::Not => Some(if v == 0 { 1 } else { 0 }),
            },
            None => None,
        },
        ExprV::Binary { op, left, right, .. } => match eval_v(*left, consts) {
            Some(l) => match eval_v(*right, consts) {
                Some(r) => const_op(op, l, r),
                None => None,
            },
            None => None,
        },
        _ => None,
    }
}

/// The constant value of `e` (see `eval_v`).
pub fn eval_const(e: &TypedExpr, consts: &NameTable<Option<i64>>) -> (r: Option<i64>)
    requires
        consts.wf(),
    ensures
        r == eval_v(expr_view(*e), consts.view()),
    decreases e,
{
    match e {
        TypedExpr::Literal { lit: TypedLiteral::Int(v, _), .. } => Some(*v),
        TypedExpr::Literal { lit: TypedLiteral::Bool(b), .. } => Some(if *b { 1 } else { 0 }),
        TypedExpr::Ident { name, .. } => lookup_i(consts, name),
        TypedExpr::Unary { op, expr, .. } => match eval_const(expr, consts) {
            Some(v) => match op {
                UnaryOp::Neg => if v == i64::MIN {
                    None
                } else {
                    Some(-v)
                },
                UnaryOp::Not => Some(if v == 0 { 1 } else { 0 }),
            },
            None => None,
        },
        TypedExpr::Binary { op, left, right, .. } => match eval_const(left, consts) {
            Some(l) => match eval_const(right, consts) {
                Some(r) => const_op_exec(*op, l, r),
                None => None,
            },
            None => None,
        },
        _ => None,
    }
}

// ---------------------------------------------------------------------------
// Folding expressions
// ---------------------------------------------------------------------------

pub open spec fn exprv_ty(e: ExprV) -> Type {
    match e {
        ExprV::Literal { ty, .. } => ty,
        ExprV::Ident { ty, .. } => ty,
        ExprV::Unary { ty, .. } => ty,
        ExprV::Binary { ty, .. } => ty,
        ExprV::Call { ty, .. } => ty,
        ExprV::ArrayLiteral { ty, .. } => ty,
        ExprV::Index { ty, .. } => ty,
    }
}

pub open spec fn exprv_span(e: ExprV) -> Span {
    match e {
        ExprV::Literal { span, .. } => span,
        ExprV::Ident { span, .. } => span,
        ExprV::Unary { span, .. } => span,
        ExprV::Binary { span, .. } => span,
        ExprV::Call { span, .. } => span,
        ExprV::ArrayLiteral { span, .. } => span,
        ExprV::Index { span, .. } => span,
    }
}

/// The key that a divisor `e` is recorded under: its name or its value.
pub open spec fn key_of(e: ExprV) -> Option<ModKeyV> {
    match e {
        ExprV::Ident { name, .. } => Some(ModKeyV::Name(name)),
        ExprV::Literal { lit: LitV::Int(v, _), .. } => Some(ModKeyV::Int(v)),
        _ => None,
    }
}

/// `a` and `b` are the same variable or the same integer or boolean literal.
pub open spec fn same_leaf(a: ExprV, b: ExprV) -> bool {
    match (a, b) {
        (ExprV::Ident { name: n1, .. }, ExprV::Ident { name: n2, .. }) => n1 == n2,
        (ExprV::Literal { lit: LitV::Int(v1, _), .. }, ExprV::Literal { lit: LitV::Int(v2, _), .. }) => v1 == v2,
        (ExprV::Literal { lit: LitV::Bool(b1), .. }, ExprV::Literal { lit: LitV::Bool(b2), .. }) => b1 == b2,
        _ => false,
    }
}

/// The literal 0 of type `ty`.
pub open spec fn zero_v(ty: Type, sp: Span) -> ExprV {
    ExprV::Literal { lit: LitV::Int(0, ty), ty, span: sp }
}

/// `fl op fr` after the identities: `1 * x`, `x * 1`, `0 + x`, `x + 0`,
/// `x - 0` give `x`, a product with 0 gives 0, and `x % m` is kept as `x`
/// where `x` is already a remainder modulo `m` (`(y % m) % m`, or a variable
/// recorded with key `m`) or lies in `[0, m)` by its recorded bound.
pub open spec fn simplified(op: BinaryOp, fl: ExprV, fr: ExprV, ty: Type, sp: Span, k: KnownV) -> ExprV {
    let default = ExprV::Binary { op, left: Box::new(fl), right: Box::new(fr), ty, span: sp };
    let c = k.consts;
    match op {
        BinaryOp::Mul => if eval_v(fl, c) == Some(1i64) {
            fr
        } else if eval_v(fr, c) == Some(1i64) {
            fl
        } else if eval_v(fl, c) == Some(0i64) || eval_v(fr, c) == Some(0i64) {
            zero_v(ty, sp)
        } else {
            default
        },
        BinaryOp::Add => if eval_v(fl, c) == Some(0i64) {
            fr
        } else if eval_v(fr, c) == Some(0i64) {
            fl
        } else {
            default
        },
        BinaryOp::Sub => if eval_v(fr, c) == Some(0i64) {
            fl
        } else {
            default
        },
        BinaryOp::Mod => match fl {
            ExprV::Binary { op: BinaryOp::Mod, right: ir, .. } => if same_leaf(*ir, fr) {
                fl
            } else {
                default
            },
            ExprV::Ident { name, .. } => if key_of(fr) is Some && lookup(k.mods, name) == key_of(fr) {
                fl
            } else {
                match (lookup(k.bounds, name), eval_v(fr, c)) {
                    (Some(ub), Some(m)) => if ub >= 0 && ub < m {
                        fl
                    } else {
                        default
                    },
                    _ => default,
                }
            },
            _ => default,
        },
        _ => default,
    }
}

/// `e` folded under what `k` knows: an expression other than a division or
/// remainder with a constant value becomes that literal (a `bool` or an
/// integer of its type), and otherwise its operands are folded and the
/// identities of `simplified` applied.
pub open spec fn fold_v(e: ExprV, k: KnownV) -> ExprV
    decreases e, 1nat,
{
    let is_div_mod = e matches ExprV::Binary { op, .. } && (op == BinaryOp::Div || op == BinaryOp::Mod);
    let ty = exprv_ty(e);
    let sp = exprv_span(e);
    if !is_div_mod && eval_v(e, k.consts) is Some && (ty == Type::Bool || ty == Type::I32 || ty == Type::I64) {
        let c = eval_v(e, k.consts).unwrap();
        if ty == Type::Bool {
            ExprV::Literal { lit: LitV::Bool(c != 0), ty, span: sp }
        } else {
            ExprV::Literal { lit: LitV::Int(c, ty), ty, span: sp }
        }
    } else {
        match e {
            ExprV::Unary { op, expr, ty, span } => ExprV::Unary { op, expr: Box::new(fold_v(*expr, k)), ty, span },
            ExprV::Binary { op, left, right, ty, span } => simplified(
                op,
                fold_v(*left, k),
                fold_v(*right, k),
                ty,
                span,
                k,
            ),
            ExprV::Call { callee, args, ty, span } => ExprV::Call { callee, args: folds_v(args, k), ty, span },
            ExprV::Index { target, index, is_safe, ty, span } => ExprV::Index {
                target: Box::new(fold_v(*target, k)),
                index: Box::new(fold_v(*index, k)),
                is_safe,
                ty,
                span,
            },
            _ => e,
        }
    }
}

pub open spec fn folds_v(es: Seq<ExprV>, k: KnownV) -> Seq<ExprV>
    decreases es, 0nat,
{
    if es.len() == 0 {
        Seq::empty()
    } else {
        folds_v(es.drop_last(), k).push(fold_v(es.last(), k))
    }
}

fn key_of_exec(e: &TypedExpr) -> (r: Option<ModKey>)
    ensures
        opt_key_view(r) == key_of(expr_view(*e)),
{
    match e {
        TypedExpr::Ident { name, .. } => Some(ModKey::Name(name.clone())),
        TypedExpr::Literal { lit: TypedLiteral::Int(v, _), .. } => Some(ModKey::Int(*v)),
        _ => None,
    }
}

fn same_key(a: &ModKey, b: &ModKey) -> (r: bool)
    ensures
        r == (key_view(*a) == key_view(*b)),
{
    match (a, b) {
        (ModKey::Name(x), ModKey::Name(y)) => *x == *y,
        (ModKey::Int(x), ModKey::Int(y)) => *x == *y,
        _ => false,
    }
}

fn same_leaf_exec(a: &TypedExpr, b: &TypedExpr) -> (r: bool)
    ensures
        r == same_leaf(expr_view(*a), expr_view(*b)),
{
    match (a, b) {
        (TypedExpr::Ident { name: n1, .. }, TypedExpr::Ident { name: n2, .. }) => *n1 == *n2,
        (
            TypedExpr::Literal { lit: TypedLiteral::Int(v1, _), .. },
            TypedExpr::Literal { lit: TypedLiteral::Int(v2, _), .. },
        ) => *v1 == *v2,
        (TypedExpr::Literal { lit: TypedLiteral::Bool(b1), .. }, TypedExpr::Literal { lit: TypedLiteral::Bool(b2), .. }) =>
            *b1 == *b2,
        _ => false,
    }
}

fn simplified_exec(op: BinaryOp, fl: TypedExpr, fr: TypedExpr, ty: Type, sp: Span, k: &Known) -> (r: TypedExpr)
    requires
        k.wf(),
    ensures
        expr_view(r) == simplified(op, expr_view(fl), expr_view(fr), ty, sp, k.view()),
{
    let lc = eval_const(&fl, &k.consts);
    let rc = eval_const(&fr, &k.consts);
    match op {
        BinaryOp::Mul => {
            if lc == Some(1i64) {
                return fr;
            }
            if rc == Some(1i64) {
                return fl;
            }
            if lc == Some(0i64) || rc == Some(0i64) {
                return TypedExpr::Literal { lit: TypedLiteral::Int(0, ty.duplicate()), ty, span: sp };
            }
        },
        BinaryOp::Add => {
            if lc == Some(0i64) {
                return fr;
            }
            if rc == Some(0i64) {
                return fl;
            }
        },
        BinaryOp::Sub => {
            if rc == Some(0i64) {
                return fl;
            }
        },
        BinaryOp::Mod => {
            let keep = match &fl {
                TypedExpr::Binary { op: BinaryOp::Mod, right: ir, .. } => same_leaf_exec(ir, &fr),
                TypedExpr::Ident { name, .. } => {
                    let by_key = match key_of_exec(&fr) {
                        Some(rk) => match k.mods.get(name) {
                            Some(mk) => same_key(&mk, &rk),
                            None => false,
                        },
                        None => false,
                    };
                    if by_key {
                        true
                    } else {
                        match (lookup_i(&k.bounds, name), rc) {
                            (Some(ub), Some(m)) => ub >= 0 && ub < m,
                            _ => false,
                        }
                    }
                },
                _ => false,
            };
            if keep {
                return fl;
            }
        },
        _ => {},
    }
    TypedExpr::Binary { op, left: Box::new(fl), right: Box::new(fr), ty, span: sp }
}

/// `e` folded (see `fold_v`).
pub fn fold_expr(e: &TypedExpr, k: &Known) -> (r: TypedExpr)
    requires
        k.wf(),
    ensures
        expr_view(r) == fold_v(expr_view(*e), k.view()),
    decreases e, 1nat,
{
    let is_div_mod = match e {
        TypedExpr::Binary { op: BinaryOp::Div, .. } => true,
        TypedExpr::Binary { op: BinaryOp::Mod, .. } => true,
        _ => false,
    };
    if !is_div_mod {
        if let Some(c) = eval_const(e, &k.consts) {
            let ty = e.ty();
            let span = e.span();
            if ty.same(&Type::Bool) {
                return TypedExpr::Literal { lit: TypedLiteral::Bool(c != 0), ty, span };
            } else if ty.is_integer() {
                return TypedExpr::Literal { lit: TypedLiteral::Int(c, ty.duplicate()), ty, span };
            }
        }
    }
    match e {
        TypedExpr::Unary { op, expr, ty, span } => TypedExpr::Unary {
            op: *op,
            expr: Box::new(fold_expr(expr, k)),
            ty: ty.duplicate(),
            span: *span,
        },
        TypedExpr::Binary { op, left, right, ty, span } => {
            let fl = fold_expr(left, k);
            let fr = fold_expr(right, k);
            simplified_exec(*op, fl, fr, ty.duplicate(), *span, k)
        },
        TypedExpr::Call { callee, args, ty, span } => {
            let ghost whole = *e;
            proof {
                assert(decreases_to!(whole => whole->Call_args));
            }
            TypedExpr::Call {
                callee: callee.clone(),
                args: fold_exprs(args, k, Ghost(whole)),
                ty: ty.duplicate(),
                span: *span,
            }
        },
        TypedExpr::Index { target, index, is_safe, ty, span } => TypedExpr::Index {
            target: Box::new(fold_expr(target, k)),
            index: Box::new(fold_expr(index, k)),
            is_safe: *is_safe,
            ty: ty.duplicate(),
            span: *span,
        },
        _ => copy_expr_view(e),
    }
}

fn fold_exprs(es: &Vec<TypedExpr>, k: &Known, Ghost(whole): Ghost<TypedExpr>) -> (rs: Vec<TypedExpr>)
    requires
        k.wf(),
        decreases_to!(whole => *es),
    ensures
        exprs_view(rs@) == folds_v(exprs_view(es@), k.view()),
    decreases whole, 0nat,
{
    let mut rs: Vec<TypedExpr> = Vec::new();
    let mut i: usize = 0;
    assert(es@.subrange(0, 0) =~= Seq::<TypedExpr>::empty());
    while i < es.len()
        invariant
            k.wf(),
            decreases_to!(whole => *es),
            i <= es@.len(),
            exprs_view(rs@) == folds_v(exprs_view(es@.subrange(0, i as int)), k.view()),
        decreases es@.len() - i,
    {
        proof {
            assert(decreases_to!(*es => es@));
            assert(decreases_to!(es@ => es@[i as int]));
        }
        let r = fold_expr(&es[i], k);
        let ghost rs0 = rs@;
        rs.push(r);
        proof {
            assert(rs@.drop_last() =~= rs0);
            let next = es@.subrange(0, i + 1);
            assert(next.drop_last() =~= es@.subrange(0, i as int));
            assert(next.last() == es@[i as int]);
            let nv = exprs_view(next);
            assert(nv.drop_last() =~= exprs_view(es@.subrange(0, i as int)));
        }
        i += 1;
    }
    assert(es@.subrange(0, es@.len() as int) =~= es@);
    rs
}

// ---------------------------------------------------------------------------
// Which variables statements read and write
// ---------------------------------------------------------------------------

/// The views of the statements `s`, element by element.
pub proof fn lemma_stmts_view_index(s: Seq<TypedStmt>)
    ensures
        stmts_view(s).len() == s.len(),
        forall|j: int| 0 <= j < s.len() ==> #[trigger] stmts_view(s)[j] == stmt_view(s[j]),
    decreases s.len(),
{
    if s.len() > 0 {
        lemma_stmts_view_index(s.drop_last());
    }
}

/// The views of a part of the statements are that part of their views.
pub proof fn lemma_stmts_view_subrange(s: Seq<TypedStmt>, a: int, b: int)
    requires
        0 <= a <= b <= s.len(),
    ensures
        stmts_view(s.subrange(a, b)) == stmts_view(s).subrange(a, b),
{
    lemma_stmts_view_index(s);
    lemma_stmts_view_index(s.subrange(a, b));
    assert(stmts_view(s.subrange(a, b)) =~= stmts_view(s).subrange(a, b));
}

/// The names in `v`.
pub open spec fn names_in(v: Seq<String>) -> Set<Seq<char>> {
    Set::new(|n: Seq<char>| exists|i: int| 0 <= i < v.len() && #[trigger] v[i]@ == n)
}

proof fn lemma_names_push(v: Seq<String>, s: String)
    ensures
        names_in(v.push(s)) == names_in(v).insert(s@),
{
    let w = v.push(s);
    assert forall|n: Seq<char>| names_in(w).contains(n) <==> names_in(v).insert(s@).contains(n) by {
        if names_in(v).contains(n) {
            let i = choose|i: int| 0 <= i < v.len() && #[trigger] v[i]@ == n;
            assert(w[i]@ == n);
        }
        if n == s@ {
            assert(w[v.len() as int]@ == n);
        }
        if names_in(w).contains(n) {
            let i = choose|i: int| 0 <= i < w.len() && #[trigger] w[i]@ == n;
            if i < v.len() {
                assert(v[i]@ == n);
            }
        }
    }
    assert(names_in(w) =~= names_in(v).insert(s@));
}

fn push_name(v: &mut Vec<String>, s: &String)
    ensures
        names_in(final(v)@) == names_in(old(v)@).insert(s@),
{
    let ghost v0 = v@;
    let c = s.clone();
    v.push(c);
    proof {
        lemma_names_push(v0, v@.last());
        assert(v@ =~= v0.push(v@.last()));
    }
}

/// Whether `n` is one of the names in `v`.
fn has_name(v: &Vec<String>, n: &String) -> (b: bool)
    ensures
        b == names_in(v@).contains(n@),
{
    let mut i: usize = 0;
    while i < v.len()
        invariant
            i <= v@.len(),
            forall|j: int| 0 <= j < i ==> v@[j]@ != n@,
        decreases v@.len() - i,
    {
        if v[i] == *n {
            assert(v@[i as int]@ == n@);
            return true;
        }
        i += 1;
    }
    assert(!names_in(v@).contains(n@));
    false
}

/// The variables that `e` reads.
pub open spec fn expr_reads(e: ExprV) -> Set<Seq<char>>
    decreases e, 1nat,
{
    match e {
        ExprV::Ident { name, .. } => set![name],
        ExprV::Unary { expr, .. } => expr_reads(*expr),
        ExprV::Binary { left, right, .. } => expr_reads(*left) + expr_reads(*right),
        ExprV::Call { args, .. } => exprs_reads(args),
        ExprV::ArrayLiteral { elements, .. } => exprs_reads(elements),
        ExprV::Index { target, index, .. } => expr_reads(*target) + expr_reads(*index),
        _ => Set::empty(),
    }
}

pub open spec fn exprs_reads(es: Seq<ExprV>) -> Set<Seq<char>>
    decreases es, 0nat,
{
    if es.len() == 0 {
        Set::empty()
    } else {
        exprs_reads(es.drop_last()) + expr_reads(es.last())
    }
}

/// The variables that the statements `ss` read.
pub open spec fn stmts_reads(ss: Seq<StmtV>) -> Set<Seq<char>>
    decreases ss, 1nat,
{
    if ss.len() == 0 {
        Set::empty()
    } else {
        stmts_reads(ss.drop_last()) + stmt_reads(ss.last())
    }
}

pub open spec fn stmt_reads(s: StmtV) -> Set<Seq<char>>
    decreases s, 0nat,
{
    match s {
        StmtV::Let { value, .. } => expr_reads(value),
        StmtV::Assign { value, .. } => expr_reads(value),
        StmtV::Expr(value) => expr_reads(value),
        StmtV::IndexAssign { index, value, .. } => expr_reads(index) + expr_reads(value),
        StmtV::Return(Some(e), _) => expr_reads(e),
        StmtV::If { condition, then_branch, else_branch, .. } => expr_reads(condition) + stmts_reads(
            then_branch.stmts,
        ) + match else_branch {
            Some(b) => stmts_reads(b.stmts),
            None => Set::empty(),
        },
        StmtV::While { condition, body, .. } => expr_reads(condition) + stmts_reads(body.stmts),
        _ => Set::empty(),
    }
}

fn collect_reads_expr(e: &TypedExpr, out: &mut Vec<String>)
    ensures
        names_in(final(out)@) == names_in(old(out)@) + expr_reads(expr_view(*e)),
    decreases e, 1nat,
{
    match e {
        TypedExpr::Ident { name, .. } => {
            push_name(out, name);
            assert(names_in(old(out)@).insert(name@) =~= names_in(old(out)@) + set![name@]);
        },
        TypedExpr::Unary { expr, .. } => collect_reads_expr(expr, out),
        TypedExpr::Binary { left, right, .. } => {
            collect_reads_expr(left, out);
            collect_reads_expr(right, out);
            assert(names_in(out@) =~= names_in(old(out)@) + expr_reads(expr_view(*e)));
        },
        TypedExpr::Call { args, .. } => {
            let ghost whole = *e;
            proof {
                assert(decreases_to!(whole => whole->Call_args));
            }
            collect_reads_exprs(args, out, Ghost(whole));
        },
        TypedExpr::ArrayLiteral { elements, .. } => {
            let ghost whole = *e;
            proof {
                assert(decreases_to!(whole => whole->ArrayLiteral_elements));
            }
            collect_reads_exprs(elements, out, Ghost(whole));
        },
        TypedExpr::Index { target, index, .. } => {
            collect_reads_expr(target, out);
            collect_reads_expr(index, out);
            assert(names_in(out@) =~= names_in(old(out)@) + expr_reads(expr_view(*e)));
        },
        _ => {
            assert(names_in(out@) =~= names_in(old(out)@) + expr_reads(expr_view(*e)));
        },
    }
}

fn collect_reads_exprs(es: &Vec<TypedExpr>, out: &mut Vec<String>, Ghost(whole): Ghost<TypedExpr>)
    requires
        decreases_to!(whole => *es),
    ensures
        names_in(final(out)@) == names_in(old(out)@) + exprs_reads(exprs_view(es@)),
    decreases whole, 0nat,
{
    let ghost base = names_in(out@);
    let mut i: usize = 0;
    assert(es@.subrange(0, 0) =~= Seq::<TypedExpr>::empty());
    assert(base + exprs_reads(exprs_view(es@.subrange(0, 0))) =~= base);
    while i < es.len()
        invariant
            decreases_to!(whole => *es),
            i <= es@.len(),
            names_in(out@) == base + exprs_reads(exprs_view(es@.subrange(0, i as int))),
        decreases es@.len() - i,
    {
        proof {
            assert(decreases_to!(*es => es@));
            assert(decreases_to!(es@ => es@[i as int]));
        }
        collect_reads_expr(&es[i], out);
        proof {
            let next = es@.subrange(0, i + 1);
            assert(next.drop_last() =~= es@.subrange(0, i as int));
            assert(next.last() == es@[i as int]);
            let nv = exprs_view(next);
            assert(nv.drop_last() =~= exprs_view(es@.subrange(0, i as int)));
            assert(names_in(out@) =~= base + exprs_reads(nv));
        }
        i += 1;
    }
    assert(es@.subrange(0, es@.len() as int) =~= es@);
}

/// Adds to `out` the variables that `ss[from..]` read.
fn collect_reads_stmts(ss: &Vec<TypedStmt>, from: usize, out: &mut Vec<String>)
    requires
        from <= ss@.len(),
    ensures
        names_in(final(out)@) == names_in(old(out)@) + stmts_reads(stmts_view(ss@).subrange(
            from as int,
            ss@.len() as int,
        )),
    decreases ss@, 1nat,
{
    let ghost base = names_in(out@);
    let mut i: usize = from;
    assert(ss@.subrange(from as int, from as int) =~= Seq::<TypedStmt>::empty());
    assert(base + stmts_reads(stmts_view(ss@.subrange(from as int, from as int))) =~= base);
    while i < ss.len()
        invariant
            from <= i <= ss@.len(),
            names_in(out@) == base + stmts_reads(stmts_view(ss@.subrange(from as int, i as int))),
        decreases ss@.len() - i,
    {
        proof {
            assert(decreases_to!(ss@ => ss@[i as int]));
        }
        collect_reads_stmt(&ss[i], out);
        proof {
            let next = ss@.subrange(from as int, i + 1);
            assert(next.drop_last() =~= ss@.subrange(from as int, i as int));
            assert(next.last() == ss@[i as int]);
            let nv = stmts_view(next);
            assert(nv.drop_last() =~= stmts_view(ss@.subrange(from as int, i as int)));
            assert(names_in(out@) =~= base + stmts_reads(nv));
        }
        i += 1;
    }
    proof {
        lemma_stmts_view_subrange(ss@, from as int, ss@.len() as int);
    }
}

fn collect_reads_stmt(s: &TypedStmt, out: &mut Vec<String>)
    ensures
        names_in(final(out)@) == names_in(old(out)@) + stmt_reads(stmt_view(*s)),
    decreases s, 0nat,
{
    let ghost base = names_in(out@);
    match s {
        TypedStmt::Let { value, .. } => collect_reads_expr(value, out),
        TypedStmt::Assign { value, .. } => collect_reads_expr(value, out),
        TypedStmt::Expr(value) => collect_reads_expr(value, out),
        TypedStmt::IndexAssign { index, value, .. } => {
            collect_reads_expr(index, out);
            collect_reads_expr(value, out);
            assert(names_in(out@) =~= base + stmt_reads(stmt_view(*s)));
        },
        TypedStmt::Return(Some(e), _) => collect_reads_expr(e, out),
        TypedStmt::If { condition, then_branch, else_branch, .. } => {
            collect_reads_expr(condition, out);
            collect_reads_stmts(&then_branch.stmts, 0, out);
            proof {
                lemma_stmts_view_subrange(then_branch.stmts@, 0, then_branch.stmts@.len() as int);
                assert(then_branch.stmts@.subrange(0, then_branch.stmts@.len() as int) =~= then_branch.stmts@);
            }
            match else_branch {
                Some(b) => {
                    collect_reads_stmts(&b.stmts, 0, out);
                    proof {
                        lemma_stmts_view_subrange(b.stmts@, 0, b.stmts@.len() as int);
                        assert(b.stmts@.subrange(0, b.stmts@.len() as int) =~= b.stmts@);
                    }
                },
                None => {},
            }
            assert(names_in(out@) =~= base + stmt_reads(stmt_view(*s)));
        },
        TypedStmt::While { condition, body, .. } => {
            collect_reads_expr(condition, out);
            collect_reads_stmts(&body.stmts, 0, out);
            proof {
                lemma_stmts_view_subrange(body.stmts@, 0, body.stmts@.len() as int);
                assert(body.stmts@.subrange(0, body.stmts@.len() as int) =~= body.stmts@);
            }
            assert(names_in(out@) =~= base + stmt_reads(stmt_view(*s)));
        },
        _ => {
            assert(names_in(out@) =~= base + stmt_reads(stmt_view(*s)));
        },
    }
}

/// The variables and arrays that the statements `ss` assign, nested blocks
/// included.
pub open spec fn stmts_mutated(ss: Seq<StmtV>) -> Set<Seq<char>>
    decreases ss, 1nat,
{
    if ss.len() == 0 {
        Set::empty()
    } else {
        stmts_mutated(ss.drop_last()) + stmt_mutated(ss.last())
    }
}

pub open spec fn stmt_mutated(s: StmtV) -> Set<Seq<char>>
    decreases s, 0nat,
{
    match s {
        StmtV::Assign { name, .. } => set![name],
        StmtV::IndexAssign { target, .. } => set![target],
        StmtV::If { then_branch, else_branch, .. } => stmts_mutated(then_branch.stmts) + match else_branch {
            Some(b) => stmts_mutated(b.stmts),
            None => Set::empty(),
        },
        StmtV::While { body, .. } => stmts_mutated(body.stmts),
        _ => Set::empty(),
    }
}

fn collect_mutated(b: &TypedBlock, out: &mut Vec<String>)
    ensures
        names_in(final(out)@) == names_in(old(out)@) + stmts_mutated(stmts_view(b.stmts@)),
    decreases b, 1nat,
{
    let ghost base = names_in(out@);
    let ss = &b.stmts;
    let mut i: usize = 0;
    assert(ss@.subrange(0, 0) =~= Seq::<TypedStmt>::empty());
    assert(base + stmts_mutated(stmts_view(ss@.subrange(0, 0))) =~= base);
    while i < ss.len()
        invariant
            ss == &b.stmts,
            i <= ss@.len(),
            names_in(out@) == base + stmts_mutated(stmts_view(ss@.subrange(0, i as int))),
        decreases ss@.len() - i,
    {
        proof {
            assert(decreases_to!(*b => b.stmts));
            assert(decreases_to!(b.stmts => b.stmts@));
            assert(decreases_to!(b.stmts@ => b.stmts@[i as int]));
        }
        collect_mutated_stmt(&ss[i], out);
        proof {
            let next = ss@.subrange(0, i + 1);
            assert(next.drop_last() =~= ss@.subrange(0, i as int));
            assert(next.last() == ss@[i as int]);
            let nv = stmts_view(next);
            assert(nv.drop_last() =~= stmts_view(ss@.subrange(0, i as int)));
            assert(names_in(out@) =~= base + stmts_mutated(nv));
        }
        i += 1;
    }
    assert(ss@.subrange(0, ss@.len() as int) =~= ss@);
}

fn collect_mutated_stmt(s: &TypedStmt, out: &mut Vec<String>)
    ensures
        names_in(final(out)@) == names_in(old(out)@) + stmt_mutated(stmt_view(*s)),
    decreases s, 0nat,
{
    let ghost base = names_in(out@);
    match s {
        TypedStmt::Assign { name, .. } => {
            push_name(out, name);
            assert(names_in(out@) =~= base + stmt_mutated(stmt_view(*s)));
        },
        TypedStmt::IndexAssign { target, .. } => {
            push_name(out, target);
            assert(names_in(out@) =~= base + stmt_mutated(stmt_view(*s)));
        },
        TypedStmt::If { then_branch, else_branch, .. } => {
            collect_mutated(then_branch, out);
            match else_branch {
                Some(eb) => collect_mutated(eb, out),
                None => {},
            }
            assert(names_in(out@) =~= base + stmt_mutated(stmt_view(*s)));
        },
        TypedStmt::While { body, .. } => collect_mutated(body, out),
        _ => {
            assert(names_in(out@) =~= base + stmt_mutated(stmt_view(*s)));
        },
    }
}

/// `m` with every name of `s` bound to `None`.
pub open spec fn forget<V>(m: Map<Seq<char>, Option<V>>, s: Set<Seq<char>>) -> Map<Seq<char>, Option<V>> {
    Map::new(
        |n: Seq<char>| m.contains_key(n) || s.contains(n),
        |n: Seq<char>|
            if s.contains(n) {
                None
            } else {
                m[n]
            },
    )
}

/// `k` with nothing known of the names of `s`.
pub open spec fn forget_all(k: KnownV, s: Set<Seq<char>>) -> KnownV {
    KnownV { consts: forget(k.consts, s), mods: forget(k.mods, s), bounds: forget(k.bounds, s) }
}

/// `k` with no constant or remainder known of the names of `s`; the bounds
/// stay.
pub open spec fn forget_values(k: KnownV, s: Set<Seq<char>>) -> KnownV {
    KnownV { consts: forget(k.consts, s), mods: forget(k.mods, s), bounds: k.bounds }
}

/// Forgets the names of `v` in the tables that `bounds_too` selects.
fn forget_names(k: &mut Known, v: &Vec<String>, bounds_too: bool)
    requires
        old(k).wf(),
    ensures
        final(k).wf(),
        final(k).view() == if bounds_too {
            forget_all(old(k).view(), names_in(v@))
        } else {
            forget_values(old(k).view(), names_in(v@))
        },
{
    let ghost k0 = k.view();
    let mut i: usize = 0;
    assert(v@.subrange(0, 0) =~= Seq::<String>::empty());
    assert(names_in(v@.subrange(0, 0)) =~= Set::<Seq<char>>::empty());
    assert(forget(k0.consts, Set::<Seq<char>>::empty()) =~= k0.consts);
    assert(forget(k0.mods, Set::<Seq<char>>::empty()) =~= k0.mods);
    assert(forget(k0.bounds, Set::<Seq<char>>::empty()) =~= k0.bounds);
    while i < v.len()
        invariant
            k.wf(),
            i <= v@.len(),
            k.view().consts == forget(k0.consts, names_in(v@.subrange(0, i as int))),
            k.view().mods == forget(k0.mods, names_in(v@.subrange(0, i as int))),
            k.view().bounds == if bounds_too {
                forget(k0.bounds, names_in(v@.subrange(0, i as int)))
            } else {
                k0.bounds
            },
        decreases v@.len() - i,
    {
        let ghost s0 = names_in(v@.subrange(0, i as int));
        k.consts.insert(v[i].clone(), None);
        k.mods.insert(v[i].clone(), None);
        if bounds_too {
            k.bounds.insert(v[i].clone(), None);
        }
        proof {
            let next = v@.subrange(0, i + 1);
            assert(next =~= v@.subrange(0, i as int).push(v@[i as int]));
            lemma_names_push(v@.subrange(0, i as int), v@[i as int]);
            let s1 = s0.insert(v@[i as int]@);
            assert(forget(k0.consts, s0).insert(v@[i as int]@, None) =~= forget(k0.consts, s1));
            assert(forget(k0.mods, s0).insert(v@[i as int]@, None) =~= forget(k0.mods, s1));
            assert(forget(k0.bounds, s0).insert(v@[i as int]@, None) =~= forget(k0.bounds, s1));
        }
        i += 1;
    }
    assert(v@.subrange(0, v@.len() as int) =~= v@);
}

/// One of the statements `ss` is or holds a `break` or a `return`.
pub open spec fn stmts_exit(ss: Seq<StmtV>) -> bool
    decreases ss, 1nat,
{
    ss.len() > 0 && (stmts_exit(ss.drop_last()) || stmt_exit(ss.last()))
}

pub open spec fn stmt_exit(s: StmtV) -> bool
    decreases s, 0nat,
{
    match s {
        StmtV::Break(_) => true,
        StmtV::Return(..) => true,
        StmtV::If { then_branch, else_branch, .. } => stmts_exit(then_branch.stmts) || match else_branch {
            Some(b) => stmts_exit(b.stmts),
            None => false,
        },
        StmtV::While { body, .. } => stmts_exit(body.stmts),
        _ => false,
    }
}

/// One of the statements `ss` is a loop, or an `if` that holds one.
pub open spec fn stmts_loop(ss: Seq<StmtV>) -> bool
    decreases ss, 1nat,
{
    ss.len() > 0 && (stmts_loop(ss.drop_last()) || stmt_loop(ss.last()))
}

pub open spec fn stmt_loop(s: StmtV) -> bool
    decreases s, 0nat,
{
    match s {
        StmtV::While { .. } => true,
        StmtV::If { then_branch, else_branch, .. } => stmts_loop(then_branch.stmts) || match else_branch {
            Some(b) => stmts_loop(b.stmts),
            None => false,
        },
        _ => false,
    }
}

/// The number of assignments of `var` in `ss`, nested blocks included.
pub open spec fn stmts_assigns(ss: Seq<StmtV>, var: Seq<char>) -> nat
    decreases ss, 1nat,
{
    if ss.len() == 0 {
        0
    } else {
        stmts_assigns(ss.drop_last(), var) + stmt_assigns(ss.last(), var)
    }
}

pub open spec fn stmt_assigns(s: StmtV, var: Seq<char>) -> nat
    decreases s, 0nat,
{
    match s {
        StmtV::Assign { name, .. } => if name == var {
            1
        } else {
            0
        },
        StmtV::If { then_branch, else_branch, .. } => stmts_assigns(then_branch.stmts, var) + match else_branch {
            Some(b) => stmts_assigns(b.stmts, var),
            None => 0,
        },
        StmtV::While { body, .. } => stmts_assigns(body.stmts, var),
        _ => 0,
    }
}

pub open spec fn cap2(n: nat) -> nat {
    if n >= 2 {
        2
    } else {
        n
    }
}

/// What a scan of a block finds: whether it exits, whether it holds a loop,
/// and how often (up to two) it assigns `var`.
fn scan_block(b: &TypedBlock, var: &String) -> (r: (bool, bool, usize))
    ensures
        r.0 == stmts_exit(stmts_view(b.stmts@)),
        r.1 == stmts_loop(stmts_view(b.stmts@)),
        r.2 == cap2(stmts_assigns(stmts_view(b.stmts@), var@)),
    decreases b, 1nat,
{
    let ss = &b.stmts;
    let mut ex = false;
    let mut lp = false;
    let mut n: usize = 0;
    let mut i: usize = 0;
    assert(ss@.subrange(0, 0) =~= Seq::<TypedStmt>::empty());
    while i < ss.len()
        invariant
            ss == &b.stmts,
            i <= ss@.len(),
            ex == stmts_exit(stmts_view(ss@.subrange(0, i as int))),
            lp == stmts_loop(stmts_view(ss@.subrange(0, i as int))),
            n == cap2(stmts_assigns(stmts_view(ss@.subrange(0, i as int)), var@)),
        decreases ss@.len() - i,
    {
        proof {
            assert(decreases_to!(*b => b.stmts));
            assert(decreases_to!(b.stmts => b.stmts@));
            assert(decreases_to!(b.stmts@ => b.stmts@[i as int]));
        }
        let (e1, l1, n1) = scan_stmt(&ss[i], var);
        ex = ex || e1;
        lp = lp || l1;
        n = if n + n1 >= 2 {
            2
        } else {
            n + n1
        };
        proof {
            let next = ss@.subrange(0, i + 1);
            assert(next.drop_last() =~= ss@.subrange(0, i as int));
            assert(next.last() == ss@[i as int]);
            let nv = stmts_view(next);
            assert(nv.drop_last() =~= stmts_view(ss@.subrange(0, i as int)));
        }
        i += 1;
    }
    assert(ss@.subrange(0, ss@.len() as int) =~= ss@);
    (ex, lp, n)
}

fn scan_stmt(s: &TypedStmt, var: &String) -> (r: (bool, bool, usize))
    ensures
        r.0 == stmt_exit(stmt_view(*s)),
        r.1 == stmt_loop(stmt_view(*s)),
        r.2 == cap2(stmt_assigns(stmt_view(*s), var@)),
    decreases s, 0nat,
{
    match s {
        TypedStmt::Break(_) => (true, false, 0),
        TypedStmt::Return(..) => (true, false, 0),
        TypedStmt::Assign { name, .. } => (false, false, if *name == *var { 1 } else { 0 }),
        TypedStmt::If { then_branch, else_branch, .. } => {
            let (e1, l1, n1) = scan_block(then_branch, var);
            match else_branch {
                Some(eb) => {
                    let (e2, l2, n2) = scan_block(eb, var);
                    (e1 || e2, l1 || l2, if n1 + n2 >= 2 { 2 } else { n1 + n2 })
                },
                None => (e1, l1, n1),
            }
        },
        TypedStmt::While { body, .. } => {
            let (e1, _, n1) = scan_block(body, var);
            (e1, true, n1)
        },
        _ => (false, false, 0),
    }
}

/// The step that the assignment of `var` to `value` makes: `var / c`,
/// `var >> c`, `var - c` or `var + c` (or `c + var`) with a literal `c` of
/// at least 2, 1, 1 and 1.
pub open spec fn step_of(value: ExprV, var: Seq<char>) -> Option<StepOp> {
    match value {
        ExprV::Binary { op, left, right, .. } => {
            let is_var_l = (*left matches ExprV::Ident { name, .. } && name == var);
            let is_var_r = (*right matches ExprV::Ident { name, .. } && name == var);
            let const_r = match *right {
                ExprV::Literal { lit: LitV::Int(c, _), .. } => Some(c),
                _ => None,
            };
            let const_l = match *left {
                ExprV::Literal { lit: LitV::Int(c, _), .. } => Some(c),
                _ => None,
            };
            match op {
                BinaryOp::Div => if is_var_l && (const_r matches Some(c) && c >= 2) {
                    Some(StepOp::Div(const_r.unwrap()))
                } else {
                    None
                },
                BinaryOp::Shr => if is_var_l && (const_r matches Some(c) && c >= 1) {
                    Some(StepOp::Shr(const_r.unwrap()))
                } else {
                    None
                },
                BinaryOp::Sub => if is_var_l && (const_r matches Some(c) && c >= 1) {
                    Some(StepOp::Sub(const_r.unwrap()))
                } else {
                    None
                },
                BinaryOp::Add => if is_var_l {
                    if (const_r matches Some(c) && c >= 1) {
                        Some(StepOp::Add(const_r.unwrap()))
                    } else {
                        None
                    }
                } else if is_var_r {
                    if (const_l matches Some(c) && c >= 1) {
                        Some(StepOp::Add(const_l.unwrap()))
                    } else {
                        None
                    }
                } else {
                    None
                },
                _ => None,
            }
        },
        _ => None,
    }
}

/// The step of the first statement of `ss[i..]` that assigns `var` a step.
pub open spec fn find_step(ss: Seq<StmtV>, i: int, var: Seq<char>) -> Option<StepOp>
    decreases ss.len() - i,
{
    if i < 0 || i >= ss.len() {
        None
    } else {
        match ss[i] {
            StmtV::Assign { name, value, .. } => if name == var && step_of(value, var) is Some {
                step_of(value, var)
            } else {
                find_step(ss, i + 1, var)
            },
            _ => find_step(ss, i + 1, var),
        }
    }
}

fn int_lit_of(e: &TypedExpr) -> (r: Option<i64>)
    ensures
        r == match expr_view(*e) {
            ExprV::Literal { lit: LitV::Int(c, _), .. } => Some(c),
            _ => None,
        },
{
    match e {
        TypedExpr::Literal { lit: TypedLiteral::Int(c, _), .. } => Some(*c),
        _ => None,
    }
}

fn is_named(e: &TypedExpr, var: &String) -> (b: bool)
    ensures
        b == (expr_view(*e) matches ExprV::Ident { name, .. } && name == var@),
{
    match e {
        TypedExpr::Ident { name, .. } => *name == *var,
        _ => false,
    }
}

fn step_of_exec(value: &TypedExpr, var: &String) -> (r: Option<StepOp>)
    ensures
        r == step_of(expr_view(*value), var@),
{
    match value {
        TypedExpr::Binary { op, left, right, .. } => {
            let is_var_l = is_named(left, var);
            let is_var_r = is_named(right, var);
            let const_r = int_lit_of(right);
            let const_l = int_lit_of(left);
            match op {
                BinaryOp::Div => match const_r {
                    Some(c) => if is_var_l && c >= 2 {
                        Some(StepOp::Div(c))
                    } else {
                        None
                    },
                    None => None,
                },
                BinaryOp::Shr => match const_r {
                    Some(c) => if is_var_l && c >= 1 {
                        Some(StepOp::Shr(c))
                    } else {
                        None
                    },
                    None => None,
                },
                BinaryOp::Sub => match const_r {
                    Some(c) => if is_var_l && c >= 1 {
                        Some(StepOp::Sub(c))
                    } else {
                        None
                    },
                    None => None,
                },
                BinaryOp::Add => if is_var_l {
                    match const_r {
                        Some(c) => if c >= 1 {
                            Some(StepOp::Add(c))
                        } else {
                            None
                        },
                        None => None,
                    }
                } else if is_var_r {
                    match const_l {
                        Some(c) => if c >= 1 {
                            Some(StepOp::Add(c))
                        } else {
                            None
                        },
                        None => None,
                    }
                } else {
                    None
                },
                _ => None,
            }
        },
        _ => None,
    }
}

fn find_step_exec(ss: &Vec<TypedStmt>, var: &String) -> (r: Option<StepOp>)
    ensures
        r == find_step(stmts_view(ss@), 0, var@),
{
    proof {
        lemma_stmts_view_index(ss@);
    }
    let ghost sv = stmts_view(ss@);
    let mut i: usize = 0;
    while i < ss.len()
        invariant
            sv == stmts_view(ss@),
            sv.len() == ss@.len(),
            forall|j: int| 0 <= j < ss@.len() ==> #[trigger] sv[j] == stmt_view(ss@[j]),
            i <= ss@.len(),
            find_step(sv, 0, var@) == find_step(sv, i as int, var@),
        decreases ss@.len() - i,
    {
        assert(sv[i as int] == stmt_view(ss@[i as int]));
        match &ss[i] {
            TypedStmt::Assign { name, value, .. } => {
                if *name == *var {
                    let st = step_of_exec(value, var);
                    if st.is_some() {
                        return st;
                    }
                }
            },
            _ => {},
        }
        i += 1;
    }
    None
}

/// The loop variable of a comparison: its left operand, or else its right
/// one, where that is a variable.
pub open spec fn loop_var(cond: ExprV) -> Option<Seq<char>> {
    match cond {
        ExprV::Binary { left, right, .. } => match *left {
            ExprV::Ident { name, .. } => Some(name),
            _ => match *right {
                ExprV::Ident { name, .. } => Some(name),
                _ => None,
            },
        },
        _ => None,
    }
}

fn ident_name(e: &TypedExpr) -> (r: Option<String>)
    ensures
        match r {
            Some(n) => expr_view(*e) matches ExprV::Ident { name, .. } && name == n@,
            None => !(expr_view(*e) is Ident),
        },
{
    match e {
        TypedExpr::Ident { name, .. } => Some(name.clone()),
        _ => None,
    }
}

fn loop_var_exec(cond: &TypedExpr) -> (r: Option<String>)
    ensures
        match r {
            Some(n) => loop_var(expr_view(*cond)) == Some(n@),
            None => loop_var(expr_view(*cond)) is None,
        },
{
    match cond {
        TypedExpr::Binary { left, right, .. } => {
            let l = ident_name(left);
            if l.is_some() {
                return l;
            }
            ident_name(right)
        },
        _ => None,
    }
}

// ---------------------------------------------------------------------------
// One iteration of an unrolled loop
// ---------------------------------------------------------------------------

/// The views of two sequences of statements, one after the other.
pub proof fn lemma_stmts_view_concat(a: Seq<TypedStmt>, b: Seq<TypedStmt>)
    ensures
        stmts_view(a + b) == stmts_view(a) + stmts_view(b),
    decreases b.len(),
{
    if b.len() == 0 {
        assert(a + b =~= a);
        assert(stmts_view(a) + stmts_view(b) =~= stmts_view(a));
    } else {
        lemma_stmts_view_concat(a, b.drop_last());
        assert((a + b).drop_last() =~= a + b.drop_last());
        assert((a + b).last() == b.last());
        assert(stmts_view(a) + stmts_view(b) =~= (stmts_view(a) + stmts_view(b.drop_last())).push(
            stmt_view(b.last()),
        ));
    }
}

pub(crate) fn append_stmts(out: &mut Vec<TypedStmt>, piece: Vec<TypedStmt>)
    ensures
        stmts_view(final(out)@) == stmts_view(old(out)@) + stmts_view(piece@),
{
    let mut p = piece;
    let ghost a = out@;
    let ghost b = p@;
    out.append(&mut p);
    proof {
        lemma_stmts_view_concat(a, b);
    }
}

/// What is known after `name` gets the folded value `fv`: its constant
/// value, if any; its remainder key when `fv` is a remainder by a variable
/// or literal; the key and bound of `src` when `fv` is the variable `src`;
/// nothing more otherwise.
pub open spec fn bind_v(k: KnownV, name: Seq<char>, fv: ExprV) -> KnownV {
    let consts = k.consts.insert(name, eval_v(fv, k.consts));
    match fv {
        ExprV::Binary { op: BinaryOp::Mod, right, .. } => KnownV {
            consts,
            mods: k.mods.insert(name, key_of(*right)),
            bounds: k.bounds,
        },
        ExprV::Ident { name: src, .. } => KnownV {
            consts,
            mods: k.mods.insert(name, lookup(k.mods, src)),
            bounds: k.bounds.insert(name, lookup(k.bounds, src)),
        },
        _ => KnownV { consts, mods: k.mods.insert(name, None), bounds: k.bounds.insert(name, None) },
    }
}

fn bind(k: &mut Known, name: &String, fv: &TypedExpr)
    requires
        old(k).wf(),
    ensures
        final(k).wf(),
        final(k).view() == bind_v(old(k).view(), name@, expr_view(*fv)),
{
    let c = eval_const(fv, &k.consts);
    match fv {
        TypedExpr::Binary { op: BinaryOp::Mod, right, .. } => {
            let key = key_of_exec(right);
            k.consts.insert(name.clone(), c);
            k.mods.insert(name.clone(), key);
        },
        TypedExpr::Ident { name: src, .. } => {
            let mk = k.mods.get(src);
            let b = lookup_i(&k.bounds, src);
            k.consts.insert(name.clone(), c);
            k.mods.insert(name.clone(), mk);
            k.bounds.insert(name.clone(), b);
        },
        _ => {
            k.consts.insert(name.clone(), c);
            k.mods.insert(name.clone(), None);
            k.bounds.insert(name.clone(), None);
        },
    }
}

/// The statements `ss` specialized for the iteration in which `var` is
/// `val`: `var` is known to be `val` first, then the statements are taken
/// in turn as `specialize_from` says.
pub open spec fn specialize(
    ss: Seq<StmtV>,
    var: Seq<char>,
    val: i64,
    k: KnownV,
    last: bool,
    live: Set<Seq<char>>,
) -> (Seq<StmtV>, KnownV)
    decreases ss, ss.len() + 1,
{
    specialize_from(ss, 0, var, val, KnownV { consts: k.consts.insert(var, Some(val)), ..k }, last, live)
}

/// `ss[i..]` specialized, each statement with the names read after it in
/// this block, and those in `live`, counted as live.
pub open spec fn specialize_from(
    ss: Seq<StmtV>,
    i: int,
    var: Seq<char>,
    val: i64,
    k: KnownV,
    last: bool,
    live: Set<Seq<char>>,
) -> (Seq<StmtV>, KnownV)
    decreases ss, ss.len() - i,
{
    if i < 0 || i >= ss.len() {
        (Seq::empty(), k)
    } else {
        let live_here = live + stmts_reads(ss.subrange(i + 1, ss.len() as int));
        let (o, k1) = specialize_stmt(ss[i], var, val, k, last, live_here);
        let (r, k2) = specialize_from(ss, i + 1, var, val, k1, last, live);
        (o + r, k2)
    }
}

/// One statement specialized: an `if` whose condition is constant is
/// replaced by the branch taken; assignments of `var` are dropped, and in
/// the last iteration so are assignments of variables that are not live;
/// the values of the other statements are folded, and what is known
/// follows the assignments.
pub open spec fn specialize_stmt(
    s: StmtV,
    var: Seq<char>,
    val: i64,
    k: KnownV,
    last: bool,
    live_here: Set<Seq<char>>,
) -> (Seq<StmtV>, KnownV)
    decreases s, 0int,
{
    match s {
        StmtV::If { condition, then_branch, else_branch, span } => match eval_v(condition, k.consts) {
            Some(c) => if c != 0 {
                specialize(then_branch.stmts, var, val, k, last, live_here)
            } else {
                match else_branch {
                    Some(eb) => specialize(eb.stmts, var, val, k, last, live_here),
                    None => (Seq::empty(), k),
                }
            },
            None => {
                let fc = fold_v(condition, k);
                let (ft, k1) = specialize(then_branch.stmts, var, val, k, last, live_here);
                match else_branch {
                    Some(eb) => {
                        let (fe, k2) = specialize(eb.stmts, var, val, k1, last, live_here);
                        (
                            seq![
                                StmtV::If {
                                    condition: fc,
                                    then_branch: BlockV { stmts: ft, span: then_branch.span },
                                    else_branch: Some(BlockV { stmts: fe, span: eb.span }),
                                    span,
                                },
                            ],
                            k2,
                        )
                    },
                    None => (
                        seq![
                            StmtV::If {
                                condition: fc,
                                then_branch: BlockV { stmts: ft, span: then_branch.span },
                                else_branch: None,
                                span,
                            },
                        ],
                        k1,
                    ),
                }
            },
        },
        StmtV::Assign { name, value, span } => if name == var || (last && !live_here.contains(name)) {
            (Seq::empty(), k)
        } else {
            let fv = fold_v(value, k);
            (seq![StmtV::Assign { name, value: fv, span }], bind_v(k, name, fv))
        },
        StmtV::Let { name, is_mutable, ty, value, span } => {
            let fv = fold_v(value, k);
            (seq![StmtV::Let { name, is_mutable, ty, value: fv, span }], bind_v(k, name, fv))
        },
        StmtV::IndexAssign { target, index, value, is_safe, span } => (
            seq![
                StmtV::IndexAssign {
                    target,
                    index: fold_v(index, k),
                    value: fold_v(value, k),
                    is_safe,
                    span,
                },
            ],
            k,
        ),
        StmtV::Expr(e) => (seq![StmtV::Expr(fold_v(e, k))], k),
        _ => (seq![s], k),
    }
}

fn copy_names(v: &Vec<String>) -> (r: Vec<String>)
    ensures
        names_in(r@) == names_in(v@),
{
    let mut r: Vec<String> = Vec::new();
    let mut i: usize = 0;
    assert(names_in(r@) =~= names_in(v@.subrange(0, 0)));
    while i < v.len()
        invariant
            i <= v@.len(),
            names_in(r@) == names_in(v@.subrange(0, i as int)),
        decreases v@.len() - i,
    {
        push_name(&mut r, &v[i]);
        proof {
            assert(v@.subrange(0, i + 1) =~= v@.subrange(0, i as int).push(v@[i as int]));
            lemma_names_push(v@.subrange(0, i as int), v@[i as int]);
        }
        i += 1;
    }
    assert(v@.subrange(0, v@.len() as int) =~= v@);
    r
}

/// The statements specialized for the iteration in which `var` is `val`
/// (see `specialize`).
pub fn specialize_stmts(
    ss: &Vec<TypedStmt>,
    var: &String,
    val: i64,
    k: &mut Known,
    last: bool,
    live: &Vec<String>,
) -> (r: Vec<TypedStmt>)
    requires
        old(k).wf(),
    ensures
        final(k).wf(),
        (stmts_view(r@), final(k).view()) == specialize(
            stmts_view(ss@),
            var@,
            val,
            old(k).view(),
            last,
            names_in(live@),
        ),
    decreases ss@, 1int,
{
    k.consts.insert(var.clone(), Some(val));
    let ghost sv = stmts_view(ss@);
    let ghost lv = names_in(live@);
    let ghost k0 = k.view();
    proof {
        lemma_stmts_view_index(ss@);
    }
    let mut out: Vec<TypedStmt> = Vec::new();
    let mut i: usize = 0;
    while i < ss.len()
        invariant
            k.wf(),
            sv == stmts_view(ss@),
            sv.len() == ss@.len(),
            forall|j: int| 0 <= j < ss@.len() ==> #[trigger] sv[j] == stmt_view(ss@[j]),
            lv == names_in(live@),
            i <= ss@.len(),
            specialize_from(sv, 0, var@, val, k0, last, lv).0 == stmts_view(out@) + specialize_from(
                sv,
                i as int,
                var@,
                val,
                k.view(),
                last,
                lv,
            ).0,
            specialize_from(sv, 0, var@, val, k0, last, lv).1 == specialize_from(
                sv,
                i as int,
                var@,
                val,
                k.view(),
                last,
                lv,
            ).1,
        decreases ss@.len() - i,
    {
        proof {
            assert(decreases_to!(ss@ => ss@[i as int]));
        }
        let mut live_here = copy_names(live);
        collect_reads_stmts(ss, i + 1, &mut live_here);
        proof {
            lemma_stmts_view_subrange(ss@, i + 1, ss@.len() as int);
        }
        let ghost kb = k.view();
        let ghost out0 = stmts_view(out@);
        let piece = specialize_one(&ss[i], var, val, k, last, &live_here);
        append_stmts(&mut out, piece);
        proof {
            let rest = specialize_from(sv, i + 1, var@, val, k.view(), last, lv);
            assert(out0 + (stmts_view(piece@) + rest.0) =~= stmts_view(out@) + rest.0);
        }
        i += 1;
    }
    out
}

fn specialize_one(
    s: &TypedStmt,
    var: &String,
    val: i64,
    k: &mut Known,
    last: bool,
    live_here: &Vec<String>,
) -> (r: Vec<TypedStmt>)
    requires
        old(k).wf(),
    ensures
        final(k).wf(),
        (stmts_view(r@), final(k).view()) == specialize_stmt(
            stmt_view(*s),
            var@,
            val,
            old(k).view(),
            last,
            names_in(live_here@),
        ),
    decreases s, 0int,
{
    match s {
        TypedStmt::If { condition, then_branch, else_branch, span } => {
            match eval_const(condition, &k.consts) {
                Some(c) => {
                    if c != 0 {
                        specialize_stmts(&then_branch.stmts, var, val, k, last, live_here)
                    } else {
                        match else_branch {
                            Some(eb) => specialize_stmts(&eb.stmts, var, val, k, last, live_here),
                            None => {
                                let v: Vec<TypedStmt> = Vec::new();
                                assert(stmts_view(v@) =~= Seq::<StmtV>::empty());
                                v
                            },
                        }
                    }
                },
                None => {
                    let fc = fold_expr(condition, k);
                    let ft = specialize_stmts(&then_branch.stmts, var, val, k, last, live_here);
                    let fe = match else_branch {
                        Some(eb) => Some(
                            TypedBlock { stmts: specialize_stmts(&eb.stmts, var, val, k, last, live_here), span: eb.span },
                        ),
                        None => None,
                    };
                    let st = TypedStmt::If {
                        condition: fc,
                        then_branch: TypedBlock { stmts: ft, span: then_branch.span },
                        else_branch: fe,
                        span: *span,
                    };
                    one_stmt(st)
                },
            }
        },
        TypedStmt::Assign { name, value, span } => {
            if *name == *var || (last && !has_name(live_here, name)) {
                let v: Vec<TypedStmt> = Vec::new();
                assert(stmts_view(v@) =~= Seq::<StmtV>::empty());
                return v;
            }
            let fv = fold_expr(value, k);
            bind(k, name, &fv);
            one_stmt(TypedStmt::Assign { name: name.clone(), value: fv, span: *span })
        },
        TypedStmt::Let { name, is_mutable, ty, value, span } => {
            let fv = fold_expr(value, k);
            bind(k, name, &fv);
            one_stmt(
                TypedStmt::Let { name: name.clone(), is_mutable: *is_mutable, ty: ty.duplicate(), value: fv, span: *span },
            )
        },
        TypedStmt::IndexAssign { target, index, value, is_safe, span } => {
            let fi = fold_expr(index, k);
            let fv = fold_expr(value, k);
            one_stmt(
                TypedStmt::IndexAssign { target: target.clone(), index: fi, value: fv, is_safe: *is_safe, span: *span },
            )
        },
        TypedStmt::Expr(e) => one_stmt(TypedStmt::Expr(fold_expr(e, k))),
        _ => one_stmt(copy_stmt(s)),
    }
}

pub(crate) fn one_stmt(s: TypedStmt) -> (v: Vec<TypedStmt>)
    ensures
        stmts_view(v@) == seq![stmt_view(s)],
{
    let mut v: Vec<TypedStmt> = Vec::new();
    v.push(s);
    assert(v@.drop_last() =~= Seq::<TypedStmt>::empty());
    assert(stmts_view(v@.drop_last()) == Seq::<StmtV>::empty());
    assert(stmts_view(v@) =~= seq![stmt_view(s)]);
    v
}

// ---------------------------------------------------------------------------
// Unrolling a loop
// ---------------------------------------------------------------------------

/// The most iterations a loop may have to be unrolled.
pub const MAX_UNROLL: usize = 16;

/// The number of iterations of the loop on `var` with condition `cond`,
/// counted from the iteration `t` in which `var` is `cur`: the first
/// iteration in which the condition is 0, provided it comes within 16
/// iterations, each step is defined and changes `var`, and the condition is
/// constant all along (only `var` changing in `consts`).
pub open spec fn trip_count(
    cond: ExprV,
    var: Seq<char>,
    cur: i64,
    step: StepOp,
    consts: Map<Seq<char>, Option<i64>>,
    t: nat,
) -> Option<nat>
    decreases 17 - t,
{
    if t > 16 {
        None
    } else {
        match eval_v(cond, consts.insert(var, Some(cur))) {
            None => None,
            Some(c) => if c == 0 {
                Some(t)
            } else if t >= 16 || !step_defined(cur as int, step) {
                None
            } else {
                let nx = step_value(cur as int, step) as i64;
                if nx == cur {
                    None
                } else {
                    trip_count(cond, var, nx, step, consts, t + 1)
                }
            },
        }
    }
}

/// The iterations `t..n` of the body `ss`, `var` being `cur` in the first
/// of them, each specialized with what the previous ones left known; and
/// the value of `var` after them.
pub open spec fn unroll_iters(
    ss: Seq<StmtV>,
    var: Seq<char>,
    cur: i64,
    step: StepOp,
    k: KnownV,
    t: nat,
    n: nat,
    live: Set<Seq<char>>,
) -> (Seq<StmtV>, i64)
    decreases n - t,
{
    if t >= n {
        (Seq::empty(), cur)
    } else {
        let (o, k1) = specialize(ss, var, cur, k, t + 1 == n, live);
        let nx = step_value(cur as int, step) as i64;
        let (r, fin) = unroll_iters(ss, var, nx, step, k1, t + 1, n, live);
        (o + r, fin)
    }
}

/// The `i64` literal `v`.
pub open spec fn int_lit_v(v: i64, sp: Span) -> ExprV {
    ExprV::Literal { lit: LitV::Int(v, Type::I64), ty: Type::I64, span: sp }
}

/// The straight-line code of `while cond { body }`, `live` being read after
/// the loop: a loop without `break`, `return` or inner loop, whose variable
/// (`loop_var`) has a known value, is assigned once, in steps (`find_step`),
/// and runs `trip_count` times, becomes its iterations, followed by the
/// final assignment of the variable where that is read later; `None` for any
/// other loop.
pub open spec fn unrolled(cond: ExprV, body: BlockV, k: KnownV, live: Set<Seq<char>>, span: Span) -> Option<
    Seq<StmtV>,
> {
    let ss = body.stmts;
    if stmts_exit(ss) || stmts_loop(ss) {
        None
    } else {
        match loop_var(cond) {
            None => None,
            Some(var) => match lookup(k.consts, var) {
                None => None,
                Some(init) => if stmts_assigns(ss, var) != 1 {
                    None
                } else {
                    match find_step(ss, 0, var) {
                        None => None,
                        Some(step) => match trip_count(cond, var, init, step, k.consts, 0) {
                            None => None,
                            Some(n) => {
                                let (u, fin) = unroll_iters(ss, var, init, step, k, 0, n, live);
                                Some(
                                    if live.contains(var) {
                                        u.push(StmtV::Assign { name: var, value: int_lit_v(fin, span), span })
                                    } else {
                                        u
                                    },
                                )
                            },
                        },
                    }
                },
            },
        }
    }
}

/// The counter's value after `t` steps from `cur`.
pub open spec fn counter_at(cur: i64, step: StepOp, t: nat) -> i64
    decreases t,
{
    if t == 0 {
        cur
    } else {
        counter_at(step_value(cur as int, step) as i64, step, (t - 1) as nat)
    }
}

proof fn lemma_trip_count_exact(
    cond: ExprV,
    var: Seq<char>,
    cur: i64,
    step: StepOp,
    consts: Map<Seq<char>, Option<i64>>,
    t: nat,
    n: nat,
)
    requires
        trip_count(cond, var, cur, step, consts, t) == Some(n),
    ensures
        t <= n <= 16,
        forall|j: nat|
            j < n - t ==> step_defined(#[trigger] counter_at(cur, step, j) as int, step) && (eval_v(
                cond,
                consts.insert(var, Some(counter_at(cur, step, j))),
            ) matches Some(c) && c != 0),
        eval_v(cond, consts.insert(var, Some(counter_at(cur, step, (n - t) as nat)))) == Some(0i64),
    decreases 17 - t,
{
    let c = eval_v(cond, consts.insert(var, Some(cur))).unwrap();
    if c == 0 {
        assert(counter_at(cur, step, 0) == cur);
    } else {
        let nx = step_value(cur as int, step) as i64;
        lemma_trip_count_exact(cond, var, nx, step, consts, t + 1, n);
        assert forall|j: nat| j < n - t implies step_defined(#[trigger] counter_at(cur, step, j) as int, step) && (
        eval_v(cond, consts.insert(var, Some(counter_at(cur, step, j)))) matches Some(c) && c != 0) by {
            if j == 0 {
            } else {
                assert(counter_at(cur, step, j) == counter_at(nx, step, (j - 1) as nat));
            }
        }
        assert(counter_at(cur, step, (n - t) as nat) == counter_at(nx, step, (n - (t + 1)) as nat));
    }
}

proof fn lemma_unroll_iters_final(
    ss: Seq<StmtV>,
    var: Seq<char>,
    cur: i64,
    step: StepOp,
    k: KnownV,
    t: nat,
    n: nat,
    live: Set<Seq<char>>,
)
    requires
        t <= n,
    ensures
        unroll_iters(ss, var, cur, step, k, t, n, live).1 == counter_at(cur, step, (n - t) as nat),
    decreases n - t,
{
    if t < n {
        let k1 = specialize(ss, var, cur, k, t + 1 == n, live).1;
        let nx = step_value(cur as int, step) as i64;
        lemma_unroll_iters_final(ss, var, nx, step, k1, t + 1, n, live);
        assert(counter_at(cur, step, (n - t) as nat) == counter_at(nx, step, (n - (t + 1)) as nat));
    }
}

/// An unrolled loop stands for exactly `n` iterations, `n` at most 16: with
/// the values known before the loop, the condition holds for the first `n`
/// values of the counter, each step from them is defined, and it fails for
/// the value after `n` steps; where the counter is read after the loop, the
/// unrolled code ends by assigning it that value.
pub proof fn lemma_unrolled_iterations(cond: ExprV, body: BlockV, k: KnownV, live: Set<Seq<char>>, span: Span)
    requires
        unrolled(cond, body, k, live, span) is Some,
    ensures
        ({
            let var = loop_var(cond).unwrap();
            let init = lookup(k.consts, var).unwrap();
            let step = find_step(body.stmts, 0, var).unwrap();
            let n = trip_count(cond, var, init, step, k.consts, 0).unwrap();
            let u = unrolled(cond, body, k, live, span).unwrap();
            &&& n <= 16
            &&& forall|j: nat|
                j < n ==> step_defined(#[trigger] counter_at(init, step, j) as int, step) && (eval_v(
                    cond,
                    k.consts.insert(var, Some(counter_at(init, step, j))),
                ) matches Some(c) && c != 0)
            &&& eval_v(cond, k.consts.insert(var, Some(counter_at(init, step, n)))) == Some(0i64)
            &&& live.contains(var) ==> u.last() == StmtV::Assign {
                name: var,
                value: int_lit_v(counter_at(init, step, n), span),
                span,
            }
        }),
{
    let var = loop_var(cond).unwrap();
    let init = lookup(k.consts, var).unwrap();
    let step = find_step(body.stmts, 0, var).unwrap();
    let n = trip_count(cond, var, init, step, k.consts, 0).unwrap();
    lemma_trip_count_exact(cond, var, init, step, k.consts, 0, n);
    lemma_unroll_iters_final(body.stmts, var, init, step, k, 0, n, live);
}

fn step_defined_exec(val: i64, op: StepOp) -> (b: bool)
    ensures
        b == step_defined(val as int, op),
{
    match op {
        StepOp::Div(c) => c != 0 && !(val == i64::MIN && c == -1),
        StepOp::Shr(c) => 0 <= c && c < 64,
        StepOp::Sub(c) => val.checked_sub(c).is_some(),
        StepOp::Add(c) => val.checked_add(c).is_some(),
    }
}

/// The number of iterations of the loop (see `trip_count`).
fn count_trips(
    cond: &TypedExpr,
    var: &String,
    init: i64,
    step: StepOp,
    consts: &NameTable<Option<i64>>,
) -> (r: Option<usize>)
    requires
        consts.wf(),
    ensures
        match r {
            Some(n) => n <= 16 && trip_count(expr_view(*cond), var@, init, step, consts.view(), 0) == Some(n as nat),
            None => trip_count(expr_view(*cond), var@, init, step, consts.view(), 0) is None,
        },
{
    let ghost cv = expr_view(*cond);
    let ghost c0 = consts.view();
    let mut cur = init;
    let mut t: usize = 0;
    loop
        invariant
            consts.wf(),
            c0 == consts.view(),
            cv == expr_view(*cond),
            t <= 16,
            trip_count(cv, var@, init, step, c0, 0) == trip_count(cv, var@, cur, step, c0, t as nat),
        ensures
            t <= 16,
            trip_count(cv, var@, init, step, c0, 0) == Some(t as nat),
        decreases 16 - t,
    {
        let mut env = consts.duplicate();
        let vc = var.clone();
        assert(vc@ == var@);
        env.insert(vc, Some(cur));
        assert(env.view() == c0.insert(var@, Some(cur)));
        let c = eval_const(cond, &env);
        assert(c == eval_v(cv, c0.insert(var@, Some(cur))));
        if c.is_none() {
            return None;
        }
        if c == Some(0i64) {
            break;
        }
        if t >= MAX_UNROLL || !step_defined_exec(cur, step) {
            return None;
        }
        let nx = apply_step(cur, step);
        if nx == cur {
            return None;
        }
        cur = nx;
        t += 1;
    }
    Some(t)
}

/// The straight-line code of the loop (see `unrolled`).
pub fn try_unroll_while(cond: &TypedExpr, body: &TypedBlock, k: &Known, live: &Vec<String>, span: Span) -> (r: Option<
    Vec<TypedStmt>,
>)
    requires
        k.wf(),
    ensures
        match r {
            Some(v) => unrolled(expr_view(*cond), BlockV { stmts: stmts_view(body.stmts@), span: body.span }, k.view(), names_in(live@), span)
                == Some(stmts_view(v@)),
            None => unrolled(expr_view(*cond), BlockV { stmts: stmts_view(body.stmts@), span: body.span }, k.view(), names_in(live@), span) is None,
        },
{
    let ghost ss = stmts_view(body.stmts@);
    let ghost cv = expr_view(*cond);
    let ghost lv = names_in(live@);
    let ghost c0 = k.view().consts;
    let (ex, lp, _) = scan_block(body, &String::new());
    if ex || lp {
        return None;
    }
    let var = match loop_var_exec(cond) {
        Some(v) => v,
        None => {
            return None;
        },
    };
    let init = match lookup_i(&k.consts, &var) {
        Some(v) => v,
        None => {
            return None;
        },
    };
    let (_, _, n_assign) = scan_block(body, &var);
    if n_assign != 1 {
        return None;
    }
    let step = match find_step_exec(&body.stmts, &var) {
        Some(s) => s,
        None => {
            return None;
        },
    };
    let n = match count_trips(cond, &var, init, step, &k.consts) {
        Some(n) => n,
        None => {
            return None;
        },
    };
    let mut cur: i64;
    let mut known = k.duplicate();
    let mut out: Vec<TypedStmt> = Vec::new();
    let ghost k0 = k.view();
    cur = init;
    let mut it: usize = 0;
    assert(trip_count(cv, var@, init, step, c0, 0) == Some(n as nat));
    while it < n
        invariant
            known.wf(),
            it <= n <= 16,
            c0 == k0.consts,
            ss == stmts_view(body.stmts@),
            lv == names_in(live@),
            trip_count(cv, var@, cur, step, c0, it as nat) == Some(n as nat),
            unroll_iters(ss, var@, init, step, k0, 0, n as nat, lv).0 == stmts_view(out@) + unroll_iters(
                ss,
                var@,
                cur,
                step,
                known.view(),
                it as nat,
                n as nat,
                lv,
            ).0,
            unroll_iters(ss, var@, init, step, k0, 0, n as nat, lv).1 == unroll_iters(
                ss,
                var@,
                cur,
                step,
                known.view(),
                it as nat,
                n as nat,
                lv,
            ).1,
        decreases n - it,
    {
        let ghost out0 = stmts_view(out@);
        let piece = specialize_stmts(&body.stmts, &var, cur, &mut known, it + 1 == n, live);
        append_stmts(&mut out, piece);
        let nx = apply_step(cur, step);
        proof {
            let rest = unroll_iters(ss, var@, nx, step, known.view(), (it + 1) as nat, n as nat, lv);
            assert(out0 + (stmts_view(piece@) + rest.0) =~= stmts_view(out@) + rest.0);
        }
        cur = nx;
        it += 1;
    }
    assert(unroll_iters(ss, var@, init, step, k0, 0, n as nat, lv) == (stmts_view(out@), cur));
    if has_name(live, &var) {
        let lit = TypedExpr::Literal { lit: TypedLiteral::Int(cur, Type::I64), ty: Type::I64, span };
        assert(expr_view(lit) == int_lit_v(cur, span));
        let st = TypedStmt::Assign { name: var, value: lit, span };
        assert(stmt_view(st) == StmtV::Assign { name: var@, value: int_lit_v(cur, span), span });
        let ghost out0 = out@;
        out.push(st);
        proof {
            assert(out@.drop_last() =~= out0);
            assert(stmts_view(out@) == stmts_view(out0).push(stmt_view(st)));
        }
    }
    Some(out)
}

// ---------------------------------------------------------------------------
// The pass over a block
// ---------------------------------------------------------------------------

/// What is known after the unrolled statements `u`: each top-level
/// assignment records its constant value, if any.
pub open spec fn absorb(u: Seq<StmtV>, k: KnownV) -> KnownV
    decreases u.len(),
{
    if u.len() == 0 {
        k
    } else {
        let k1 = absorb(u.drop_last(), k);
        match u.last() {
            StmtV::Assign { name, value, .. } => KnownV {
                consts: k1.consts.insert(name, eval_v(value, k1.consts)),
                ..k1
            },
            _ => k1,
        }
    }
}

/// What the body of a loop `var <= limit` (or `var < limit`) may assume of
/// `var`: at most the limit (less one), where the limit is constant.
pub open spec fn with_bound(inner: KnownV, cond: ExprV, consts: Map<Seq<char>, Option<i64>>) -> KnownV {
    match cond {
        ExprV::Binary { op, left, right, .. } => match *left {
            ExprV::Ident { name, .. } => match eval_v(*right, consts) {
                Some(l) => if op == BinaryOp::Le {
                    KnownV { bounds: inner.bounds.insert(name, Some(l)), ..inner }
                } else if op == BinaryOp::Lt && l != i64::MIN {
                    KnownV { bounds: inner.bounds.insert(name, Some((l - 1) as i64)), ..inner }
                } else {
                    inner
                },
                None => inner,
            },
            _ => inner,
        },
        _ => inner,
    }
}

/// The statements `ss` after the pass, with what is known after them and
/// whether a loop was unrolled (see `optimize_from`).
pub open spec fn optimize_v(ss: Seq<StmtV>, k: KnownV) -> (Seq<StmtV>, KnownV, bool)
    decreases ss, ss.len() + 1,
{
    optimize_from(ss, 0, k)
}

/// `ss[i..]` after the pass, each statement taken with the names read
/// after it in this block as the names live after it.
pub open spec fn optimize_from(ss: Seq<StmtV>, i: int, k: KnownV) -> (Seq<StmtV>, KnownV, bool)
    decreases ss, ss.len() - i,
{
    if i < 0 || i >= ss.len() {
        (Seq::empty(), k, false)
    } else {
        let (o, k1, c1) = optimize_stmt(ss[i], stmts_reads(ss.subrange(i + 1, ss.len() as int)), k);
        let (r, k2, c2) = optimize_from(ss, i + 1, k1);
        (o + r, k2, c1 || c2)
    }
}

/// One statement after the pass: values folded and bound; a loop unrolled
/// where `unrolled` allows (then nothing is known of what it assigned but
/// the constants its unrolled assignments leave), else its body passed over
/// with nothing known of the variables it assigns; the branches of an `if`
/// passed over the same way.
pub open spec fn optimize_stmt(s: StmtV, live: Set<Seq<char>>, k: KnownV) -> (Seq<StmtV>, KnownV, bool)
    decreases s, 0int,
{
    match s {
        StmtV::Let { name, is_mutable, ty, value, span } => {
            let fv = fold_v(value, k);
            (seq![StmtV::Let { name, is_mutable, ty, value: fv, span }], bind_v(k, name, fv), false)
        },
        StmtV::Assign { name, value, span } => {
            let fv = fold_v(value, k);
            (seq![StmtV::Assign { name, value: fv, span }], bind_v(k, name, fv), false)
        },
        StmtV::Expr(e) => (seq![StmtV::Expr(fold_v(e, k))], k, false),
        StmtV::Return(e, span) => (
            seq![
                StmtV::Return(
                    match e {
                        Some(x) => Some(fold_v(x, k)),
                        None => None,
                    },
                    span,
                ),
            ],
            k,
            false,
        ),
        StmtV::While { condition, body, span } => {
            let m = stmts_mutated(body.stmts);
            match unrolled(condition, body, k, live, span) {
                Some(u) => (u, absorb(u, forget_all(k, m)), true),
                None => {
                    let inner = with_bound(forget_values(k, m), condition, k.consts);
                    let (nb, _, ch) = optimize_v(body.stmts, inner);
                    (
                        seq![StmtV::While { condition, body: BlockV { stmts: nb, span: body.span }, span }],
                        forget_all(k, m),
                        ch,
                    )
                },
            }
        },
        StmtV::If { condition, then_branch, else_branch, span } => {
            let m = stmts_mutated(then_branch.stmts) + match else_branch {
                Some(b) => stmts_mutated(b.stmts),
                None => Set::empty(),
            };
            let env = forget_values(k, m);
            let (nt, _, c1) = optimize_v(then_branch.stmts, env);
            match else_branch {
                Some(eb) => {
                    let (ne, _, c2) = optimize_v(eb.stmts, env);
                    (
                        seq![
                            StmtV::If {
                                condition,
                                then_branch: BlockV { stmts: nt, span: then_branch.span },
                                else_branch: Some(BlockV { stmts: ne, span: eb.span }),
                                span,
                            },
                        ],
                        forget_all(k, m),
                        c1 || c2,
                    )
                },
                None => (
                    seq![
                        StmtV::If {
                            condition,
                            then_branch: BlockV { stmts: nt, span: then_branch.span },
                            else_branch: None,
                            span,
                        },
                    ],
                    forget_all(k, m),
                    c1,
                ),
            }
        },
        _ => (seq![s], k, false),
    }
}

fn absorb_exec(u: &Vec<TypedStmt>, k: &mut Known)
    requires
        old(k).wf(),
    ensures
        final(k).wf(),
        final(k).view() == absorb(stmts_view(u@), old(k).view()),
{
    let ghost k0 = k.view();
    proof {
        lemma_stmts_view_index(u@);
    }
    let mut i: usize = 0;
    assert(stmts_view(u@).subrange(0, 0) =~= Seq::<StmtV>::empty());
    while i < u.len()
        invariant
            k.wf(),
            i <= u@.len(),
            stmts_view(u@).len() == u@.len(),
            forall|j: int| 0 <= j < u@.len() ==> #[trigger] stmts_view(u@)[j] == stmt_view(u@[j]),
            k.view() == absorb(stmts_view(u@).subrange(0, i as int), k0),
        decreases u@.len() - i,
    {
        proof {
            let sv = stmts_view(u@);
            assert(sv.subrange(0, i + 1).drop_last() =~= sv.subrange(0, i as int));
            assert(sv.subrange(0, i + 1).last() == stmt_view(u@[i as int]));
        }
        match &u[i] {
            TypedStmt::Assign { name, value, .. } => {
                let c = eval_const(value, &k.consts);
                k.consts.insert(name.clone(), c);
            },
            _ => {},
        }
        i += 1;
    }
    assert(stmts_view(u@).subrange(0, u@.len() as int) =~= stmts_view(u@));
}

fn set_bound(inner: &mut Known, cond: &TypedExpr, k: &Known)
    requires
        old(inner).wf(),
        k.wf(),
    ensures
        final(inner).wf(),
        final(inner).view() == with_bound(old(inner).view(), expr_view(*cond), k.view().consts),
{
    match cond {
        TypedExpr::Binary { op, left, right, .. } => {
            match ident_name(left) {
                Some(name) => {
                    match eval_const(right, &k.consts) {
                        Some(l) => {
                            match op {
                                BinaryOp::Le => {
                                    inner.bounds.insert(name, Some(l));
                                },
                                BinaryOp::Lt => {
                                    if l != i64::MIN {
                                        inner.bounds.insert(name, Some(l - 1));
                                    }
                                },
                                _ => {},
                            }
                        },
                        None => {},
                    }
                },
                None => {},
            }
        },
        _ => {},
    }
}

/// The statements after the pass (see `optimize_v`).
fn optimize_stmts(ss: &Vec<TypedStmt>, k: &mut Known) -> (r: (Vec<TypedStmt>, bool))
    requires
        old(k).wf(),
    ensures
        final(k).wf(),
        (stmts_view(r.0@), final(k).view(), r.1) == optimize_v(stmts_view(ss@), old(k).view()),
    decreases ss@, 1int,
{
    let ghost sv = stmts_view(ss@);
    let ghost k0 = k.view();
    proof {
        lemma_stmts_view_index(ss@);
    }
    let mut out: Vec<TypedStmt> = Vec::new();
    let mut changed = false;
    let mut i: usize = 0;
    while i < ss.len()
        invariant
            k.wf(),
            sv == stmts_view(ss@),
            sv.len() == ss@.len(),
            forall|j: int| 0 <= j < ss@.len() ==> #[trigger] sv[j] == stmt_view(ss@[j]),
            i <= ss@.len(),
            optimize_from(sv, 0, k0).0 == stmts_view(out@) + optimize_from(sv, i as int, k.view()).0,
            optimize_from(sv, 0, k0).1 == optimize_from(sv, i as int, k.view()).1,
            optimize_from(sv, 0, k0).2 == (changed || optimize_from(sv, i as int, k.view()).2),
        decreases ss@.len() - i,
    {
        proof {
            assert(decreases_to!(ss@ => ss@[i as int]));
        }
        let mut live: Vec<String> = Vec::new();
        assert(names_in(live@) =~= Set::<Seq<char>>::empty());
        collect_reads_stmts(ss, i + 1, &mut live);
        proof {
            lemma_stmts_view_subrange(ss@, i + 1, ss@.len() as int);
            assert(names_in(live@) =~= stmts_reads(sv.subrange(i + 1, sv.len() as int)));
        }
        let ghost out0 = stmts_view(out@);
        let (piece, c1) = optimize_one(&ss[i], &live, k);
        append_stmts(&mut out, piece);
        changed = changed || c1;
        proof {
            let rest = optimize_from(sv, i + 1, k.view());
            assert(out0 + (stmts_view(piece@) + rest.0) =~= stmts_view(out@) + rest.0);
        }
        i += 1;
    }
    (out, changed)
}

fn optimize_one(s: &TypedStmt, live: &Vec<String>, k: &mut Known) -> (r: (Vec<TypedStmt>, bool))
    requires
        old(k).wf(),
    ensures
        final(k).wf(),
        (stmts_view(r.0@), final(k).view(), r.1) == optimize_stmt(stmt_view(*s), names_in(live@), old(k).view()),
    decreases s, 0int,
{
    match s {
        TypedStmt::Let { name, is_mutable, ty, value, span } => {
            let fv = fold_expr(value, k);
            bind(k, name, &fv);
            (
                one_stmt(
                    TypedStmt::Let {
                        name: name.clone(),
                        is_mutable: *is_mutable,
                        ty: ty.duplicate(),
                        value: fv,
                        span: *span,
                    },
                ),
                false,
            )
        },
        TypedStmt::Assign { name, value, span } => {
            let fv = fold_expr(value, k);
            bind(k, name, &fv);
            (one_stmt(TypedStmt::Assign { name: name.clone(), value: fv, span: *span }), false)
        },
        TypedStmt::Expr(e) => (one_stmt(TypedStmt::Expr(fold_expr(e, k))), false),
        TypedStmt::Return(e, span) => {
            let fe = match e {
                Some(x) => Some(fold_expr(x, k)),
                None => None,
            };
            (one_stmt(TypedStmt::Return(fe, *span)), false)
        },
        TypedStmt::While { condition, body, span } => {
            let mut m: Vec<String> = Vec::new();
            assert(names_in(m@) =~= Set::<Seq<char>>::empty());
            collect_mutated(body, &mut m);
            assert(names_in(m@) =~= stmts_mutated(stmts_view(body.stmts@)));
            match try_unroll_while(condition, body, k, live, *span) {
                Some(u) => {
                    forget_names(k, &m, true);
                    absorb_exec(&u, k);
                    (u, true)
                },
                None => {
                    let mut inner = k.duplicate();
                    forget_names(&mut inner, &m, false);
                    set_bound(&mut inner, condition, k);
                    let (nb, ch) = optimize_stmts(&body.stmts, &mut inner);
                    forget_names(k, &m, true);
                    (
                        one_stmt(
                            TypedStmt::While {
                                condition: copy_expr_view(condition),
                                body: TypedBlock { stmts: nb, span: body.span },
                                span: *span,
                            },
                        ),
                        ch,
                    )
                },
            }
        },
        TypedStmt::If { condition, then_branch, else_branch, span } => {
            let mut m: Vec<String> = Vec::new();
            assert(names_in(m@) =~= Set::<Seq<char>>::empty());
            collect_mutated(then_branch, &mut m);
            match else_branch {
                Some(eb) => collect_mutated(eb, &mut m),
                None => {},
            }
            assert(names_in(m@) =~= stmts_mutated(stmts_view(then_branch.stmts@)) + match else_branch {
                Some(b) => stmts_mutated(stmts_view(b.stmts@)),
                None => Set::empty(),
            });
            let mut env = k.duplicate();
            forget_names(&mut env, &m, false);
            let mut e1 = env.duplicate();
            let (nt, c1) = optimize_stmts(&then_branch.stmts, &mut e1);
            let (ne, c2) = match else_branch {
                Some(eb) => {
                    let mut e2 = env.duplicate();
                    let (x, c) = optimize_stmts(&eb.stmts, &mut e2);
                    (Some(TypedBlock { stmts: x, span: eb.span }), c)
                },
                None => (None, false),
            };
            forget_names(k, &m, true);
            (
                one_stmt(
                    TypedStmt::If {
                        condition: copy_expr_view(condition),
                        then_branch: TypedBlock { stmts: nt, span: then_branch.span },
                        else_branch: ne,
                        span: *span,
                    },
                ),
                c1 || c2,
            )
        },
        _ => (one_stmt(copy_stmt(s)), false),
    }
}

/// Passes over the block once (see `optimize_v`), telling whether a loop
/// was unrolled.
pub fn optimize_block(block: &mut TypedBlock, k: &mut Known) -> (changed: bool)
    requires
        old(k).wf(),
    ensures
        final(k).wf(),
        final(block).span == old(block).span,
        (stmts_view(final(block).stmts@), final(k).view(), changed) == optimize_v(
            stmts_view(old(block).stmts@),
            old(k).view(),
        ),
{
    let (out, changed) = optimize_stmts(&block.stmts, k);
    block.stmts = out;
    changed
}


// ---------------------------------------------------------------------------
// The pass over a program
// ---------------------------------------------------------------------------

/// Nothing known: the state at the start of each function.
pub open spec fn nothing_known() -> KnownV {
    KnownV { consts: Map::empty(), mods: Map::empty(), bounds: Map::empty() }
}

/// The function after one pass over its body, starting from nothing known.
pub open spec fn unroll_function(f: FunctionV) -> FunctionV {
    FunctionV { body: BlockV { stmts: optimize_v(f.body.stmts, nothing_known()).0, span: f.body.span }, ..f }
}

/// Whether one pass over the function's body unrolls a loop.
pub open spec fn function_unrolls(f: FunctionV) -> bool {
    optimize_v(f.body.stmts, nothing_known()).2
}

/// One round: every function passed over once.
pub open spec fn unroll_round(fs: Seq<FunctionV>) -> Seq<FunctionV> {
    fs.map_values(|f: FunctionV| unroll_function(f))
}

/// Whether a round unrolls a loop in some function.
pub open spec fn round_unrolls(fs: Seq<FunctionV>) -> bool {
    exists|i: int| 0 <= i < fs.len() && #[trigger] function_unrolls(fs[i])
}

/// At most `n` rounds, stopping after the first round that unrolls nothing.
pub open spec fn unroll_rounds(fs: Seq<FunctionV>, n: nat) -> Seq<FunctionV>
    decreases n,
{
    if n == 0 {
        fs
    } else if round_unrolls(fs) {
        unroll_rounds(unroll_round(fs), (n - 1) as nat)
    } else {
        unroll_round(fs)
    }
}

/// The functions after the pass: at most four rounds, so that unrolling an
/// outer loop can expose an inner loop whose counter became constant.
pub open spec fn unroll_program(fs: Seq<FunctionV>) -> Seq<FunctionV> {
    unroll_rounds(fs, 4)
}

/// One round over the program, telling whether a loop was unrolled.
fn run_round(program: &mut TypedProgram) -> (changed: bool)
    ensures
        functions_view(final(program).functions@) == unroll_round(functions_view(old(program).functions@)),
        changed == round_unrolls(functions_view(old(program).functions@)),
{
    let ghost fv0 = functions_view(program.functions@);
    let mut rest: Vec<TypedFunction> = Vec::new();
    core::mem::swap(&mut rest, &mut program.functions);
    let mut out: Vec<TypedFunction> = Vec::new();
    let mut changed = false;
    while rest.len() > 0
        invariant
            out@.len() + rest@.len() == fv0.len(),
            forall|j: int| 0 <= j < rest@.len() ==> #[trigger] functions_view(rest@)[j] == fv0[out@.len() + j],
            functions_view(rest@).len() == rest@.len(),
            forall|j: int| 0 <= j < out@.len() ==> #[trigger] functions_view(out@)[j] == unroll_function(fv0[j]),
            functions_view(out@).len() == out@.len(),
            changed == exists|j: int| 0 <= j < out@.len() && #[trigger] function_unrolls(fv0[j]),
        decreases rest@.len(),
    {
        let ghost n0 = out@.len();
        let ghost r0 = rest@;
        let ghost o0 = out@;
        let mut f = rest.remove(0);
        assert(functions_view(r0)[0] == fv0[n0 as int]);
        let mut k = Known::new();
        let c = optimize_block(&mut f.body, &mut k);
        proof {
            assert(functions_view(seq![f])[0] == unroll_function(fv0[n0 as int]));
        }
        out.push(f);
        proof {
            assert forall|j: int| 0 <= j < rest@.len() implies #[trigger] functions_view(rest@)[j] == fv0[
                out@.len() + j] by {
                assert(rest@[j] == r0[j + 1]);
                assert(functions_view(r0)[j + 1] == fv0[n0 + j + 1]);
            }
            assert forall|j: int| 0 <= j < out@.len() implies #[trigger] functions_view(out@)[j] == unroll_function(
                fv0[j]) by {
                if j < n0 {
                    assert(out@[j] == o0[j]);
                    assert(functions_view(o0)[j] == unroll_function(fv0[j]));
                } else {
                    assert(out@[j] == f);
                }
            }
            if c {
                assert(function_unrolls(fv0[n0 as int]));
            }
            if !(changed || c) {
                assert forall|j: int| 0 <= j < out@.len() implies !#[trigger] function_unrolls(fv0[j]) by {
                    if j < n0 {
                    } else {
                        assert(j == n0);
                    }
                }
            }
        }
        changed = changed || c;
    }
    proof {
        assert(functions_view(out@) =~= unroll_round(fv0));
    }
    program.functions = out;
    changed
}

/// Unrolls the bounded loops of every function (see `unroll_program`).
pub fn optimize_program(program: &mut TypedProgram)
    ensures
        functions_view(final(program).functions@) == unroll_program(functions_view(old(program).functions@)),
{
    let ghost fv0 = functions_view(program.functions@);
    let mut round: usize = 0;
    let mut done = false;
    while round < 4 && !done
        invariant
            round <= 4,
            done ==> functions_view(program.functions@) == unroll_program(fv0),
            !done ==> unroll_program(fv0) == unroll_rounds(functions_view(program.functions@), (4 - round) as nat),
        decreases 4 - round,
    {
        let changed = run_round(program);
        if !changed {
            done = true;
        }
        round += 1;
    }
}

} // verus!
