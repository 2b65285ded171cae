//! Lowering of the typed program to the block-structured IR.

use vstd::prelude::*;
use crate::ast::{BinaryOp, UnaryOp};
use crate::ir::{
    BasicBlock, BlockId, Instruction, IrFunction, IrOp, IrParam, IrProgram, Operand, ValueId,
    blocks_wf, function_wf, inst_at, inst_dest, targets_below, valid_pos,
};
use crate::opt::names::NameTable;
use crate::opt::range::trunc_div;
use crate::typecheck::types::Type;
use crate::typecheck::typed_ast::{
    TypedExpr, TypedFunction, TypedLiteral, TypedParam, TypedProgram, TypedStmt,
};

verus! {

// ---------------------------------------------------------------------------
// Sizes: a bound on the values and blocks that lowering creates
// ---------------------------------------------------------------------------

pub open spec fn expr_size(e: TypedExpr) -> nat
    decreases e, 1nat,
{
    match e {
        TypedExpr::Unary { expr, .. } => 1 + expr_size(*expr),
        TypedExpr::Binary { left, right, .. } => 1 + expr_size(*left) + expr_size(*right),
        TypedExpr::Call { args, .. } => 1 + exprs_size(args@),
        TypedExpr::ArrayLiteral { elements, .. } => 1 + exprs_size(elements@),
        TypedExpr::Index { target, index, .. } => 1 + expr_size(*target) + expr_size(*index),
        _ => 1,
    }
}

pub open spec fn exprs_size(es: Seq<TypedExpr>) -> nat
    decreases es, 0nat,
{
    if es.len() == 0 {
        0
    } else {
        exprs_size(es.subrange(0, es.len() - 1)) + expr_size(es[es.len() - 1])
    }
}

pub open spec fn stmt_size(s: TypedStmt) -> nat
    decreases s,
{
    match s {
        TypedStmt::Let { value, .. } => 1 + expr_size(value),
        TypedStmt::Assign { value, .. } => 1 + expr_size(value),
        TypedStmt::IndexAssign { index, value, .. } => 1 + expr_size(index) + expr_size(value),
        TypedStmt::Return(Some(e), _) => 1 + expr_size(e),
        TypedStmt::Expr(e) => 1 + expr_size(e),
        TypedStmt::If { condition, then_branch, else_branch, .. } => 3 + expr_size(condition)
            + stmts_size(then_branch.stmts@) + match else_branch {
            Some(eb) => stmts_size(eb.stmts@),
            None => 0,
        },
        TypedStmt::While { condition, body, .. } => 3 + expr_size(condition) + stmts_size(
            body.stmts@,
        ),
        _ => 1,
    }
}

pub open spec fn stmts_size(ss: Seq<TypedStmt>) -> nat
    decreases ss,
{
    if ss.len() == 0 {
        0
    } else {
        stmts_size(ss.subrange(0, ss.len() - 1)) + stmt_size(ss[ss.len() - 1])
    }
}

/// A bound on the values and blocks that lowering `f` creates.
pub open spec fn function_size(f: TypedFunction) -> nat {
    1 + f.params@.len() + stmts_size(f.body.stmts@)
}

// ---------------------------------------------------------------------------
// Names: every variable read is bound where it is read
// ---------------------------------------------------------------------------

pub open spec fn bound(scopes: Seq<Set<Seq<char>>>, name: Seq<char>) -> bool {
    exists|i: int| 0 <= i < scopes.len() && #[trigger] scopes[i].contains(name)
}

pub open spec fn bind_last(scopes: Seq<Set<Seq<char>>>, name: Seq<char>) -> Seq<Set<Seq<char>>> {
    scopes.update(scopes.len() - 1, scopes.last().insert(name))
}

pub open spec fn names_ok_expr(e: TypedExpr, scopes: Seq<Set<Seq<char>>>) -> bool
    decreases e, 1nat,
{
    match e {
        TypedExpr::Ident { name, .. } => bound(scopes, name@),
        TypedExpr::Unary { expr, .. } => names_ok_expr(*expr, scopes),
        TypedExpr::Binary { left, right, .. } => names_ok_expr(*left, scopes) && names_ok_expr(
            *right,
            scopes,
        ),
        TypedExpr::Call { args, .. } => names_ok_all(args@, scopes),
        TypedExpr::ArrayLiteral { elements, .. } => names_ok_all(elements@, scopes),
        TypedExpr::Index { target, index, .. } => names_ok_expr(*target, scopes) && names_ok_expr(
            *index,
            scopes,
        ),
        _ => true,
    }
}

pub open spec fn names_ok_all(es: Seq<TypedExpr>, scopes: Seq<Set<Seq<char>>>) -> bool
    decreases es, 0nat,
{
    forall|i: int| 0 <= i < es.len() ==> names_ok_expr(#[trigger] es[i], scopes)
}

/// The names bound after `s`: a `let` binds in the innermost scope, and an
/// assignment to a name bound nowhere binds it there too.
pub open spec fn names_after(s: TypedStmt, scopes: Seq<Set<Seq<char>>>) -> Seq<Set<Seq<char>>> {
    match s {
        TypedStmt::Let { name, .. } => bind_last(scopes, name@),
        TypedStmt::Assign { name, .. } => if bound(scopes, name@) {
            scopes
        } else {
            bind_last(scopes, name@)
        },
        _ => scopes,
    }
}

pub open spec fn names_after_all(ss: Seq<TypedStmt>, scopes: Seq<Set<Seq<char>>>) -> Seq<
    Set<Seq<char>>,
>
    decreases ss.len(),
{
    if ss.len() == 0 {
        scopes
    } else {
        names_after(ss.last(), names_after_all(ss.drop_last(), scopes))
    }
}

pub open spec fn names_ok_stmt(s: TypedStmt, scopes: Seq<Set<Seq<char>>>) -> bool
    decreases s,
{
    match s {
        TypedStmt::Let { value, .. } => names_ok_expr(value, scopes),
        TypedStmt::Assign { value, .. } => names_ok_expr(value, scopes),
        TypedStmt::IndexAssign { index, value, .. } => names_ok_expr(index, scopes)
            && names_ok_expr(value, scopes),
        TypedStmt::Return(Some(e), _) => names_ok_expr(e, scopes),
        TypedStmt::Expr(e) => names_ok_expr(e, scopes),
        TypedStmt::If { condition, then_branch, else_branch, .. } => {
            &&& names_ok_expr(condition, scopes)
            &&& names_ok_stmts(then_branch.stmts@, scopes.push(Set::empty()))
            &&& match else_branch {
                Some(eb) => names_ok_stmts(eb.stmts@, scopes.push(Set::empty())),
                None => true,
            }
        },
        TypedStmt::While { condition, body, .. } => names_ok_expr(condition, scopes)
            && names_ok_stmts(body.stmts@, scopes.push(Set::empty())),
        _ => true,
    }
}

pub open spec fn names_ok_stmts(ss: Seq<TypedStmt>, scopes: Seq<Set<Seq<char>>>) -> bool
    decreases ss,
{
    if ss.len() == 0 {
        true
    } else {
        names_ok_stmts(ss.subrange(0, ss.len() - 1), scopes) && names_ok_stmt(
            ss[ss.len() - 1],
            names_after_all(ss.subrange(0, ss.len() - 1), scopes),
        )
    }
}

/// The names of the parameters of `f`.
pub open spec fn param_names(params: Seq<TypedParam>) -> Set<Seq<char>> {
    Set::new(|n: Seq<char>| exists|i: int| 0 <= i < params.len() && #[trigger] params[i].name@ == n)
}

/// `f` can be lowered: every variable it reads is bound where it is read,
/// and it is small enough for the value and block counters.
pub open spec fn lowerable(f: TypedFunction) -> bool {
    &&& names_ok_stmts(f.body.stmts@, seq![param_names(f.params@)])
    &&& function_size(f) < usize::MAX
}

proof fn lemma_names_after_keeps_outer(ss: Seq<TypedStmt>, scopes: Seq<Set<Seq<char>>>)
    requires
        scopes.len() >= 1,
    ensures
        names_after_all(ss, scopes).len() == scopes.len(),
        names_after_all(ss, scopes).drop_last() == scopes.drop_last(),
    decreases ss.len(),
{
    if ss.len() > 0 {
        lemma_names_after_keeps_outer(ss.drop_last(), scopes);
        let m = names_after_all(ss.drop_last(), scopes);
        assert(names_after(ss.last(), m).drop_last() =~= m.drop_last());
    }
}

proof fn lemma_size_prefix_stmts(ss: Seq<TypedStmt>, k: int)
    requires
        0 <= k <= ss.len(),
    ensures
        stmts_size(ss.subrange(0, k)) <= stmts_size(ss),
    decreases ss.len() - k,
{
    if k < ss.len() {
        lemma_size_prefix_stmts(ss, k + 1);
        let sub = ss.subrange(0, k + 1);
        assert(sub.subrange(0, sub.len() - 1) =~= ss.subrange(0, k));
    } else {
        assert(ss.subrange(0, k) =~= ss);
    }
}

proof fn lemma_size_prefix_exprs(es: Seq<TypedExpr>, k: int)
    requires
        0 <= k <= es.len(),
    ensures
        exprs_size(es.subrange(0, k)) <= exprs_size(es),
    decreases es.len() - k,
{
    if k < es.len() {
        lemma_size_prefix_exprs(es, k + 1);
        let sub = es.subrange(0, k + 1);
        assert(sub.subrange(0, sub.len() - 1) =~= es.subrange(0, k));
    } else {
        assert(es.subrange(0, k) =~= es);
    }
}

proof fn lemma_names_ok_prefix(ss: Seq<TypedStmt>, scopes: Seq<Set<Seq<char>>>, k: int)
    requires
        0 <= k <= ss.len(),
        names_ok_stmts(ss, scopes),
    ensures
        names_ok_stmts(ss.subrange(0, k), scopes),
        k > 0 ==> names_ok_stmt(ss[k - 1], names_after_all(ss.subrange(0, k - 1), scopes)),
    decreases ss.len(),
{
    if k < ss.len() {
        let pre = ss.subrange(0, ss.len() - 1);
        lemma_names_ok_prefix(pre, scopes, k);
        assert(pre.subrange(0, k) =~= ss.subrange(0, k));
        if k > 0 {
            assert(pre.subrange(0, k - 1) =~= ss.subrange(0, k - 1));
        }
    } else {
        assert(ss.subrange(0, k) =~= ss);
        if k > 0 {
            assert(ss.subrange(0, k - 1) =~= ss.subrange(0, ss.len() - 1));
        }
    }
}

/// Every function of `p` can be lowered.
pub open spec fn program_lowerable(p: TypedProgram) -> bool {
    forall|k: int| 0 <= k < p.functions@.len() ==> lowerable(#[trigger] p.functions@[k])
}

/// `f` is the lowering of `func`: same name, return type and parameters, its
/// blocks well formed, and their instructions exactly those that
/// `lowered_blocks` gives for the body.
pub open spec fn lowered_function_shape(func: TypedFunction, f: IrFunction) -> bool {
    &&& function_wf(f)
    &&& f.name == func.name && f.return_ty == func.return_ty
    &&& f.params@.len() == func.params@.len()
    &&& forall|i: int|
        0 <= i < func.params@.len() ==> (#[trigger] f.params@[i]).name == func.params@[i].name
            && f.params@[i].ty == func.params@[i].ty
    &&& blocks_v(f.blocks@) == lowered_blocks(func)
}

/// `p` lowers `program` function by function, each one exactly as
/// `lowered_function_shape` states.
pub open spec fn lowered_shape(program: TypedProgram, p: IrProgram) -> bool {
    &&& p.functions@.len() == program.functions@.len()
    &&& forall|k: int|
        0 <= k < program.functions@.len() ==> lowered_function_shape(
            #[trigger] program.functions@[k],
            p.functions@[k],
        )
}

// ---------------------------------------------------------------------------
// What lowering emits
// ---------------------------------------------------------------------------

/// An instruction, with sequences where the IR holds vectors and character
/// sequences where it holds strings.
pub enum InstV {
    Binary { dest: ValueId, op: IrOp, ty: Type, left: Operand, right: Operand },
    Unary { dest: ValueId, op: IrOp, ty: Type, operand: Operand },
    Call { dest: Option<ValueId>, callee: Seq<char>, args: Seq<Operand>, return_ty: Type },
    Assign { dest: ValueId, operand: Operand, ty: Type },
    Branch { target: BlockId },
    BranchIf { cond: Operand, then_block: BlockId, else_block: BlockId },
    Return { val: Option<Operand> },
    IndexLoad { dest: ValueId, target: Operand, index: Operand, ty: Type },
    IndexStore { target: Seq<char>, index: Operand, value: Operand },
}

pub open spec fn inst_v(i: Instruction) -> InstV {
    match i {
        Instruction::Binary { dest, op, ty, left, right } => InstV::Binary { dest, op, ty, left, right },
        Instruction::Unary { dest, op, ty, operand } => InstV::Unary { dest, op, ty, operand },
        Instruction::Call { dest, callee, args, return_ty } => InstV::Call {
            dest,
            callee: callee@,
            args: args@,
            return_ty,
        },
        Instruction::Assign { dest, operand, ty } => InstV::Assign { dest, operand, ty },
        Instruction::Branch { target } => InstV::Branch { target },
        Instruction::BranchIf { cond, then_block, else_block } => InstV::BranchIf {
            cond,
            then_block,
            else_block,
        },
        Instruction::Return { val } => InstV::Return { val },
        Instruction::IndexLoad { dest, target, index, ty } => InstV::IndexLoad { dest, target, index, ty },
        Instruction::IndexStore { target, index, value } => InstV::IndexStore {
            target: target@,
            index,
            value,
        },
    }
}

/// The instructions of each block, in block order.
pub open spec fn blocks_v(bs: Seq<BasicBlock>) -> Seq<Seq<InstV>> {
    bs.map_values(|b: BasicBlock| b.instructions@.map_values(|i: Instruction| inst_v(i)))
}

/// Where lowering stands: the instructions of the blocks made so far, the
/// block being filled, the next value number, the variables of each scope
/// (outermost first) and the exit blocks of the enclosing loops.
pub struct LowerState {
    pub blocks: Seq<Seq<InstV>>,
    pub cur: int,
    pub next: int,
    pub scopes: Seq<Map<Seq<char>, ValueId>>,
    pub exits: Seq<BlockId>,
}

pub open spec fn emitted(st: LowerState, i: InstV) -> LowerState {
    LowerState { blocks: st.blocks.update(st.cur, st.blocks[st.cur].push(i)), ..st }
}

pub open spec fn with_value(st: LowerState) -> LowerState {
    LowerState { next: st.next + 1, ..st }
}

pub open spec fn with_block(st: LowerState) -> LowerState {
    LowerState { blocks: st.blocks.push(Seq::empty()), ..st }
}

pub open spec fn switched(st: LowerState, b: BlockId) -> LowerState {
    LowerState { cur: b.0 as int, ..st }
}

/// The value of `name` in the innermost of the first `k` scopes that binds it.
pub open spec fn lookup_in(scopes: Seq<Map<Seq<char>, ValueId>>, k: int, name: Seq<char>) -> Option<ValueId>
    decreases k,
{
    if k <= 0 {
        None
    } else if scopes[k - 1].contains_key(name) {
        Some(scopes[k - 1][name])
    } else {
        lookup_in(scopes, k - 1, name)
    }
}

pub open spec fn lookup(scopes: Seq<Map<Seq<char>, ValueId>>, name: Seq<char>) -> Option<ValueId> {
    lookup_in(scopes, scopes.len() as int, name)
}

/// The innermost of the first `k` scopes that binds `name`.
pub open spec fn binding_scope(scopes: Seq<Map<Seq<char>, ValueId>>, k: int, name: Seq<char>) -> Option<int>
    decreases k,
{
    if k <= 0 {
        None
    } else if scopes[k - 1].contains_key(name) {
        Some(k - 1)
    } else {
        binding_scope(scopes, k - 1, name)
    }
}

/// `name` bound to `v` in the innermost scope.
pub open spec fn bound_last(st: LowerState, name: Seq<char>, v: ValueId) -> LowerState {
    LowerState {
        scopes: st.scopes.update(st.scopes.len() - 1, st.scopes.last().insert(name, v)),
        ..st
    }
}

/// `name` rebound to `v` in the innermost scope that binds it, or bound in
/// the innermost scope.
pub open spec fn reassigned(st: LowerState, name: Seq<char>, v: ValueId) -> LowerState {
    match binding_scope(st.scopes, st.scopes.len() as int, name) {
        Some(k) => LowerState { scopes: st.scopes.update(k, st.scopes[k].insert(name, v)), ..st },
        None => bound_last(st, name, v),
    }
}

/// The block being filled ends in a jump or a return.
pub open spec fn terminated(st: LowerState) -> bool {
    let b = st.blocks[st.cur];
    b.len() > 0 && (b.last() is Return || b.last() is Branch || b.last() is BranchIf)
}

/// What lowering `e` emits, and the operand that holds its value.
pub open spec fn lower_expr_spec(st: LowerState, e: TypedExpr) -> (LowerState, Operand)
    decreases e, 1nat,
{
    match e {
        TypedExpr::Literal { lit, ty, .. } => match lit {
            TypedLiteral::Int(n, _) => (st, Operand::IntConst(n, ty)),
            TypedLiteral::Float(f, _) => (st, Operand::FloatConst(f, ty)),
            TypedLiteral::Bool(b) => (st, Operand::BoolConst(b)),
        },
        TypedExpr::Ident { name, .. } => (st, match lookup(st.scopes, name@) {
            Some(v) => Operand::Value(v),
            None => Operand::BoolConst(false),
        }),
        TypedExpr::Unary { op, expr, ty, .. } => {
            let (s1, inner) = lower_expr_spec(st, *expr);
            let d = ValueId(s1.next as usize);
            let o = match op {
                UnaryOp::Neg => IrOp::Neg,
                UnaryOp::Not => IrOp::Not,
            };
            (emitted(with_value(s1), InstV::Unary { dest: d, op: o, ty, operand: inner }), Operand::Value(d))
        },
        TypedExpr::Binary { op, left, right, ty, .. } => {
            let (s1, l) = lower_expr_spec(st, *left);
            let (s2, r) = lower_expr_spec(s1, *right);
            let d = ValueId(s2.next as usize);
            (
                emitted(with_value(s2), InstV::Binary { dest: d, op: ir_op(op), ty, left: l, right: r }),
                Operand::Value(d),
            )
        },
        TypedExpr::Call { callee, args, ty, .. } => {
            let (s1, ops) = lower_all_spec(st, args@);
            if ty == Type::Void {
                (
                    emitted(s1, InstV::Call { dest: None, callee: callee@, args: ops, return_ty: ty }),
                    Operand::BoolConst(false),
                )
            } else {
                let d = ValueId(s1.next as usize);
                (
                    emitted(
                        with_value(s1),
                        InstV::Call { dest: Some(d), callee: callee@, args: ops, return_ty: ty },
                    ),
                    Operand::Value(d),
                )
            }
        },
        TypedExpr::ArrayLiteral { elements, ty, .. } => {
            let (s1, ops) = lower_all_spec(st, elements@);
            let d = ValueId(s1.next as usize);
            (
                emitted(
                    with_value(s1),
                    InstV::Call { dest: Some(d), callee: "array"@, args: ops, return_ty: ty },
                ),
                Operand::Value(d),
            )
        },
        TypedExpr::Index { target, index, ty, .. } => {
            let (s1, t) = lower_expr_spec(st, *target);
            let (s2, i) = lower_expr_spec(s1, *index);
            let d = ValueId(s2.next as usize);
            (
                emitted(with_value(s2), InstV::IndexLoad { dest: d, target: t, index: i, ty }),
                Operand::Value(d),
            )
        },
    }
}

/// What lowering `es` in order emits, and their operands.
pub open spec fn lower_all_spec(st: LowerState, es: Seq<TypedExpr>) -> (LowerState, Seq<Operand>)
    decreases es, 0nat,
{
    if es.len() == 0 {
        (st, Seq::empty())
    } else {
        let (s1, ops) = lower_all_spec(st, es.subrange(0, es.len() - 1));
        let (s2, o) = lower_expr_spec(s1, es[es.len() - 1]);
        (s2, ops.push(o))
    }
}

/// A jump to `target` unless the block being filled already ends in one.
pub open spec fn closed_to(st: LowerState, target: BlockId) -> LowerState {
    if terminated(st) {
        st
    } else {
        emitted(st, InstV::Branch { target })
    }
}

/// What lowering `s` emits.
pub open spec fn lower_stmt_spec(st: LowerState, s: TypedStmt) -> LowerState
    decreases s, 0nat,
{
    match s {
        TypedStmt::Let { name, ty, value, .. } => {
            let (s1, op) = lower_expr_spec(st, value);
            let d = ValueId(s1.next as usize);
            bound_last(emitted(with_value(s1), InstV::Assign { dest: d, operand: op, ty }), name@, d)
        },
        TypedStmt::Assign { name, value, .. } => {
            let (s1, op) = lower_expr_spec(st, value);
            let d = ValueId(s1.next as usize);
            reassigned(
                emitted(with_value(s1), InstV::Assign { dest: d, operand: op, ty: value.spec_ty() }),
                name@,
                d,
            )
        },
        TypedStmt::IndexAssign { target, index, value, .. } => {
            let (s1, i) = lower_expr_spec(st, index);
            let (s2, v) = lower_expr_spec(s1, value);
            emitted(s2, InstV::IndexStore { target: target@, index: i, value: v })
        },
        TypedStmt::Return(e, _) => match e {
            Some(x) => {
                let (s1, o) = lower_expr_spec(st, x);
                emitted(s1, InstV::Return { val: Some(o) })
            },
            None => emitted(st, InstV::Return { val: None }),
        },
        TypedStmt::Break(_) => if st.exits.len() > 0 {
            emitted(st, InstV::Branch { target: st.exits.last() })
        } else {
            st
        },
        TypedStmt::Expr(e) => lower_expr_spec(st, e).0,
        TypedStmt::If { condition, then_branch, else_branch, .. } => {
            let (s1, c) = lower_expr_spec(st, condition);
            let tb = BlockId(s1.blocks.len() as usize);
            let eb = BlockId((s1.blocks.len() + 1) as usize);
            let mb = BlockId((s1.blocks.len() + 2) as usize);
            let s2 = with_block(with_block(with_block(s1)));
            let alt = if else_branch is Some {
                eb
            } else {
                mb
            };
            let s3 = switched(emitted(s2, InstV::BranchIf { cond: c, then_block: tb, else_block: alt }), tb);
            let s4 = closed_to(lower_block_spec(s3, then_branch.stmts@), mb);
            let s5 = match else_branch {
                Some(b) => closed_to(lower_block_spec(switched(s4, eb), b.stmts@), mb),
                None => s4,
            };
            switched(s5, mb)
        },
        TypedStmt::While { condition, body, .. } => {
            let cb = BlockId(st.blocks.len() as usize);
            let bb = BlockId((st.blocks.len() + 1) as usize);
            let xb = BlockId((st.blocks.len() + 2) as usize);
            let s1 = switched(emitted(with_block(with_block(with_block(st))), InstV::Branch { target: cb }), cb);
            let (s2, c) = lower_expr_spec(s1, condition);
            let s3 = switched(emitted(s2, InstV::BranchIf { cond: c, then_block: bb, else_block: xb }), bb);
            let s4 = lower_block_spec(LowerState { exits: s3.exits.push(xb), ..s3 }, body.stmts@);
            let s5 = LowerState { exits: s4.exits.drop_last(), ..s4 };
            switched(closed_to(s5, cb), xb)
        },
    }
}

/// What lowering `ss` in order emits.
pub open spec fn lower_stmts_spec(st: LowerState, ss: Seq<TypedStmt>) -> LowerState
    decreases ss, 0nat,
{
    if ss.len() == 0 {
        st
    } else {
        lower_stmt_spec(lower_stmts_spec(st, ss.subrange(0, ss.len() - 1)), ss[ss.len() - 1])
    }
}

/// What lowering `ss` in a scope of their own emits.
pub open spec fn lower_block_spec(st: LowerState, ss: Seq<TypedStmt>) -> LowerState
    decreases ss, 1nat,
{
    let s1 = lower_stmts_spec(LowerState { scopes: st.scopes.push(Map::empty()), ..st }, ss);
    LowerState { scopes: s1.scopes.drop_last(), ..s1 }
}

/// The parameters bound to `v0..vn` in order (a later one wins).
pub open spec fn param_scope(ps: Seq<TypedParam>) -> Map<Seq<char>, ValueId>
    decreases ps.len(),
{
    if ps.len() == 0 {
        Map::empty()
    } else {
        param_scope(ps.drop_last()).insert(ps.last().name@, ValueId((ps.len() - 1) as usize))
    }
}

/// The blocks that lowering `func` makes: its body lowered from block
/// `bb0` with the parameters in scope, then a `ret` where the last block
/// does not end in a jump or a return.
pub open spec fn lowered_blocks(func: TypedFunction) -> Seq<Seq<InstV>> {
    let init = LowerState {
        blocks: seq![Seq::empty()],
        cur: 0,
        next: func.params@.len() as int,
        scopes: seq![param_scope(func.params@)],
        exits: Seq::empty(),
    };
    let st = lower_stmts_spec(init, func.body.stmts@);
    if terminated(st) {
        st.blocks
    } else {
        emitted(st, InstV::Return { val: None }).blocks
    }
}

/// Scopes that do not bind `name` are passed over by the lookup.
proof fn lemma_scopes_skip(scopes: Seq<Map<Seq<char>, ValueId>>, k: int, n: int, name: Seq<char>)
    requires
        0 <= k <= n <= scopes.len(),
        forall|j: int| k <= j < n ==> !(#[trigger] scopes[j]).contains_key(name),
    ensures
        binding_scope(scopes, n, name) == binding_scope(scopes, k, name),
        lookup_in(scopes, n, name) == lookup_in(scopes, k, name),
    decreases n - k,
{
    if n > k {
        lemma_scopes_skip(scopes, k, n - 1, name);
    }
}

/// No scope binds `name` exactly when the lookup finds nothing.
proof fn lemma_binding_scope_none(scopes: Seq<Map<Seq<char>, ValueId>>, k: int, name: Seq<char>)
    requires
        0 <= k <= scopes.len(),
    ensures
        (binding_scope(scopes, k, name) is None) == (forall|j: int| 0 <= j < k ==> !(#[trigger] scopes[j]).contains_key(name)),
    decreases k,
{
    if k > 0 {
        lemma_binding_scope_none(scopes, k - 1, name);
    }
}

// ---------------------------------------------------------------------------
// The lowerer
// ---------------------------------------------------------------------------

/// Emitting `inst` at the end of block `cur` keeps the blocks well formed
/// when its jumps stay within the blocks and the value it defines is new.
proof fn lemma_emit_keeps_wf(
    old_blocks: Seq<BasicBlock>,
    new_blocks: Seq<BasicBlock>,
    cur: int,
    inst: Instruction,
    pv: nat,
    nv: nat,
)
    requires
        0 <= cur < old_blocks.len(),
        new_blocks.len() == old_blocks.len(),
        forall|b: int| 0 <= b < old_blocks.len() && b != cur ==> #[trigger] new_blocks[b] == old_blocks[b],
        new_blocks[cur].id == old_blocks[cur].id,
        new_blocks[cur].instructions@ == old_blocks[cur].instructions@.push(inst),
        targets_below(inst, old_blocks.len()),
        match inst_dest(inst) {
            Some(d) => blocks_wf(old_blocks, pv, d as nat) && pv <= d < nv,
            None => blocks_wf(old_blocks, pv, nv),
        },
    ensures
        blocks_wf(new_blocks, pv, nv),
{
    let n = old_blocks[cur].instructions@.len() as int;
    assert forall|b: int, k: int| valid_pos(new_blocks, b, k) implies (b == cur && k == n) || (
    valid_pos(old_blocks, b, k) && inst_at(new_blocks, b, k) == inst_at(old_blocks, b, k)) by {
        if b != cur {
            assert(new_blocks[b] == old_blocks[b]);
        }
    }
    assert(inst_at(new_blocks, cur, n) == inst);
    assert forall|b: int| 0 <= b < new_blocks.len() implies (#[trigger] new_blocks[b]).id.0 == b by {
        if b != cur {
            assert(new_blocks[b] == old_blocks[b]);
        }
    }
    assert forall|b: int, k: int| valid_pos(new_blocks, b, k) implies targets_below(
        #[trigger] inst_at(new_blocks, b, k),
        new_blocks.len(),
    ) by {
        if !(b == cur && k == n) {
            assert(inst_at(new_blocks, b, k) == inst_at(old_blocks, b, k));
        }
    }
    assert forall|b: int, k: int|
        valid_pos(new_blocks, b, k) && inst_dest(#[trigger] inst_at(new_blocks, b, k)) is Some implies {
        let d = inst_dest(inst_at(new_blocks, b, k)).unwrap();
        pv <= d < nv
    } by {
        if !(b == cur && k == n) {
            assert(inst_at(new_blocks, b, k) == inst_at(old_blocks, b, k));
        }
    }
    assert forall|b1: int, k1: int, b2: int, k2: int|
        valid_pos(new_blocks, b1, k1) && valid_pos(new_blocks, b2, k2) && inst_dest(
            #[trigger] inst_at(new_blocks, b1, k1),
        ) is Some && inst_dest(inst_at(new_blocks, b1, k1)) == inst_dest(
            #[trigger] inst_at(new_blocks, b2, k2),
        ) implies b1 == b2 && k1 == k2 by {
        let new1 = b1 == cur && k1 == n;
        let new2 = b2 == cur && k2 == n;
        if !new1 {
            assert(inst_at(new_blocks, b1, k1) == inst_at(old_blocks, b1, k1));
        }
        if !new2 {
            assert(inst_at(new_blocks, b2, k2) == inst_at(old_blocks, b2, k2));
        }
    }
}

/// The IR operation of a binary operator.
pub fn ir_op_of(op: BinaryOp) -> (r: IrOp)
    ensures
        r == ir_op(op),
{
    match op {
        BinaryOp::Add => IrOp::Add,
        BinaryOp::Sub => IrOp::Sub,
        BinaryOp::Mul => IrOp::Mul,
        BinaryOp::Div => IrOp::Div,
        BinaryOp::Mod => IrOp::Mod,
        BinaryOp::Pow => IrOp::Pow,
        BinaryOp::Eq => IrOp::Eq,
        BinaryOp::Ne => IrOp::Ne,
        BinaryOp::Lt => IrOp::Lt,
        BinaryOp::Le => IrOp::Le,
        BinaryOp::Gt => IrOp::Gt,
        BinaryOp::Ge => IrOp::Ge,
        BinaryOp::BitAnd => IrOp::BitAnd,
        BinaryOp::BitOr => IrOp::BitOr,
        BinaryOp::BitXor => IrOp::BitXor,
        BinaryOp::Shl => IrOp::Shl,
        BinaryOp::Shr => IrOp::Shr,
    }
}

pub open spec fn ir_op(op: BinaryOp) -> IrOp {
    match op {
        BinaryOp::Add => IrOp::Add,
        BinaryOp::Sub => IrOp::Sub,
        BinaryOp::Mul => IrOp::Mul,
        BinaryOp::Div => IrOp::Div,
        BinaryOp::Mod => IrOp::Mod,
        BinaryOp::Pow => IrOp::Pow,
        BinaryOp::Eq => IrOp::Eq,
        BinaryOp::Ne => IrOp::Ne,
        BinaryOp::Lt => IrOp::Lt,
        BinaryOp::Le => IrOp::Le,
        BinaryOp::Gt => IrOp::Gt,
        BinaryOp::Ge => IrOp::Ge,
        BinaryOp::BitAnd => IrOp::BitAnd,
        BinaryOp::BitOr => IrOp::BitOr,
        BinaryOp::BitXor => IrOp::BitXor,
        BinaryOp::Shl => IrOp::Shl,
        BinaryOp::Shr => IrOp::Shr,
    }
}

/// The value of `a op b` in the source language on integer operands: the
/// arithmetic operators on integers (division rounding toward zero), a comparison 1 where it holds and 0
/// where not, the bitwise operators on the bits of `a` and `b`, and a shift
/// by an amount in `[0, 64)` (0 for any other amount).
pub open spec fn source_value(op: BinaryOp, a: i64, b: i64) -> int {
    match op {
        BinaryOp::Add => a + b,
        BinaryOp::Sub => a - b,
        BinaryOp::Mul => a * b,
        BinaryOp::Div => trunc_div(a as int, b as int),
        BinaryOp::Mod => a - b * trunc_div(a as int, b as int),
        BinaryOp::Pow => if b >= 0 { vstd::arithmetic::power::pow(a as int, b as nat) } else { 0 },
        BinaryOp::Eq => if a == b { 1 } else { 0 },
        BinaryOp::Ne => if a != b { 1 } else { 0 },
        BinaryOp::Lt => if a < b { 1 } else { 0 },
        BinaryOp::Le => if a <= b { 1 } else { 0 },
        BinaryOp::Gt => if a > b { 1 } else { 0 },
        BinaryOp::Ge => if a >= b { 1 } else { 0 },
        BinaryOp::BitAnd => (a & b) as int,
        BinaryOp::BitOr => (a | b) as int,
        BinaryOp::BitXor => (a ^ b) as int,
        BinaryOp::Shl => if 0 <= b < 64 { (a << (b as u64)) as int } else { 0 },
        BinaryOp::Shr => if 0 <= b < 64 { (a >> (b as u64)) as int } else { 0 },
    }
}

/// The value of an IR operation on integer operands (a unary operation
/// reads its first operand only), with the same conventions as
/// `source_value`.
pub open spec fn ir_value(op: IrOp, a: i64, b: i64) -> int {
    match op {
        IrOp::Add => a + b,
        IrOp::Sub => a - b,
        IrOp::Mul => a * b,
        IrOp::Div => trunc_div(a as int, b as int),
        IrOp::Mod => a - b * trunc_div(a as int, b as int),
        IrOp::Pow => if b >= 0 { vstd::arithmetic::power::pow(a as int, b as nat) } else { 0 },
        IrOp::Neg => -a,
        IrOp::Not => if a == 0 { 1 } else { 0 },
        IrOp::Eq => if a == b { 1 } else { 0 },
        IrOp::Ne => if a != b { 1 } else { 0 },
        IrOp::Lt => if a < b { 1 } else { 0 },
        IrOp::Le => if a <= b { 1 } else { 0 },
        IrOp::Gt => if a > b { 1 } else { 0 },
        IrOp::Ge => if a >= b { 1 } else { 0 },
        IrOp::BitAnd => (a & b) as int,
        IrOp::BitOr => (a | b) as int,
        IrOp::BitXor => (a ^ b) as int,
        IrOp::Shl => if 0 <= b < 64 { (a << (b as u64)) as int } else { 0 },
        IrOp::Shr => if 0 <= b < 64 { (a >> (b as u64)) as int } else { 0 },
    }
}

/// A binary operator lowers to the IR operation that computes it: on every
/// pair of operands the IR operation gives the operator's value.
pub proof fn lemma_ir_op_computes_operator(op: BinaryOp, a: i64, b: i64)
    ensures
        ir_value(ir_op(op), a, b) == source_value(op, a, b),
{
}

/// Distinct operators lower to distinct IR operations.
pub proof fn lemma_ir_op_distinct(o1: BinaryOp, o2: BinaryOp)
    ensures
        ir_op(o1) == ir_op(o2) ==> o1 == o2,
{
}

/// Lowers typed functions to IR, one at a time.
pub struct IrLowerer {
    next_value: usize,
    blocks: Vec<BasicBlock>,
    current_block: BlockId,
    scopes: Vec<NameTable<ValueId>>,
    loop_exits: Vec<BlockId>,
    first_value: Ghost<nat>,
}

impl IrLowerer {
    /// Where the lowering stands.
    pub closed spec fn state(&self) -> LowerState {
        LowerState {
            blocks: blocks_v(self.blocks@),
            cur: self.current_block.0 as int,
            next: self.next_value as int,
            scopes: self.scopes@.map_values(|t: NameTable<ValueId>| t.view()),
            exits: self.loop_exits@,
        }
    }

    /// The names bound in each scope, outermost first.
    pub closed spec fn domains(&self) -> Seq<Set<Seq<char>>> {
        Seq::new(self.scopes@.len(), |i: int| self.scopes@[i].view().dom())
    }

    pub closed spec fn wf(&self) -> bool {
        &&& self.blocks@.len() >= 1
        &&& self.first_value@ <= self.next_value
        &&& self.current_block.0 < self.blocks@.len()
        &&& blocks_wf(self.blocks@, self.first_value@, self.next_value as nat)
        &&& forall|i: int| 0 <= i < self.loop_exits@.len() ==> (#[trigger] self.loop_exits@[i]).0
            < self.blocks@.len()
        &&& self.scopes@.len() >= 1
        &&& forall|i: int| 0 <= i < self.scopes@.len() ==> (#[trigger] self.scopes@[i]).wf()
    }

    pub closed spec fn used(&self) -> nat {
        (self.next_value + self.blocks@.len()) as nat
    }

    pub closed spec fn in_loop(&self) -> bool {
        self.loop_exits@.len() > 0
    }

    pub closed spec fn loops(&self) -> nat {
        self.loop_exits@.len()
    }

    pub fn new() -> (l: Self)
        ensures
            l.state() == (LowerState {
                blocks: Seq::empty(),
                cur: 0,
                next: 0,
                scopes: seq![Map::<Seq<char>, ValueId>::empty()],
                exits: Seq::empty(),
            }),
            l.domains() == seq![Set::<Seq<char>>::empty()],
            l.used() == 0,
            l.loops() == 0,
            !l.in_loop(),
    {
        let l = IrLowerer {
            next_value: 0,
            blocks: Vec::new(),
            current_block: BlockId(0),
            scopes: vec![NameTable::new()],
            loop_exits: Vec::new(),
            first_value: Ghost(0),
        };
        assert(blocks_v(l.blocks@) =~= Seq::<Seq<InstV>>::empty());
        assert(l.state().scopes =~= seq![Map::<Seq<char>, ValueId>::empty()]);
        assert(l.domains() =~= seq![Set::<Seq<char>>::empty()]);
        l
    }

    fn new_value(&mut self) -> (v: ValueId)
        requires
            old(self).wf(),
            old(self).next_value < usize::MAX,
        ensures
            v.0 == old(self).next_value,
            final(self).state() == with_value(old(self).state()),
            final(self).next_value == old(self).next_value + 1,
            final(self).blocks@ == old(self).blocks@,
            final(self).current_block == old(self).current_block,
            final(self).scopes@ == old(self).scopes@,
            final(self).loop_exits@ == old(self).loop_exits@,
            final(self).first_value == old(self).first_value,
            final(self).wf(),
    {
        let id = ValueId(self.next_value);
        self.next_value += 1;
        id
    }

    fn new_block(&mut self) -> (b: BlockId)
        requires
            old(self).wf(),
            old(self).blocks@.len() < usize::MAX,
        ensures
            b.0 == old(self).blocks@.len(),
            final(self).state() == with_block(old(self).state()),
            final(self).blocks@.len() == old(self).blocks@.len() + 1,
            final(self).next_value == old(self).next_value,
            final(self).current_block == old(self).current_block,
            final(self).scopes@ == old(self).scopes@,
            final(self).loop_exits@ == old(self).loop_exits@,
            final(self).first_value == old(self).first_value,
            final(self).wf(),
    {
        let id = BlockId(self.blocks.len());
        let ghost old_blocks = self.blocks@;
        self.blocks.push(BasicBlock { id, instructions: Vec::new() });
        proof {
            let nb = self.blocks@;
            assert forall|b: int, k: int| valid_pos(nb, b, k) implies valid_pos(old_blocks, b, k)
                && inst_at(nb, b, k) == inst_at(old_blocks, b, k) by {
                if b == old_blocks.len() {
                    assert(nb[b].instructions@.len() == 0);
                }
            }
            assert(blocks_wf(nb, self.first_value@, self.next_value as nat));
            assert forall|i: int| 0 <= i < self.loop_exits@.len() implies (
            #[trigger] self.loop_exits@[i]).0 < self.blocks@.len() by {}
            assert(nb[old_blocks.len() as int].instructions@.map_values(|i: Instruction| inst_v(i)) =~= Seq::<InstV>::empty());
            assert(blocks_v(nb) =~= blocks_v(old_blocks).push(Seq::empty()));
        }
        id
    }

    fn switch_to_block(&mut self, block: BlockId)
        requires
            old(self).wf(),
            block.0 < old(self).blocks@.len(),
        ensures
            final(self).wf(),
            final(self).state() == switched(old(self).state(), block),
            final(self).current_block == block,
            final(self).blocks@ == old(self).blocks@,
            final(self).next_value == old(self).next_value,
            final(self).scopes@ == old(self).scopes@,
            final(self).loop_exits@ == old(self).loop_exits@,
            final(self).first_value == old(self).first_value,
    {
        self.current_block = block;
    }

    /// Appends `inst` to the current block.
    fn emit(&mut self, inst: Instruction)
        requires
            old(self).wf(),
            targets_below(inst, old(self).blocks@.len()),
            match inst_dest(inst) {
                Some(d) => blocks_wf(old(self).blocks@, old(self).first_value@, d as nat)
                    && old(self).first_value@ <= d < old(self).next_value,
                None => true,
            },
        ensures
            final(self).wf(),
            final(self).blocks@.len() == old(self).blocks@.len(),
            final(self).next_value == old(self).next_value,
            final(self).current_block == old(self).current_block,
            final(self).scopes@ == old(self).scopes@,
            final(self).loop_exits@ == old(self).loop_exits@,
            final(self).first_value == old(self).first_value,
            final(self).blocks@[old(self).current_block.0 as int].instructions@ == old(
                self,
            ).blocks@[old(self).current_block.0 as int].instructions@.push(inst),
            final(self).state() == emitted(old(self).state(), inst_v(inst)),
    {
        let cur = self.current_block.0;
        let ghost old_blocks = self.blocks@;
        let mut b = self.blocks.remove(cur);
        b.instructions.push(inst);
        self.blocks.insert(cur, b);
        proof {
            let nb = self.blocks@;
            assert forall|i: int| 0 <= i < old_blocks.len() && i != cur implies #[trigger] nb[i]
                == old_blocks[i] by {}
            lemma_emit_keeps_wf(
                old_blocks,
                nb,
                cur as int,
                inst,
                self.first_value@,
                self.next_value as nat,
            );
            assert forall|i: int| 0 <= i < self.loop_exits@.len() implies (
            #[trigger] self.loop_exits@[i]).0 < self.blocks@.len() by {}
            assert(nb[cur as int].instructions@.map_values(|i: Instruction| inst_v(i)) =~= old_blocks[cur as int].instructions@.map_values(|i: Instruction| inst_v(i)).push(inst_v(inst)));
            assert(blocks_v(nb) =~= blocks_v(old_blocks).update(cur as int, blocks_v(old_blocks)[cur as int].push(inst_v(inst))));
        }
    }

    fn enter_scope(&mut self)
        requires
            old(self).wf(),
        ensures
            final(self).wf(),
            final(self).domains() == old(self).domains().push(Set::<Seq<char>>::empty()),
            final(self).state() == (LowerState { scopes: old(self).state().scopes.push(Map::empty()), ..old(self).state() }),
            final(self).scopes@.len() == old(self).scopes@.len() + 1,
            final(self).blocks@ == old(self).blocks@,
            final(self).next_value == old(self).next_value,
            final(self).current_block == old(self).current_block,
            final(self).loop_exits@ == old(self).loop_exits@,
            final(self).first_value == old(self).first_value,
    {
        self.scopes.push(NameTable::new());
        proof {
            assert(self.domains() =~= old(self).domains().push(Set::<Seq<char>>::empty()));
            assert(self.state().scopes =~= old(self).state().scopes.push(Map::empty()));
        }
    }

    fn exit_scope(&mut self)
        requires
            old(self).wf(),
            old(self).scopes@.len() > 1,
        ensures
            final(self).wf(),
            final(self).domains() == old(self).domains().drop_last(),
            final(self).state() == (LowerState { scopes: old(self).state().scopes.drop_last(), ..old(self).state() }),
            final(self).scopes@.len() == old(self).scopes@.len() - 1,
            final(self).blocks@ == old(self).blocks@,
            final(self).next_value == old(self).next_value,
            final(self).current_block == old(self).current_block,
            final(self).loop_exits@ == old(self).loop_exits@,
            final(self).first_value == old(self).first_value,
    {
        self.scopes.pop();
        proof {
            assert(self.domains() =~= old(self).domains().drop_last());
            assert(self.state().scopes =~= old(self).state().scopes.drop_last());
        }
    }

    /// Binds `name` to `val` in the innermost scope.
    fn bind_last_in(&mut self, name: &String, val: ValueId)
        requires
            old(self).wf(),
        ensures
            final(self).wf(),
            final(self).domains() == bind_last(old(self).domains(), name@),
            final(self).state() == bound_last(old(self).state(), name@, val),
            final(self).scopes@.len() == old(self).scopes@.len(),
            final(self).blocks@ == old(self).blocks@,
            final(self).next_value == old(self).next_value,
            final(self).current_block == old(self).current_block,
            final(self).loop_exits@ == old(self).loop_exits@,
            final(self).first_value == old(self).first_value,
    {
        let mut t = self.scopes.pop().unwrap();
        t.insert(name.clone(), val);
        self.scopes.push(t);
        proof {
            assert(self.domains() =~= bind_last(old(self).domains(), name@));
            assert(self.state().scopes =~= bound_last(old(self).state(), name@, val).scopes);
        }
    }

    /// Rebinds `name` in the innermost scope that binds it, or else binds it
    /// in the innermost scope.
    fn set_variable(&mut self, name: &String, val: ValueId)
        requires
            old(self).wf(),
        ensures
            final(self).wf(),
            final(self).domains() == (if bound(old(self).domains(), name@) {
                old(self).domains()
            } else {
                bind_last(old(self).domains(), name@)
            }),
            final(self).state() == reassigned(old(self).state(), name@, val),
            final(self).scopes@.len() == old(self).scopes@.len(),
            final(self).blocks@ == old(self).blocks@,
            final(self).next_value == old(self).next_value,
            final(self).current_block == old(self).current_block,
            final(self).loop_exits@ == old(self).loop_exits@,
            final(self).first_value == old(self).first_value,
    {
        let ghost doms = self.domains();
        let ghost sv = self.state().scopes;
        let mut k: usize = self.scopes.len();
        while k > 0
            invariant
                k <= self.scopes@.len(),
                self.wf(),
                *self == *old(self),
                sv == old(self).state().scopes,
                sv.len() == self.scopes@.len(),
                forall|j: int| 0 <= j < sv.len() ==> #[trigger] sv[j] == self.scopes@[j].view(),
                forall|j: int| k <= j < sv.len() ==> !(#[trigger] sv[j]).contains_key(name@),
                doms == self.domains(),
                forall|j: int| k <= j < doms.len() ==> !(#[trigger] doms[j]).contains(name@),
            decreases k,
        {
            if self.scopes[k - 1].get(name).is_some() {
                let ghost before = self.scopes@;
                let mut t = self.scopes.remove(k - 1);
                t.insert(name.clone(), val);
                self.scopes.insert(k - 1, t);
                proof {
                    assert(doms[k - 1].contains(name@));
                    assert(self.scopes@[k - 1].view().dom() =~= doms[k - 1]);
                    assert forall|j: int| 0 <= j < doms.len() && j != k - 1 implies #[trigger] self.scopes@[j]
                        == before[j] by {}
                    assert(self.domains() =~= doms);
                    assert(sv[k - 1].contains_key(name@));
                    lemma_scopes_skip(sv, k as int, sv.len() as int, name@);
                    assert(binding_scope(sv, sv.len() as int, name@) == Some(k - 1));
                    assert(self.state().scopes =~= sv.update(k - 1, sv[k - 1].insert(name@, val)));
                }
                return;
            }
            proof {
                assert(!sv[k - 1].contains_key(name@));
            }
            k -= 1;
        }
        proof {
            assert(!bound(doms, name@));
            lemma_scopes_skip(sv, 0, sv.len() as int, name@);
        }
        self.bind_last_in(name, val);
    }

    /// The value bound to `name` in the innermost scope that binds it.
    fn get_variable(&self, name: &String) -> (r: Option<ValueId>)
        requires
            self.wf(),
        ensures
            r is Some <==> bound(self.domains(), name@),
            r == lookup(self.state().scopes, name@),
    {
        let ghost doms = self.domains();
        let ghost sv = self.state().scopes;
        let mut k: usize = self.scopes.len();
        while k > 0
            invariant
                k <= self.scopes@.len(),
                self.wf(),
                doms == self.domains(),
                sv == self.state().scopes,
                sv.len() == self.scopes@.len(),
                forall|j: int| 0 <= j < sv.len() ==> #[trigger] sv[j] == self.scopes@[j].view(),
                forall|j: int| k <= j < doms.len() ==> !(#[trigger] doms[j]).contains(name@),
                forall|j: int| k <= j < sv.len() ==> !(#[trigger] sv[j]).contains_key(name@),
            decreases k,
        {
            match self.scopes[k - 1].get(name) {
                Some(v) => {
                    proof {
                        assert(doms[k - 1].contains(name@));
                        lemma_scopes_skip(sv, k as int, sv.len() as int, name@);
                    }
                    return Some(v);
                },
                None => {},
            }
            k -= 1;
        }
        proof {
            lemma_scopes_skip(sv, 0, sv.len() as int, name@);
        }
        None
    }

    /// Lowers the expressions `es` in order.
    fn lower_all(&mut self, es: &Vec<TypedExpr>) -> (ops: Vec<Operand>)
        requires
            old(self).wf(),
            names_ok_all(es@, old(self).domains()),
            old(self).next_value + exprs_size(es@) <= usize::MAX,
        ensures
            final(self).wf(),
            final(self).domains() == old(self).domains(),
            final(self).scopes@.len() == old(self).scopes@.len(),
            final(self).blocks@.len() == old(self).blocks@.len(),
            final(self).current_block == old(self).current_block,
            final(self).loop_exits@ == old(self).loop_exits@,
            final(self).first_value == old(self).first_value,
            old(self).next_value <= final(self).next_value <= old(self).next_value + exprs_size(es@),
            ops@.len() == es@.len(),
            (final(self).state(), ops@) == lower_all_spec(old(self).state(), es@),
        decreases es, 0nat,
    {
        let mut ops: Vec<Operand> = Vec::new();
        let mut k: usize = 0;
        assert(es@.subrange(0, 0) =~= Seq::<TypedExpr>::empty());
        while k < es.len()
            invariant
                self.wf(),
                self.domains() == old(self).domains(),
                self.scopes@.len() == old(self).scopes@.len(),
                self.blocks@.len() == old(self).blocks@.len(),
                self.current_block == old(self).current_block,
                self.loop_exits@ == old(self).loop_exits@,
                self.first_value == old(self).first_value,
                names_ok_all(es@, old(self).domains()),
                old(self).next_value + exprs_size(es@) <= usize::MAX,
                k <= es@.len(),
                ops@.len() == k,
                old(self).next_value <= self.next_value <= old(self).next_value + exprs_size(
                    es@.subrange(0, k as int),
                ),
                (self.state(), ops@) == lower_all_spec(old(self).state(), es@.subrange(0, k as int)),
            decreases es@.len() - k,
        {
            proof {
                assert(decreases_to!(*es => es@));
                assert(decreases_to!(es@ => es@[k as int]));
                lemma_size_prefix_exprs(es@, k + 1);
                let sub = es@.subrange(0, k + 1);
                assert(sub.subrange(0, sub.len() - 1) =~= es@.subrange(0, k as int));
                assert(names_ok_expr(es@[k as int], old(self).domains()));
            }
            let op = self.lower_expr(&es[k]);
            ops.push(op);
            k += 1;
        }
        assert(es@.subrange(0, es@.len() as int) =~= es@);
        ops
    }

    /// Lowers an expression into the current block and returns the operand
    /// holding its value.
    fn lower_expr(&mut self, e: &TypedExpr) -> (op: Operand)
        requires
            old(self).wf(),
            names_ok_expr(*e, old(self).domains()),
            old(self).next_value + expr_size(*e) <= usize::MAX,
        ensures
            final(self).wf(),
            final(self).domains() == old(self).domains(),
            final(self).scopes@.len() == old(self).scopes@.len(),
            final(self).blocks@.len() == old(self).blocks@.len(),
            final(self).current_block == old(self).current_block,
            final(self).loop_exits@ == old(self).loop_exits@,
            final(self).first_value == old(self).first_value,
            old(self).next_value <= final(self).next_value <= old(self).next_value + expr_size(*e),
            (final(self).state(), op) == lower_expr_spec(old(self).state(), *e),
        decreases e, 1nat,
    {
        match e {
            TypedExpr::Literal { lit, ty, .. } => match lit {
                TypedLiteral::Int(n, _) => Operand::IntConst(*n, ty.duplicate()),
                TypedLiteral::Float(f, _) => Operand::FloatConst(f.clone(), ty.duplicate()),
                TypedLiteral::Bool(b) => Operand::BoolConst(*b),
            },
            TypedExpr::Ident { name, .. } => match self.get_variable(name) {
                Some(v) => Operand::Value(v),
                None => Operand::BoolConst(false),
            },
            TypedExpr::Unary { op, expr, ty, .. } => {
                let inner = self.lower_expr(expr);
                let dest = self.new_value();
                let ir_op = match op {
                    UnaryOp::Neg => IrOp::Neg,
                    UnaryOp::Not => IrOp::Not,
                };
                self.emit(Instruction::Unary { dest, op: ir_op, ty: ty.duplicate(), operand: inner });
                Operand::Value(dest)
            },
            TypedExpr::Binary { op, left, right, ty, .. } => {
                let l = self.lower_expr(left);
                let r = self.lower_expr(right);
                let dest = self.new_value();
                self.emit(Instruction::Binary { dest, op: ir_op_of(*op), ty: ty.duplicate(), left: l, right: r });
                Operand::Value(dest)
            },
            TypedExpr::Call { callee, args, ty, .. } => {
                proof {
                    assert(decreases_to!(*e => (*e)->Call_args));
                }
                let ops = self.lower_all(args);
                if ty.same(&Type::Void) {
                    self.emit(Instruction::Call { dest: None, callee: callee.clone(), args: ops, return_ty: ty.duplicate() });
                    Operand::BoolConst(false)
                } else {
                    let dest = self.new_value();
                    self.emit(Instruction::Call { dest: Some(dest), callee: callee.clone(), args: ops, return_ty: ty.duplicate() });
                    Operand::Value(dest)
                }
            },
            TypedExpr::ArrayLiteral { elements, ty, .. } => {
                proof {
                    assert(decreases_to!(*e => (*e)->ArrayLiteral_elements));
                }
                let ops = self.lower_all(elements);
                let dest = self.new_value();
                self.emit(Instruction::Call { dest: Some(dest), callee: String::from_str("array"), args: ops, return_ty: ty.duplicate() });
                Operand::Value(dest)
            },
            TypedExpr::Index { target, index, ty, .. } => {
                let t = self.lower_expr(target);
                let i = self.lower_expr(index);
                let dest = self.new_value();
                self.emit(Instruction::IndexLoad { dest, target: t, index: i, ty: ty.duplicate() });
                Operand::Value(dest)
            },
        }
    }

    /// Lowers the statements `ss` in order from the current block.
    fn lower_stmts(&mut self, ss: &Vec<TypedStmt>)
        requires
            old(self).wf(),
            names_ok_stmts(ss@, old(self).domains()),
            old(self).next_value + stmts_size(ss@) <= usize::MAX,
            old(self).blocks@.len() + stmts_size(ss@) <= usize::MAX,
        ensures
            final(self).wf(),
            final(self).domains() == names_after_all(ss@, old(self).domains()),
            final(self).scopes@.len() == old(self).scopes@.len(),
            final(self).loop_exits@ == old(self).loop_exits@,
            final(self).first_value == old(self).first_value,
            old(self).next_value <= final(self).next_value,
            old(self).blocks@.len() <= final(self).blocks@.len(),
            final(self).next_value - old(self).next_value + final(self).blocks@.len() - old(
                self,
            ).blocks@.len() <= stmts_size(ss@),
            final(self).state() == lower_stmts_spec(old(self).state(), ss@),
        decreases ss, 0nat,
    {
        let mut k: usize = 0;
        assert(ss@.subrange(0, 0) =~= Seq::<TypedStmt>::empty());
        while k < ss.len()
            invariant
                self.wf(),
                self.domains() == names_after_all(ss@.subrange(0, k as int), old(self).domains()),
                self.scopes@.len() == old(self).scopes@.len(),
                self.loop_exits@ == old(self).loop_exits@,
                self.first_value == old(self).first_value,
                names_ok_stmts(ss@, old(self).domains()),
                old(self).next_value + stmts_size(ss@) <= usize::MAX,
                old(self).blocks@.len() + stmts_size(ss@) <= usize::MAX,
                k <= ss@.len(),
                old(self).next_value <= self.next_value,
                old(self).blocks@.len() <= self.blocks@.len(),
                self.next_value - old(self).next_value + self.blocks@.len() - old(
                    self,
                ).blocks@.len() <= stmts_size(ss@.subrange(0, k as int)),
                self.state() == lower_stmts_spec(old(self).state(), ss@.subrange(0, k as int)),
            decreases ss@.len() - k,
        {
            proof {
                assert(decreases_to!(*ss => ss@));
                assert(decreases_to!(ss@ => ss@[k as int]));
                lemma_size_prefix_stmts(ss@, k + 1);
                lemma_names_ok_prefix(ss@, old(self).domains(), k + 1);
                let sub = ss@.subrange(0, k + 1);
                assert(sub.subrange(0, sub.len() - 1) =~= ss@.subrange(0, k as int));
                assert(sub.drop_last() =~= ss@.subrange(0, k as int));
            }
            self.lower_stmt(&ss[k]);
            k += 1;
        }
        assert(ss@.subrange(0, ss@.len() as int) =~= ss@);
    }

    /// Lowers the statements of a block in a scope of their own.
    fn lower_block(&mut self, ss: &Vec<TypedStmt>)
        requires
            old(self).wf(),
            names_ok_stmts(ss@, old(self).domains().push(Set::<Seq<char>>::empty())),
            old(self).next_value + stmts_size(ss@) <= usize::MAX,
            old(self).blocks@.len() + stmts_size(ss@) <= usize::MAX,
        ensures
            final(self).wf(),
            final(self).domains() == old(self).domains(),
            final(self).scopes@.len() == old(self).scopes@.len(),
            final(self).loop_exits@ == old(self).loop_exits@,
            final(self).first_value == old(self).first_value,
            old(self).next_value <= final(self).next_value,
            old(self).blocks@.len() <= final(self).blocks@.len(),
            final(self).next_value - old(self).next_value + final(self).blocks@.len() - old(
                self,
            ).blocks@.len() <= stmts_size(ss@),
            final(self).state() == lower_block_spec(old(self).state(), ss@),
        decreases ss, 1nat,
    {
        self.enter_scope();
        self.lower_stmts(ss);
        proof {
            lemma_names_after_keeps_outer(ss@, old(self).domains().push(Set::<Seq<char>>::empty()));
            assert(old(self).domains().push(Set::<Seq<char>>::empty()).drop_last() =~= old(self).domains());
        }
        self.exit_scope();
    }

    /// Lowers one statement.
    fn lower_stmt(&mut self, s: &TypedStmt)
        requires
            old(self).wf(),
            names_ok_stmt(*s, old(self).domains()),
            old(self).next_value + stmt_size(*s) <= usize::MAX,
            old(self).blocks@.len() + stmt_size(*s) <= usize::MAX,
        ensures
            final(self).wf(),
            final(self).domains() == names_after(*s, old(self).domains()),
            final(self).scopes@.len() == old(self).scopes@.len(),
            final(self).loop_exits@ == old(self).loop_exits@,
            final(self).first_value == old(self).first_value,
            old(self).next_value <= final(self).next_value,
            old(self).blocks@.len() <= final(self).blocks@.len(),
            final(self).next_value - old(self).next_value + final(self).blocks@.len() - old(
                self,
            ).blocks@.len() <= stmt_size(*s),
            final(self).state() == lower_stmt_spec(old(self).state(), *s),
        decreases s, 0nat,
    {
        match s {
            TypedStmt::Let { name, ty, value, .. } => {
                let op = self.lower_expr(value);
                let dest = self.new_value();
                self.emit(Instruction::Assign { dest, operand: op, ty: ty.duplicate() });
                self.bind_last_in(name, dest);
            },
            TypedStmt::Assign { name, value, .. } => {
                let op = self.lower_expr(value);
                let dest = self.new_value();
                self.emit(Instruction::Assign { dest, operand: op, ty: value.ty() });
                self.set_variable(name, dest);
            },
            TypedStmt::IndexAssign { target, index, value, .. } => {
                let i = self.lower_expr(index);
                let v = self.lower_expr(value);
                self.emit(Instruction::IndexStore { target: target.clone(), index: i, value: v });
            },
            TypedStmt::Return(e, _) => {
                let val = match e {
                    Some(e) => Some(self.lower_expr(e)),
                    None => None,
                };
                self.emit(Instruction::Return { val });
            },
            TypedStmt::Break(_) => {
                let n = self.loop_exits.len();
                if n > 0 {
                    let target = self.loop_exits[n - 1];
                    self.emit(Instruction::Branch { target });
                }
            },
            TypedStmt::Expr(e) => {
                let _ = self.lower_expr(e);
            },
            TypedStmt::If { condition, then_branch, else_branch, .. } => {
                let cond = self.lower_expr(condition);
                let then_bb = self.new_block();
                let else_bb = self.new_block();
                let merge_bb = self.new_block();
                let alt = if else_branch.is_some() {
                    else_bb
                } else {
                    merge_bb
                };
                self.emit(Instruction::BranchIf { cond, then_block: then_bb, else_block: alt });
                self.switch_to_block(then_bb);
                proof {
                    assert(decreases_to!(*s => (*s)->If_then_branch));
                }
                self.lower_block(&then_branch.stmts);
                if !self.current_block_terminated() {
                    self.emit(Instruction::Branch { target: merge_bb });
                }
                match else_branch {
                    Some(eb) => {
                        self.switch_to_block(else_bb);
                        self.lower_block(&eb.stmts);
                        if !self.current_block_terminated() {
                            self.emit(Instruction::Branch { target: merge_bb });
                        }
                    },
                    None => {},
                }
                self.switch_to_block(merge_bb);
            },
            TypedStmt::While { condition, body, .. } => {
                let cond_bb = self.new_block();
                let body_bb = self.new_block();
                let exit_bb = self.new_block();
                self.emit(Instruction::Branch { target: cond_bb });
                self.switch_to_block(cond_bb);
                let cond = self.lower_expr(condition);
                self.emit(Instruction::BranchIf { cond, then_block: body_bb, else_block: exit_bb });
                self.switch_to_block(body_bb);
                self.loop_exits.push(exit_bb);
                proof {
                    assert forall|i: int| 0 <= i < self.loop_exits@.len() implies (
                    #[trigger] self.loop_exits@[i]).0 < self.blocks@.len() by {
                        if i < self.loop_exits@.len() - 1 {
                            assert(self.loop_exits@[i] == old(self).loop_exits@[i]);
                        }
                    }
                }
                self.lower_block(&body.stmts);
                self.loop_exits.pop();
                proof {
                    assert(self.loop_exits@ =~= old(self).loop_exits@);
                }
                if !self.current_block_terminated() {
                    self.emit(Instruction::Branch { target: cond_bb });
                }
                self.switch_to_block(exit_bb);
            },
        }
    }

    /// Lowers a function: its parameters hold the values `v0..vn`, its body
    /// starts in block `bb0`, and a function whose last block does not end in
    /// a jump or a return gets a `ret` there.
    pub fn lower_function(&mut self, func: &TypedFunction) -> (f: IrFunction)
        requires
            lowerable(*func),
        ensures
            function_wf(f),
            f.name == func.name,
            f.return_ty == func.return_ty,
            f.params@.len() == func.params@.len(),
            forall|i: int|
                0 <= i < func.params@.len() ==> (#[trigger] f.params@[i]).name == func.params@[i].name
                    && f.params@[i].ty == func.params@[i].ty,
            blocks_v(f.blocks@) == lowered_blocks(*func),
    {
        let n = func.params.len();
        let mut params: Vec<IrParam> = Vec::new();
        let mut table: NameTable<ValueId> = NameTable::new();
        let mut i: usize = 0;
        assert(param_names(func.params@.subrange(0, 0)) =~= Set::<Seq<char>>::empty());
        while i < n
            invariant
                n == func.params@.len(),
                i <= n,
                table.wf(),
                table.view().dom() == param_names(func.params@.subrange(0, i as int)),
                table.view() == param_scope(func.params@.subrange(0, i as int)),
                params@.len() == i,
                forall|j: int|
                    0 <= j < i ==> (#[trigger] params@[j]).val.0 == j && params@[j].name
                        == func.params@[j].name && params@[j].ty == func.params@[j].ty,
            decreases n - i,
        {
            let p = &func.params[i];
            table.insert(p.name.clone(), ValueId(i));
            params.push(IrParam { name: p.name.clone(), val: ValueId(i), ty: p.ty.duplicate() });
            i += 1;
            proof {
                let sub = func.params@.subrange(0, i as int);
                let prev = func.params@.subrange(0, i - 1);
                assert(sub.drop_last() =~= prev);
                assert forall|nm: Seq<char>| table.view().dom().contains(nm) <==> param_names(sub).contains(nm) by {
                    if nm == sub[i - 1].name@ {
                        assert(param_names(sub).contains(nm));
                    } else if table.view().dom().contains(nm) {
                        let j = choose|j: int| 0 <= j < prev.len() && #[trigger] prev[j].name@ == nm;
                        assert(sub[j] == prev[j]);
                    } else if param_names(sub).contains(nm) {
                        let j = choose|j: int| 0 <= j < sub.len() && #[trigger] sub[j].name@ == nm;
                        assert(prev[j] == sub[j]);
                        assert(param_names(prev).contains(nm));
                    }
                }
                assert(table.view().dom() =~= param_names(sub));
            }
        }
        assert(func.params@.subrange(0, n as int) =~= func.params@);
        let mut blocks: Vec<BasicBlock> = Vec::new();
        blocks.push(BasicBlock { id: BlockId(0), instructions: Vec::new() });
        let mut scopes: Vec<NameTable<ValueId>> = Vec::new();
        scopes.push(table);
        self.blocks = blocks;
        self.scopes = scopes;
        self.next_value = n;
        self.current_block = BlockId(0);
        self.loop_exits = Vec::new();
        self.first_value = Ghost(n as nat);
        proof {
            assert(self.domains() =~= seq![param_names(func.params@)]);
            assert forall|b: int, k: int| !valid_pos(self.blocks@, b, k) by {}
            assert(self.blocks@[0].instructions@.map_values(|i: Instruction| inst_v(i)) =~= Seq::<InstV>::empty());
            assert(blocks_v(self.blocks@) =~= seq![Seq::<InstV>::empty()]);
            assert(self.state().scopes =~= seq![param_scope(func.params@)]);
            assert(self.state() == (LowerState {
                blocks: seq![Seq::empty()],
                cur: 0,
                next: func.params@.len() as int,
                scopes: seq![param_scope(func.params@)],
                exits: Seq::empty(),
            }));
        }
        self.lower_stmts(&func.body.stmts);
        if !self.current_block_terminated() {
            self.emit(Instruction::Return { val: None });
        }
        let ghost final_blocks = blocks_v(self.blocks@);
        assert(final_blocks == lowered_blocks(*func));
        let ghost nv = self.next_value as nat;
        let mut out_blocks: Vec<BasicBlock> = Vec::new();
        core::mem::swap(&mut out_blocks, &mut self.blocks);
        let f = IrFunction {
            name: func.name.clone(),
            params,
            return_ty: func.return_ty.duplicate(),
            blocks: out_blocks,
        };
        assert(blocks_wf(f.blocks@, f.params@.len(), nv));
        assert(blocks_v(f.blocks@) == final_blocks);
        f
    }

    /// Lowers every function of a program.
    pub fn lower_program(&mut self, program: &TypedProgram) -> (p: IrProgram)
        requires
            program_lowerable(*program),
        ensures
            lowered_shape(*program, p),
    {
        let mut functions: Vec<IrFunction> = Vec::new();
        let mut k: usize = 0;
        while k < program.functions.len()
            invariant
                program_lowerable(*program),
                k <= program.functions@.len(),
                functions@.len() == k,
                forall|j: int|
                    0 <= j < k ==> lowered_function_shape(
                        #[trigger] program.functions@[j],
                        functions@[j],
                    ),
            decreases program.functions@.len() - k,
        {
            let f = self.lower_function(&program.functions[k]);
            functions.push(f);
            k += 1;
        }
        IrProgram { functions }
    }

    /// Whether the current block ends in a jump or a return.
    fn current_block_terminated(&self) -> (b: bool)
        requires
            self.wf(),
        ensures
            b == terminated(self.state()),
    {
        proof {
            let bv = blocks_v(self.blocks@);
            assert(bv[self.current_block.0 as int] == self.blocks@[self.current_block.0 as int].instructions@.map_values(|i: Instruction| inst_v(i)));
        }
        let bb = &self.blocks[self.current_block.0];
        let n = bb.instructions.len();
        if n == 0 {
            false
        } else {
            match &bb.instructions[n - 1] {
                Instruction::Return { .. } => true,
                Instruction::Branch { .. } => true,
                Instruction::BranchIf { .. } => true,
                _ => false,
            }
        }
    }
}


/// Lowers a typed program to IR. Every function's blocks are numbered by
/// position, every jump targets one of them, every value is defined once (by
/// a parameter, `v0..vn` in order, or by one instruction), and the blocks'
/// instructions are exactly those that `lowered_blocks` gives.
pub fn lower_to_ir(program: &TypedProgram) -> (p: IrProgram)
    requires
        program_lowerable(*program),
    ensures
        lowered_shape(*program, p),
{
    let mut lowerer = IrLowerer::new();
    lowerer.lower_program(program)
}


// ---------------------------------------------------------------------------
// Checking that a program can be lowered
// ---------------------------------------------------------------------------

pub open spec fn sat_usize(n: nat) -> usize {
    if n >= usize::MAX {
        usize::MAX
    } else {
        n as usize
    }
}

fn sat_add_usize(a: usize, b: usize) -> (r: usize)
    ensures
        r == sat_usize((a + b) as nat),
{
    match a.checked_add(b) {
        Some(c) => {
            if c == usize::MAX {
                usize::MAX
            } else {
                c
            }
        },
        None => usize::MAX,
    }
}

fn size_of_exprs(es: &Vec<TypedExpr>) -> (r: usize)
    ensures
        r == sat_usize(exprs_size(es@)),
    decreases es, 0nat,
{
    let mut acc: usize = 0;
    let mut k: usize = 0;
    assert(es@.subrange(0, 0) =~= Seq::<TypedExpr>::empty());
    while k < es.len()
        invariant
            k <= es@.len(),
            acc == sat_usize(exprs_size(es@.subrange(0, k as int))),
        decreases es@.len() - k,
    {
        proof {
            assert(decreases_to!(*es => es@));
            assert(decreases_to!(es@ => es@[k as int]));
        }
        let e = size_of_expr(&es[k]);
        acc = sat_add_usize(acc, e);
        k += 1;
        proof {
            let sub = es@.subrange(0, k as int);
            assert(sub.subrange(0, sub.len() - 1) =~= es@.subrange(0, k - 1));
        }
    }
    assert(es@.subrange(0, es@.len() as int) =~= es@);
    acc
}

fn size_of_expr(e: &TypedExpr) -> (r: usize)
    ensures
        r == sat_usize(expr_size(*e)),
    decreases e, 1nat,
{
    match e {
        TypedExpr::Unary { expr, .. } => sat_add_usize(1, size_of_expr(expr)),
        TypedExpr::Binary { left, right, .. } => {
            let l = size_of_expr(left);
            let r = size_of_expr(right);
            sat_add_usize(sat_add_usize(1, l), r)
        },
        TypedExpr::Call { args, .. } => {
            proof {
                assert(decreases_to!(*e => (*e)->Call_args));
            }
            sat_add_usize(1, size_of_exprs(args))
        },
        TypedExpr::ArrayLiteral { elements, .. } => {
            proof {
                assert(decreases_to!(*e => (*e)->ArrayLiteral_elements));
            }
            sat_add_usize(1, size_of_exprs(elements))
        },
        TypedExpr::Index { target, index, .. } => {
            let t = size_of_expr(target);
            let i = size_of_expr(index);
            sat_add_usize(sat_add_usize(1, t), i)
        },
        _ => 1,
    }
}

fn size_of_stmts(ss: &Vec<TypedStmt>) -> (r: usize)
    ensures
        r == sat_usize(stmts_size(ss@)),
    decreases ss, 0nat,
{
    let mut acc: usize = 0;
    let mut k: usize = 0;
    assert(ss@.subrange(0, 0) =~= Seq::<TypedStmt>::empty());
    while k < ss.len()
        invariant
            k <= ss@.len(),
            acc == sat_usize(stmts_size(ss@.subrange(0, k as int))),
        decreases ss@.len() - k,
    {
        proof {
            assert(decreases_to!(*ss => ss@));
            assert(decreases_to!(ss@ => ss@[k as int]));
        }
        let e = size_of_stmt(&ss[k]);
        acc = sat_add_usize(acc, e);
        k += 1;
        proof {
            let sub = ss@.subrange(0, k as int);
            assert(sub.subrange(0, sub.len() - 1) =~= ss@.subrange(0, k - 1));
        }
    }
    assert(ss@.subrange(0, ss@.len() as int) =~= ss@);
    acc
}

fn size_of_stmt(s: &TypedStmt) -> (r: usize)
    ensures
        r == sat_usize(stmt_size(*s)),
    decreases s, 1nat,
{
    match s {
        TypedStmt::Let { value, .. } => sat_add_usize(1, size_of_expr(value)),
        TypedStmt::Assign { value, .. } => sat_add_usize(1, size_of_expr(value)),
        TypedStmt::IndexAssign { index, value, .. } => {
            let i = size_of_expr(index);
            let v = size_of_expr(value);
            sat_add_usize(sat_add_usize(1, i), v)
        },
        TypedStmt::Return(Some(e), _) => sat_add_usize(1, size_of_expr(e)),
        TypedStmt::Expr(e) => sat_add_usize(1, size_of_expr(e)),
        TypedStmt::If { condition, then_branch, else_branch, .. } => {
            proof {
                assert(decreases_to!(*s => (*s)->If_then_branch));
            }
            let c = size_of_expr(condition);
            let t = size_of_stmts(&then_branch.stmts);
            let e = match else_branch {
                Some(eb) => size_of_stmts(&eb.stmts),
                None => 0,
            };
            sat_add_usize(sat_add_usize(sat_add_usize(3, c), t), e)
        },
        TypedStmt::While { condition, body, .. } => {
            let c = size_of_expr(condition);
            let b = size_of_stmts(&body.stmts);
            sat_add_usize(sat_add_usize(3, c), b)
        },
        _ => 1,
    }
}

/// The names bound in each scope.
pub open spec fn doms(scopes: Seq<NameTable<bool>>) -> Seq<Set<Seq<char>>> {
    Seq::new(scopes.len(), |i: int| scopes[i].view().dom())
}

pub open spec fn tables_wf(scopes: Seq<NameTable<bool>>) -> bool {
    forall|i: int| 0 <= i < scopes.len() ==> (#[trigger] scopes[i]).wf()
}

fn is_bound(scopes: &Vec<NameTable<bool>>, name: &String) -> (b: bool)
    requires
        tables_wf(scopes@),
    ensures
        b == bound(doms(scopes@), name@),
{
    let ghost d = doms(scopes@);
    let mut k: usize = 0;
    while k < scopes.len()
        invariant
            k <= scopes@.len(),
            tables_wf(scopes@),
            d == doms(scopes@),
            forall|j: int| 0 <= j < k ==> !(#[trigger] d[j]).contains(name@),
        decreases scopes@.len() - k,
    {
        if scopes[k].get(name).is_some() {
            proof {
                assert(d[k as int].contains(name@));
            }
            return true;
        }
        k += 1;
    }
    false
}

fn names_in_all(es: &Vec<TypedExpr>, scopes: &Vec<NameTable<bool>>) -> (b: bool)
    requires
        tables_wf(scopes@),
    ensures
        b == names_ok_all(es@, doms(scopes@)),
    decreases es, 0nat,
{
    let mut k: usize = 0;
    while k < es.len()
        invariant
            k <= es@.len(),
            tables_wf(scopes@),
            forall|j: int| 0 <= j < k ==> names_ok_expr(#[trigger] es@[j], doms(scopes@)),
        decreases es@.len() - k,
    {
        proof {
            assert(decreases_to!(*es => es@));
            assert(decreases_to!(es@ => es@[k as int]));
        }
        if !names_in_expr(&es[k], scopes) {
            return false;
        }
        k += 1;
    }
    true
}

fn names_in_expr(e: &TypedExpr, scopes: &Vec<NameTable<bool>>) -> (b: bool)
    requires
        tables_wf(scopes@),
    ensures
        b == names_ok_expr(*e, doms(scopes@)),
    decreases e, 1nat,
{
    match e {
        TypedExpr::Ident { name, .. } => is_bound(scopes, name),
        TypedExpr::Unary { expr, .. } => names_in_expr(expr, scopes),
        TypedExpr::Binary { left, right, .. } => names_in_expr(left, scopes) && names_in_expr(
            right,
            scopes,
        ),
        TypedExpr::Call { args, .. } => {
            proof {
                assert(decreases_to!(*e => (*e)->Call_args));
            }
            names_in_all(args, scopes)
        },
        TypedExpr::ArrayLiteral { elements, .. } => {
            proof {
                assert(decreases_to!(*e => (*e)->ArrayLiteral_elements));
            }
            names_in_all(elements, scopes)
        },
        TypedExpr::Index { target, index, .. } => names_in_expr(target, scopes) && names_in_expr(
            index,
            scopes,
        ),
        _ => true,
    }
}

fn bind_last_table(scopes: &mut Vec<NameTable<bool>>, name: &String)
    requires
        tables_wf(old(scopes)@),
        old(scopes)@.len() >= 1,
    ensures
        tables_wf(final(scopes)@),
        doms(final(scopes)@) == bind_last(doms(old(scopes)@), name@),
        final(scopes)@.len() == old(scopes)@.len(),
{
    let mut t = scopes.pop().unwrap();
    t.insert(name.clone(), true);
    scopes.push(t);
    assert(doms(scopes@) =~= bind_last(doms(old(scopes)@), name@));
}

/// Whether the statements `ss` read only bound names; the scopes are updated
/// as lowering would update them.
fn names_in_stmts(ss: &Vec<TypedStmt>, scopes: &mut Vec<NameTable<bool>>) -> (b: bool)
    requires
        tables_wf(old(scopes)@),
        old(scopes)@.len() >= 1,
    ensures
        tables_wf(final(scopes)@),
        b == names_ok_stmts(ss@, doms(old(scopes)@)),
        b ==> doms(final(scopes)@) == names_after_all(ss@, doms(old(scopes)@)),
        b ==> final(scopes)@.len() == old(scopes)@.len(),
    decreases ss, 0nat,
{
    let mut k: usize = 0;
    let ghost d0 = doms(scopes@);
    assert(ss@.subrange(0, 0) =~= Seq::<TypedStmt>::empty());
    while k < ss.len()
        invariant
            k <= ss@.len(),
            tables_wf(scopes@),
            scopes@.len() == old(scopes)@.len(),
            scopes@.len() >= 1,
            d0 == doms(old(scopes)@),
            names_ok_stmts(ss@.subrange(0, k as int), d0),
            doms(scopes@) == names_after_all(ss@.subrange(0, k as int), d0),
        decreases ss@.len() - k,
    {
        proof {
            assert(decreases_to!(*ss => ss@));
            assert(decreases_to!(ss@ => ss@[k as int]));
            let sub = ss@.subrange(0, k + 1);
            assert(sub.subrange(0, sub.len() - 1) =~= ss@.subrange(0, k as int));
            assert(sub.drop_last() =~= ss@.subrange(0, k as int));
        }
        if !names_in_stmt(&ss[k], scopes) {
            proof {
                if names_ok_stmts(ss@, d0) {
                    lemma_names_ok_prefix(ss@, d0, k + 1);
                }
            }
            return false;
        }
        k += 1;
    }
    assert(ss@.subrange(0, ss@.len() as int) =~= ss@);
    true
}

fn names_in_stmt(s: &TypedStmt, scopes: &mut Vec<NameTable<bool>>) -> (b: bool)
    requires
        tables_wf(old(scopes)@),
        old(scopes)@.len() >= 1,
    ensures
        tables_wf(final(scopes)@),
        b == names_ok_stmt(*s, doms(old(scopes)@)),
        b ==> doms(final(scopes)@) == names_after(*s, doms(old(scopes)@)),
        b ==> final(scopes)@.len() == old(scopes)@.len(),
    decreases s, 1nat,
{
    match s {
        TypedStmt::Let { name, value, .. } => {
            if !names_in_expr(value, scopes) {
                return false;
            }
            bind_last_table(scopes, name);
            true
        },
        TypedStmt::Assign { name, value, .. } => {
            if !names_in_expr(value, scopes) {
                return false;
            }
            if !is_bound(scopes, name) {
                bind_last_table(scopes, name);
            }
            true
        },
        TypedStmt::IndexAssign { index, value, .. } => names_in_expr(index, scopes)
            && names_in_expr(value, scopes),
        TypedStmt::Return(Some(e), _) => names_in_expr(e, scopes),
        TypedStmt::Expr(e) => names_in_expr(e, scopes),
        TypedStmt::If { condition, then_branch, else_branch, .. } => {
            if !names_in_expr(condition, scopes) {
                return false;
            }
            proof {
                assert(decreases_to!(*s => (*s)->If_then_branch));
            }
            if !names_in_block(&then_branch.stmts, scopes) {
                return false;
            }
            match else_branch {
                Some(eb) => names_in_block(&eb.stmts, scopes),
                None => true,
            }
        },
        TypedStmt::While { condition, body, .. } => {
            if !names_in_expr(condition, scopes) {
                return false;
            }
            names_in_block(&body.stmts, scopes)
        },
        _ => true,
    }
}

fn names_in_block(ss: &Vec<TypedStmt>, scopes: &mut Vec<NameTable<bool>>) -> (b: bool)
    requires
        tables_wf(old(scopes)@),
        old(scopes)@.len() >= 1,
    ensures
        tables_wf(final(scopes)@),
        b == names_ok_stmts(ss@, doms(old(scopes)@).push(Set::<Seq<char>>::empty())),
        b ==> doms(final(scopes)@) == doms(old(scopes)@),
        b ==> final(scopes)@.len() == old(scopes)@.len(),
    decreases ss, 1nat,
{
    scopes.push(NameTable::new());
    proof {
        assert(doms(scopes@) =~= doms(old(scopes)@).push(Set::<Seq<char>>::empty()));
    }
    let ok = names_in_stmts(ss, scopes);
    if ok {
        let ghost inner = doms(scopes@);
        proof {
            lemma_names_after_keeps_outer(ss@, doms(old(scopes)@).push(Set::<Seq<char>>::empty()));
        }
        scopes.pop();
        proof {
            assert(doms(scopes@) =~= inner.drop_last());
            assert(doms(old(scopes)@).push(Set::<Seq<char>>::empty()).drop_last() =~= doms(old(scopes)@));
        }
    }
    ok
}

/// Whether `f` can be lowered (`lowerable`).
pub fn can_lower_function(f: &TypedFunction) -> (b: bool)
    ensures
        b == lowerable(*f),
{
    let mut table: NameTable<bool> = NameTable::new();
    let mut i: usize = 0;
    assert(param_names(f.params@.subrange(0, 0)) =~= Set::<Seq<char>>::empty());
    while i < f.params.len()
        invariant
            i <= f.params@.len(),
            table.wf(),
            table.view().dom() == param_names(f.params@.subrange(0, i as int)),
        decreases f.params@.len() - i,
    {
        table.insert(f.params[i].name.clone(), true);
        i += 1;
        proof {
            let sub = f.params@.subrange(0, i as int);
            let prev = f.params@.subrange(0, i - 1);
            assert forall|nm: Seq<char>| table.view().dom().contains(nm) <==> param_names(sub).contains(nm) by {
                if nm == sub[i - 1].name@ {
                    assert(param_names(sub).contains(nm));
                } else if table.view().dom().contains(nm) {
                    let j = choose|j: int| 0 <= j < prev.len() && #[trigger] prev[j].name@ == nm;
                    assert(sub[j] == prev[j]);
                } else if param_names(sub).contains(nm) {
                    let j = choose|j: int| 0 <= j < sub.len() && #[trigger] sub[j].name@ == nm;
                    assert(prev[j] == sub[j]);
                    assert(param_names(prev).contains(nm));
                }
            }
            assert(table.view().dom() =~= param_names(sub));
        }
    }
    assert(f.params@.subrange(0, f.params@.len() as int) =~= f.params@);
    let mut scopes: Vec<NameTable<bool>> = Vec::new();
    scopes.push(table);
    assert(doms(scopes@) =~= seq![param_names(f.params@)]);
    let names = names_in_stmts(&f.body.stmts, &mut scopes);
    let body = size_of_stmts(&f.body.stmts);
    let size = sat_add_usize(sat_add_usize(1, f.params.len()), body);
    names && size < usize::MAX
}

/// Whether every function of the program can be lowered.
pub fn can_lower(program: &TypedProgram) -> (b: bool)
    ensures
        b == program_lowerable(*program),
{
    let mut k: usize = 0;
    while k < program.functions.len()
        invariant
            k <= program.functions@.len(),
            forall|j: int| 0 <= j < k ==> lowerable(#[trigger] program.functions@[j]),
        decreases program.functions@.len() - k,
    {
        if !can_lower_function(&program.functions[k]) {
            return false;
        }
        k += 1;
    }
    true
}
} // verus!
