//! A control-flow graph intermediate representation: functions made of
//! basic blocks of instructions over numbered values.

pub mod lower;

use vstd::prelude::*;
use crate::text::{dec_digits, int_text, push_i64, push_usize};
use crate::typecheck::types::{Type, type_text};

verus! {

/// A value computed once, by a parameter or an instruction.
#[derive(Debug, Clone, Copy, PartialEq, Eq, Hash, Structural)]
pub struct ValueId(pub usize);

/// A basic block of a function, numbered from `0` in creation order.
#[derive(Debug, Clone, Copy, PartialEq, Eq, Hash, Structural)]
pub struct BlockId(pub usize);

#[derive(Debug, PartialEq)]
pub enum Operand {
    Value(ValueId),
    IntConst(i64, Type),
    /// A decimal constant, kept as its source text.
    FloatConst(String, Type),
    BoolConst(bool),
}

#[derive(Debug, Clone, Copy, PartialEq, Eq, Structural)]
pub enum IrOp {
    Add,
    Sub,
    Mul,
    Div,
    Mod,
    Pow,
    Neg,
    Not,
    Eq,
    Ne,
    Lt,
    Le,
    Gt,
    Ge,
    BitAnd,
    BitOr,
    BitXor,
    Shl,
    Shr,
}

#[derive(Debug, PartialEq)]
pub enum Instruction {
    Binary { dest: ValueId, op: IrOp, ty: Type, left: Operand, right: Operand },
    Unary { dest: ValueId, op: IrOp, ty: Type, operand: Operand },
    Call { dest: Option<ValueId>, callee: String, args: Vec<Operand>, return_ty: Type },
    Assign { dest: ValueId, operand: Operand, ty: Type },
    Branch { target: BlockId },
    BranchIf { cond: Operand, then_block: BlockId, else_block: BlockId },
    Return { val: Option<Operand> },
    IndexLoad { dest: ValueId, target: Operand, index: Operand, ty: Type },
    IndexStore { target: String, index: Operand, value: Operand },
}

#[derive(Debug, PartialEq)]
pub struct BasicBlock {
    pub id: BlockId,
    pub instructions: Vec<Instruction>,
}

#[derive(Debug, PartialEq)]
pub struct IrParam {
    pub name: String,
    pub val: ValueId,
    pub ty: Type,
}

#[derive(Debug, PartialEq)]
pub struct IrFunction {
    pub name: String,
    pub params: Vec<IrParam>,
    pub return_ty: Type,
    pub blocks: Vec<BasicBlock>,
}

#[derive(Debug, PartialEq)]
pub struct IrProgram {
    pub functions: Vec<IrFunction>,
}

// ---------------------------------------------------------------------------
// Structure
// ---------------------------------------------------------------------------

/// The value an instruction defines, if any.
pub open spec fn inst_dest(i: Instruction) -> Option<usize> {
    match i {
        Instruction::Binary { dest, .. } => Some(dest.0),
        Instruction::Unary { dest, .. } => Some(dest.0),
        Instruction::Call { dest, .. } => match dest {
            Some(d) => Some(d.0),
            None => None,
        },
        Instruction::Assign { dest, .. } => Some(dest.0),
        Instruction::IndexLoad { dest, .. } => Some(dest.0),
        _ => None,
    }
}

/// Every block an instruction may jump to is below `n`.
pub open spec fn targets_below(i: Instruction, n: nat) -> bool {
    match i {
        Instruction::Branch { target } => target.0 < n,
        Instruction::BranchIf { then_block, else_block, .. } => then_block.0 < n && else_block.0
            < n,
        _ => true,
    }
}

/// The instructions of a function, block by block.
pub open spec fn inst_at(blocks: Seq<BasicBlock>, b: int, k: int) -> Instruction {
    blocks[b].instructions@[k]
}

pub open spec fn valid_pos(blocks: Seq<BasicBlock>, b: int, k: int) -> bool {
    0 <= b < blocks.len() && 0 <= k < blocks[b].instructions@.len()
}

/// The blocks are numbered by their position, every jump goes to one of
/// them, and every value defined by an instruction is below `next_value`,
/// at least `first_value`, and defined nowhere else.
pub open spec fn blocks_wf(blocks: Seq<BasicBlock>, first_value: nat, next_value: nat) -> bool {
    &&& forall|b: int| 0 <= b < blocks.len() ==> (#[trigger] blocks[b]).id.0 == b
    &&& forall|b: int, k: int|
        valid_pos(blocks, b, k) ==> targets_below(#[trigger] inst_at(blocks, b, k), blocks.len())
    &&& forall|b: int, k: int|
        valid_pos(blocks, b, k) && inst_dest(#[trigger] inst_at(blocks, b, k)) is Some ==> {
            let d = inst_dest(inst_at(blocks, b, k)).unwrap();
            first_value <= d < next_value
        }
    &&& forall|b1: int, k1: int, b2: int, k2: int|
        valid_pos(blocks, b1, k1) && valid_pos(blocks, b2, k2) && inst_dest(
            #[trigger] inst_at(blocks, b1, k1),
        ) is Some && inst_dest(inst_at(blocks, b1, k1)) == inst_dest(
            #[trigger] inst_at(blocks, b2, k2),
        ) ==> b1 == b2 && k1 == k2
}

/// A function is well formed: its parameters hold the values `0..n` in
/// order, and its blocks satisfy `blocks_wf` above them.
pub open spec fn function_wf(f: IrFunction) -> bool {
    &&& forall|i: int| 0 <= i < f.params@.len() ==> (#[trigger] f.params@[i]).val.0 == i
    &&& f.blocks@.len() >= 1
    &&& exists|n: nat| #[trigger] blocks_wf(f.blocks@, f.params@.len(), n)
}

// ---------------------------------------------------------------------------
// Text
// ---------------------------------------------------------------------------

pub open spec fn value_text(v: ValueId) -> Seq<char> {
    "v"@ + dec_digits(v.0 as nat)
}

pub open spec fn block_text(b: BlockId) -> Seq<char> {
    "bb"@ + dec_digits(b.0 as nat)
}

pub open spec fn bool_text(b: bool) -> Seq<char> {
    if b {
        "true"@
    } else {
        "false"@
    }
}

pub open spec fn operand_text(o: Operand) -> Seq<char> {
    match o {
        Operand::Value(v) => value_text(v),
        Operand::IntConst(n, ty) => int_text(n as int) + ":"@ + type_text(ty),
        Operand::FloatConst(f, ty) => f@ + ":"@ + type_text(ty),
        Operand::BoolConst(b) => bool_text(b),
    }
}

pub open spec fn op_text(op: IrOp) -> Seq<char> {
    match op {
        IrOp::Add => "add"@,
        IrOp::Sub => "sub"@,
        IrOp::Mul => "mul"@,
        IrOp::Div => "div"@,
        IrOp::Mod => "mod"@,
        IrOp::Pow => "pow"@,
        IrOp::Neg => "neg"@,
        IrOp::Not => "not"@,
        IrOp::Eq => "eq"@,
        IrOp::Ne => "ne"@,
        IrOp::Lt => "lt"@,
        IrOp::Le => "le"@,
        IrOp::Gt => "gt"@,
        IrOp::Ge => "ge"@,
        IrOp::BitAnd => "band"@,
        IrOp::BitOr => "bor"@,
        IrOp::BitXor => "bxor"@,
        IrOp::Shl => "shl"@,
        IrOp::Shr => "shr"@,
    }
}

/// The operands separated by `", "`.
pub open spec fn operands_text(os: Seq<Operand>) -> Seq<char>
    decreases os.len(),
{
    if os.len() == 0 {
        Seq::empty()
    } else if os.len() == 1 {
        operand_text(os[0])
    } else {
        operands_text(os.drop_last()) + ", "@ + operand_text(os.last())
    }
}

/// The line of an instruction, without its indentation.
pub open spec fn inst_text(i: Instruction) -> Seq<char> {
    match i {
        Instruction::Binary { dest, op, ty, left, right } => value_text(dest) + " = "@ + type_text(
            ty,
        ) + "."@ + op_text(op) + " "@ + operand_text(left) + ", "@ + operand_text(right) + "\n"@,
        Instruction::Unary { dest, op, ty, operand } => value_text(dest) + " = "@ + type_text(ty)
            + "."@ + op_text(op) + " "@ + operand_text(operand) + "\n"@,
        Instruction::Call { dest, callee, args, return_ty } => (match dest {
            Some(d) => value_text(d) + " = "@,
            None => Seq::empty(),
        }) + "call "@ + callee@ + "("@ + operands_text(args@) + ") : "@ + type_text(return_ty)
            + "\n"@,
        Instruction::Assign { dest, operand, ty } => value_text(dest) + " = assign:"@ + type_text(
            ty,
        ) + ", "@ + operand_text(operand) + "\n"@,
        Instruction::Branch { target } => "br "@ + block_text(target) + "\n"@,
        Instruction::BranchIf { cond, then_block, else_block } => "brif "@ + operand_text(cond)
            + ", "@ + block_text(then_block) + ", "@ + block_text(else_block) + "\n"@,
        Instruction::Return { val } => match val {
            Some(o) => "ret "@ + operand_text(o) + "\n"@,
            None => "ret\n"@,
        },
        Instruction::IndexLoad { dest, target, index, ty } => value_text(dest) + " = "@ + type_text(
            ty,
        ) + ".index "@ + operand_text(target) + ", "@ + operand_text(index) + "\n"@,
        Instruction::IndexStore { target, index, value } => "index_store "@ + target@ + "["@
            + operand_text(index) + "], "@ + operand_text(value) + "\n"@,
    }
}

pub open spec fn insts_text(is: Seq<Instruction>) -> Seq<char>
    decreases is.len(),
{
    if is.len() == 0 {
        Seq::empty()
    } else {
        insts_text(is.drop_last()) + "    "@ + inst_text(is.last())
    }
}

pub open spec fn blocks_text(bs: Seq<BasicBlock>) -> Seq<char>
    decreases bs.len(),
{
    if bs.len() == 0 {
        Seq::empty()
    } else {
        blocks_text(bs.drop_last()) + "  "@ + block_text(bs.last().id) + ":\n"@ + insts_text(
            bs.last().instructions@,
        )
    }
}

pub open spec fn param_text(p: IrParam) -> Seq<char> {
    p.name@ + ": "@ + type_text(p.ty) + " ("@ + value_text(p.val) + ")"@
}

pub open spec fn params_text(ps: Seq<IrParam>) -> Seq<char>
    decreases ps.len(),
{
    if ps.len() == 0 {
        Seq::empty()
    } else if ps.len() == 1 {
        param_text(ps[0])
    } else {
        params_text(ps.drop_last()) + ", "@ + param_text(ps.last())
    }
}

pub open spec fn function_text(f: IrFunction) -> Seq<char> {
    "function "@ + f.name@ + "("@ + params_text(f.params@) + ") -> "@ + type_text(f.return_ty)
        + " {\n"@ + blocks_text(f.blocks@) + "}\n\n"@
}

pub open spec fn program_text(fs: Seq<IrFunction>) -> Seq<char>
    decreases fs.len(),
{
    if fs.len() == 0 {
        Seq::empty()
    } else {
        program_text(fs.drop_last()) + function_text(fs.last())
    }
}

fn push_str(out: &mut String, s: &str)
    ensures
        final(out)@ == old(out)@ + s@,
{
    out.append(s);
}

fn push_value(out: &mut String, v: ValueId)
    ensures
        final(out)@ == old(out)@ + value_text(v),
{
    push_str(out, "v");
    push_usize(out, v.0);
    assert(final(out)@ =~= old(out)@ + value_text(v));
}

fn push_block(out: &mut String, b: BlockId)
    ensures
        final(out)@ == old(out)@ + block_text(b),
{
    push_str(out, "bb");
    push_usize(out, b.0);
    assert(final(out)@ =~= old(out)@ + block_text(b));
}

fn push_operand(out: &mut String, o: &Operand)
    ensures
        final(out)@ == old(out)@ + operand_text(*o),
{
    match o {
        Operand::Value(v) => push_value(out, *v),
        Operand::IntConst(n, ty) => {
            push_i64(out, *n);
            push_str(out, ":");
            ty.push_name(out);
            assert(final(out)@ =~= old(out)@ + operand_text(*o));
        },
        Operand::FloatConst(f, ty) => {
            push_str(out, f.as_str());
            push_str(out, ":");
            ty.push_name(out);
            assert(final(out)@ =~= old(out)@ + operand_text(*o));
        },
        Operand::BoolConst(b) => {
            if *b {
                push_str(out, "true");
            } else {
                push_str(out, "false");
            }
        },
    }
}

fn op_name(op: IrOp) -> (s: &'static str)
    ensures
        s@ == op_text(op),
{
    match op {
        IrOp::Add => "add",
        IrOp::Sub => "sub",
        IrOp::Mul => "mul",
        IrOp::Div => "div",
        IrOp::Mod => "mod",
        IrOp::Pow => "pow",
        IrOp::Neg => "neg",
        IrOp::Not => "not",
        IrOp::Eq => "eq",
        IrOp::Ne => "ne",
        IrOp::Lt => "lt",
        IrOp::Le => "le",
        IrOp::Gt => "gt",
        IrOp::Ge => "ge",
        IrOp::BitAnd => "band",
        IrOp::BitOr => "bor",
        IrOp::BitXor => "bxor",
        IrOp::Shl => "shl",
        IrOp::Shr => "shr",
    }
}

fn push_operands(out: &mut String, os: &Vec<Operand>)
    ensures
        final(out)@ == old(out)@ + operands_text(os@),
{
    let mut i: usize = 0;
    let ghost start = out@;
    while i < os.len()
        invariant
            i <= os@.len(),
            out@ == start + operands_text(os@.subrange(0, i as int)),
        decreases os@.len() - i,
    {
        let ghost before = out@;
        if i > 0 {
            push_str(out, ", ");
        }
        push_operand(out, &os[i]);
        i += 1;
        proof {
            let sub = os@.subrange(0, i as int);
            assert(sub.drop_last() =~= os@.subrange(0, i - 1));
            if i == 1 {
                assert(operands_text(os@.subrange(0, 0)) =~= Seq::<char>::empty());
            }
            assert(out@ =~= start + operands_text(sub));
        }
    }
    assert(os@.subrange(0, os@.len() as int) =~= os@);
}

#[verifier::spinoff_prover]
#[verifier::rlimit(40)]
fn push_inst(out: &mut String, inst: &Instruction)
    ensures
        final(out)@ == old(out)@ + inst_text(*inst),
{
    match inst {
        Instruction::Binary { dest, op, ty, left, right } => {
            push_value(out, *dest);
            push_str(out, " = ");
            ty.push_name(out);
            push_str(out, ".");
            push_str(out, op_name(*op));
            push_str(out, " ");
            push_operand(out, left);
            push_str(out, ", ");
            push_operand(out, right);
            push_str(out, "\n");
        },
        Instruction::Unary { dest, op, ty, operand } => {
            push_value(out, *dest);
            push_str(out, " = ");
            ty.push_name(out);
            push_str(out, ".");
            push_str(out, op_name(*op));
            push_str(out, " ");
            push_operand(out, operand);
            push_str(out, "\n");
        },
        Instruction::Call { dest, callee, args, return_ty } => {
            match dest {
                Some(d) => {
                    push_value(out, *d);
                    push_str(out, " = ");
                },
                None => {},
            }
            push_str(out, "call ");
            push_str(out, callee.as_str());
            push_str(out, "(");
            push_operands(out, args);
            push_str(out, ") : ");
            return_ty.push_name(out);
            push_str(out, "\n");
        },
        Instruction::Assign { dest, operand, ty } => {
            push_value(out, *dest);
            push_str(out, " = assign:");
            ty.push_name(out);
            push_str(out, ", ");
            push_operand(out, operand);
            push_str(out, "\n");
        },
        Instruction::Branch { target } => {
            push_str(out, "br ");
            push_block(out, *target);
            push_str(out, "\n");
        },
        Instruction::BranchIf { cond, then_block, else_block } => {
            push_str(out, "brif ");
            push_operand(out, cond);
            push_str(out, ", ");
            push_block(out, *then_block);
            push_str(out, ", ");
            push_block(out, *else_block);
            push_str(out, "\n");
        },
        Instruction::Return { val } => match val {
            Some(o) => {
                push_str(out, "ret ");
                push_operand(out, o);
                push_str(out, "\n");
            },
            None => {
                push_str(out, "ret\n");
            },
        },
        Instruction::IndexLoad { dest, target, index, ty } => {
            push_value(out, *dest);
            push_str(out, " = ");
            ty.push_name(out);
            push_str(out, ".index ");
            push_operand(out, target);
            push_str(out, ", ");
            push_operand(out, index);
            push_str(out, "\n");
        },
        Instruction::IndexStore { target, index, value } => {
            push_str(out, "index_store ");
            push_str(out, target.as_str());
            push_str(out, "[");
            push_operand(out, index);
            push_str(out, "], ");
            push_operand(out, value);
            push_str(out, "\n");
        },
    }
    assert(final(out)@ =~= old(out)@ + inst_text(*inst));
}

fn push_function(out: &mut String, f: &IrFunction)
    ensures
        final(out)@ == old(out)@ + function_text(*f),
{
    let ghost start = out@;
    push_str(out, "function ");
    push_str(out, f.name.as_str());
    push_str(out, "(");
    let ghost p0 = out@;
    let mut i: usize = 0;
    while i < f.params.len()
        invariant
            i <= f.params@.len(),
            out@ == p0 + params_text(f.params@.subrange(0, i as int)),
        decreases f.params@.len() - i,
    {
        if i > 0 {
            push_str(out, ", ");
        }
        let p = &f.params[i];
        push_str(out, p.name.as_str());
        push_str(out, ": ");
        p.ty.push_name(out);
        push_str(out, " (");
        push_value(out, p.val);
        push_str(out, ")");
        i += 1;
        proof {
            let sub = f.params@.subrange(0, i as int);
            assert(sub.drop_last() =~= f.params@.subrange(0, i - 1));
            if i == 1 {
                assert(params_text(f.params@.subrange(0, 0)) =~= Seq::<char>::empty());
            }
            assert(out@ =~= p0 + params_text(sub));
        }
    }
    assert(f.params@.subrange(0, f.params@.len() as int) =~= f.params@);
    push_str(out, ") -> ");
    f.return_ty.push_name(out);
    push_str(out, " {\n");
    let ghost b0 = out@;
    let mut b: usize = 0;
    while b < f.blocks.len()
        invariant
            b <= f.blocks@.len(),
            out@ == b0 + blocks_text(f.blocks@.subrange(0, b as int)),
        decreases f.blocks@.len() - b,
    {
        let block = &f.blocks[b];
        push_str(out, "  ");
        push_block(out, block.id);
        push_str(out, ":\n");
        let ghost i0 = out@;
        let mut k: usize = 0;
        while k < block.instructions.len()
            invariant
                k <= block.instructions@.len(),
                out@ == i0 + insts_text(block.instructions@.subrange(0, k as int)),
            decreases block.instructions@.len() - k,
        {
            push_str(out, "    ");
            push_inst(out, &block.instructions[k]);
            k += 1;
            proof {
                let sub = block.instructions@.subrange(0, k as int);
                assert(sub.drop_last() =~= block.instructions@.subrange(0, k - 1));
                assert(out@ =~= i0 + insts_text(sub));
            }
        }
        assert(block.instructions@.subrange(0, block.instructions@.len() as int)
            =~= block.instructions@);
        b += 1;
        proof {
            let sub = f.blocks@.subrange(0, b as int);
            assert(sub.drop_last() =~= f.blocks@.subrange(0, b - 1));
            assert(out@ =~= b0 + blocks_text(sub));
        }
    }
    assert(f.blocks@.subrange(0, f.blocks@.len() as int) =~= f.blocks@);
    push_str(out, "}\n\n");
    assert(out@ =~= start + function_text(*f));
}

/// The program as text: each function's header, then each block's label
/// and instructions, one per line.
pub fn format_ir(program: &IrProgram) -> (s: String)
    ensures
        s@ == program_text(program.functions@),
{
    let mut out = String::new();
    let mut i: usize = 0;
    while i < program.functions.len()
        invariant
            i <= program.functions@.len(),
            out@ == program_text(program.functions@.subrange(0, i as int)),
        decreases program.functions@.len() - i,
    {
        push_function(&mut out, &program.functions[i]);
        i += 1;
        proof {
            let sub = program.functions@.subrange(0, i as int);
            assert(sub.drop_last() =~= program.functions@.subrange(0, i - 1));
        }
    }
    assert(program.functions@.subrange(0, program.functions@.len() as int)
        =~= program.functions@);
    out
}

} // verus!
