use vstd::prelude::*;

use crate::codegen::asm_ast::{AsmBinaryOp, AsmCondCode, AsmOperand, AsmRegister, AsmUnaryOp, SpecAsmInstruction};
use crate::common::{BinaryOp, TempId, UnaryOp};
use crate::ir::ir_ast::{lowerable, lowered, IRVal, Label, SpecIRInstruction};

verus! {

/// What a C operation computes on two `int` values: arithmetic as written,
/// division truncating toward zero with the remainder taking the sign of
/// the dividend, and relations giving 1 or 0.
pub open spec fn c_binary(op: BinaryOp, x: int, y: int) -> int {
    match op {
        BinaryOp::Add => x + y,
        BinaryOp::Sub => x - y,
        BinaryOp::Mul => x * y,
        BinaryOp::Div => trunc_div(x, y),
        BinaryOp::Mod => x - trunc_div(x, y) * y,
        BinaryOp::Eq => if x == y { 1 } else { 0 },
        BinaryOp::Neq => if x != y { 1 } else { 0 },
        BinaryOp::Less => if x < y { 1 } else { 0 },
        BinaryOp::Greater => if x > y { 1 } else { 0 },
        BinaryOp::Leq => if x <= y { 1 } else { 0 },
        BinaryOp::Geq => if x >= y { 1 } else { 0 },
        _ => 0,
    }
}

/// What a C unary operation computes on an `int` value in two's complement.
pub open spec fn c_unary(op: UnaryOp, x: int) -> int {
    match op {
        UnaryOp::Negation => -x,
        UnaryOp::BitwiseNot => -x - 1,
        UnaryOp::LogicalNot => if x == 0 { 1 } else { 0 },
        UnaryOp::Decrement => x - 1,
    }
}

/// The magnitude of `x`.
pub open spec fn magnitude(x: int) -> nat {
    if x < 0 { (-x) as nat } else { x as nat }
}

/// `x / y` rounded toward zero.
pub open spec fn trunc_div(x: int, y: int) -> int {
    let q = (magnitude(x) / magnitude(y)) as int;
    if (x < 0) == (y < 0) { q } else { -q }
}

/// The state of the machine: the value in each register and memory
/// location, and the difference that the last comparison computed.
pub struct MachineState {
    pub locations: Map<AsmOperand, int>,
    pub compared: int,
}

/// The value an operand reads: an immediate is its own value.
pub open spec fn read(st: MachineState, o: AsmOperand) -> int {
    match o {
        AsmOperand::Imm(n) => n as int,
        _ => st.locations[o],
    }
}

/// The state with `v` written to the location `o`.
pub open spec fn write(st: MachineState, o: AsmOperand, v: int) -> MachineState {
    MachineState { locations: st.locations.insert(o, v), compared: st.compared }
}

/// Whether a condition code holds of the difference `d` that a comparison
/// computed (destination minus source).
pub open spec fn condition_holds(cc: AsmCondCode, d: int) -> bool {
    match cc {
        AsmCondCode::E => d == 0,
        AsmCondCode::NE => d != 0,
        AsmCondCode::L => d < 0,
        AsmCondCode::LE => d <= 0,
        AsmCondCode::G => d > 0,
        AsmCondCode::GE => d >= 0,
    }
}

/// `%eax` as the low half of the 64-bit dividend `%edx:%eax`.
pub open spec fn low_half(v: int) -> int {
    if v < 0 { v + 0x1_0000_0000 } else { v }
}

/// What one instruction does to the machine, for the instructions that
/// compute values (AT&T order: the destination is the last operand).
/// Values are unbounded integers, which is what x86-64 computes as long as
/// no result leaves 32 bits. Other instructions leave the state unchanged.
pub open spec fn execute(st: MachineState, i: SpecAsmInstruction) -> MachineState {
    match i {
        SpecAsmInstruction::Mov(src, dst) => write(st, dst, read(st, src)),
        SpecAsmInstruction::Unary(op, dst) => match op {
            AsmUnaryOp::Neg => write(st, dst, -read(st, dst)),
            AsmUnaryOp::Not => write(st, dst, -read(st, dst) - 1),
        },
        SpecAsmInstruction::Binary(op, src, dst) => match op {
            AsmBinaryOp::Add => write(st, dst, read(st, dst) + read(st, src)),
            AsmBinaryOp::Sub => write(st, dst, read(st, dst) - read(st, src)),
            AsmBinaryOp::Imul => write(st, dst, read(st, dst) * read(st, src)),
        },
        SpecAsmInstruction::Cmp(src, dst) => MachineState { locations: st.locations, compared: read(st, dst) - read(st, src) },
        SpecAsmInstruction::SetCC(cc, dst) => write(st, dst, if condition_holds(cc, st.compared) { 1 } else { 0 }),
        SpecAsmInstruction::Cdq => write(
            st,
            AsmOperand::Register(AsmRegister::Edx),
            if read(st, AsmOperand::Register(AsmRegister::Eax)) < 0 { -1 } else { 0 },
        ),
        SpecAsmInstruction::Idiv(src) => {
            let n = read(st, AsmOperand::Register(AsmRegister::Edx)) * 0x1_0000_0000
                + low_half(read(st, AsmOperand::Register(AsmRegister::Eax)));
            let q = trunc_div(n, read(st, src));
            write(
                write(st, AsmOperand::Register(AsmRegister::Eax), q),
                AsmOperand::Register(AsmRegister::Edx),
                n - q * read(st, src),
            )
        },
        _ => st,
    }
}

/// The machine after running `code` from the first instruction to the last.
pub open spec fn run(st: MachineState, code: Seq<SpecAsmInstruction>) -> MachineState
    decreases code.len(),
{
    if code.len() == 0 {
        st
    } else {
        run(execute(st, code[0]), code.drop_first())
    }
}

/// The value of an operand of three-address code in the machine.
pub open spec fn ir_read(st: MachineState, v: IRVal) -> int {
    read(st, v.spec_to_asm())
}

/// The code for a binary instruction of three-address code leaves in its
/// destination what the C operation computes on the values of its
/// operands: `+`, `-` and `*` as written, `/` the quotient truncated toward
/// zero, `%` the remainder, and a relation 1 or 0. The first operand must
/// be a 32-bit value (it fills `%eax` for division), the divisor must not
/// be zero, and for `+`, `-` and `*` the destination must not be the second
/// operand.
pub proof fn lemma_binary_lowering_computes(op: BinaryOp, a: IRVal, b: IRVal, d: TempId, st: MachineState)
    requires
        lowerable(SpecIRInstruction::Binary(op, a, b, IRVal::Var(d))),
        i32::MIN <= ir_read(st, a) <= i32::MAX,
        op == BinaryOp::Div || op == BinaryOp::Mod ==> ir_read(st, b) != 0,
        op == BinaryOp::Add || op == BinaryOp::Sub || op == BinaryOp::Mul ==> b != IRVal::Var(d),
    ensures
        run(st, lowered(SpecIRInstruction::Binary(op, a, b, IRVal::Var(d)))).locations[AsmOperand::PseudoReg(d)]
            == c_binary(op, ir_read(st, a), ir_read(st, b)),
{
    let code = lowered(SpecIRInstruction::Binary(op, a, b, IRVal::Var(d)));
    let x = ir_read(st, a);
    let y = ir_read(st, b);
    let eax = AsmOperand::Register(AsmRegister::Eax);
    let edx = AsmOperand::Register(AsmRegister::Edx);
    let dst = AsmOperand::PseudoReg(d);
    reveal_with_fuel(run, 5);
    if op == BinaryOp::Div || op == BinaryOp::Mod {
        let s1 = execute(st, code[0]);
        assert(read(s1, eax) == x);
        assert(read(s1, b.spec_to_asm()) == y);
        let s2 = execute(s1, code[1]);
        assert(read(s2, eax) == x);
        assert(read(s2, b.spec_to_asm()) == y);
        assert(read(s2, edx) * 0x1_0000_0000 + low_half(read(s2, eax)) == x);
        let s3 = execute(s2, code[2]);
        assert(read(s3, eax) == trunc_div(x, y));
        assert(read(s3, edx) == x - trunc_div(x, y) * y);
        let s4 = execute(s3, code[3]);
        assert(code.drop_first().drop_first().drop_first().drop_first() =~= Seq::<SpecAsmInstruction>::empty());
        assert(run(st, code) == s4);
    } else if op == BinaryOp::Add || op == BinaryOp::Sub || op == BinaryOp::Mul {
        let s1 = execute(st, code[0]);
        assert(read(s1, dst) == x);
        assert(read(s1, b.spec_to_asm()) == y);
        let s2 = execute(s1, code[1]);
        assert(code.drop_first().drop_first() =~= Seq::<SpecAsmInstruction>::empty());
        assert(run(st, code) == s2);
    } else {
        let s1 = execute(st, code[0]);
        assert(s1.compared == x - y);
        let s2 = execute(s1, code[1]);
        let s3 = execute(s2, code[2]);
        assert(code.drop_first().drop_first().drop_first() =~= Seq::<SpecAsmInstruction>::empty());
        assert(run(st, code) == s3);
    }
}

/// The code for a unary instruction leaves in its destination what the C
/// operation computes on the value of its source: `-x`, `~x` (which is
/// `-x - 1` in two's complement) or `!x`.
pub proof fn lemma_unary_lowering_computes(op: UnaryOp, a: IRVal, d: TempId, st: MachineState)
    requires
        lowerable(SpecIRInstruction::Unary(op, a, IRVal::Var(d))),
    ensures
        run(st, lowered(SpecIRInstruction::Unary(op, a, IRVal::Var(d)))).locations[AsmOperand::PseudoReg(d)]
            == c_unary(op, ir_read(st, a)),
{
    let code = lowered(SpecIRInstruction::Unary(op, a, IRVal::Var(d)));
    let dst = AsmOperand::PseudoReg(d);
    reveal_with_fuel(run, 4);
    if op == UnaryOp::LogicalNot {
        let s1 = execute(st, code[0]);
        assert(s1.compared == ir_read(st, a));
        let s2 = execute(s1, code[1]);
        let s3 = execute(s2, code[2]);
        assert(code.drop_first().drop_first().drop_first() =~= Seq::<SpecAsmInstruction>::empty());
        assert(run(st, code) == s3);
    } else {
        let s1 = execute(st, code[0]);
        assert(read(s1, dst) == ir_read(st, a));
        let s2 = execute(s1, code[1]);
        assert(code.drop_first().drop_first() =~= Seq::<SpecAsmInstruction>::empty());
        assert(run(st, code) == s2);
    }
}

/// Code whose last instruction is a conditional jump to `lb` takes it: run
/// up to that jump, the condition it tests holds.
pub open spec fn jump_taken(st: MachineState, code: Seq<SpecAsmInstruction>, lb: Label) -> bool {
    &&& code.len() > 0
    &&& code.last() matches SpecAsmInstruction::JmpCC(cc, target)
    &&& target == lb
    &&& condition_holds(cc, run(st, code.drop_last()).compared)
}

/// The code for a conditional jump of three-address code ends in a jump to
/// the same label, taken exactly when the tested value is zero (for
/// `JumpIfZero`) or nonzero (for `JumpIfNotZero`).
pub proof fn lemma_conditional_jump_lowering(x: IRVal, lb: Label, st: MachineState)
    ensures
        jump_taken(st, lowered(SpecIRInstruction::JumpIfZero(x, lb)), lb) <==> ir_read(st, x) == 0,
        jump_taken(st, lowered(SpecIRInstruction::JumpIfNotZero(x, lb)), lb) <==> ir_read(st, x) != 0,
{
    reveal_with_fuel(run, 2);
    let z = lowered(SpecIRInstruction::JumpIfZero(x, lb));
    let nz = lowered(SpecIRInstruction::JumpIfNotZero(x, lb));
    assert(z.drop_last() =~= seq![z[0]]);
    assert(nz.drop_last() =~= seq![nz[0]]);
    assert(seq![z[0]].drop_first() =~= Seq::<SpecAsmInstruction>::empty());
    assert(seq![nz[0]].drop_first() =~= Seq::<SpecAsmInstruction>::empty());
    assert(run(st, z.drop_last()).compared == ir_read(st, x));
    assert(run(st, nz.drop_last()).compared == ir_read(st, x));
}

} // verus!
