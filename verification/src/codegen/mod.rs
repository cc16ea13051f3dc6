pub mod asm_ast;
pub mod machine;

use vstd::prelude::*;

use crate::common::{BinaryOp, TempId, UnaryOp};
use crate::ir::ir_ast::{
    arg_reg, arg_register, lowerable, lowered, push_arg, push_args_rev, register_args, stack_args,
    IRFunction, IRInstruction, IRProgram, IRVal, SpecIRFunction, SpecIRInstruction, SpecIRProgram,
};
use asm_ast::{
    AsmRegister, call_target, emittable, fixed, instruction_text, program_emittable, lemma_fixed_legal, operands_legal, reg, AsmFunction, AsmInstruction, AsmOperand, AsmProgram,
    SpecAsmFunction, SpecAsmInstruction, SpecAsmProgram,
};

verus! {

/// The assembly for a sequence of instructions, in order.
pub open spec fn flat_lowered(s: Seq<SpecIRInstruction>) -> Seq<SpecAsmInstruction>
    decreases s.len(),
{
    if s.len() == 0 {
        seq![]
    } else {
        lowered(s[0]) + flat_lowered(s.drop_first())
    }
}

/// Lowering distributes over concatenation: the code for `a` then `b` is
/// the code for `a` followed by the code for `b`, and no code lowers to none.
pub proof fn lemma_flat_lowered_concat(a: Seq<SpecIRInstruction>, b: Seq<SpecIRInstruction>)
    ensures
        flat_lowered(a + b) == flat_lowered(a) + flat_lowered(b),
        flat_lowered(Seq::<SpecIRInstruction>::empty()) == Seq::<SpecAsmInstruction>::empty(),
    decreases a.len(),
{
    if a.len() == 0 {
        assert(a + b =~= b);
        assert(flat_lowered(a) + flat_lowered(b) =~= flat_lowered(b));
    } else {
        assert((a + b).drop_first() =~= a.drop_first() + b);
        assert((a + b)[0] == a[0]);
        lemma_flat_lowered_concat(a.drop_first(), b);
        assert(lowered(a[0]) + (flat_lowered(a.drop_first()) + flat_lowered(b))
            =~= (lowered(a[0]) + flat_lowered(a.drop_first())) + flat_lowered(b));
    }
}

/// The operand is an immediate, a register or a pseudo register: not yet a frame slot.
pub open spec fn unplaced_operand(o: AsmOperand) -> bool {
    !(o is Stack)
}

/// No operand of the instruction is a frame slot.
pub open spec fn operands_unplaced(i: SpecAsmInstruction) -> bool {
    match i {
        SpecAsmInstruction::Mov(a, b) => unplaced_operand(a) && unplaced_operand(b),
        SpecAsmInstruction::Binary(_, a, b) => unplaced_operand(a) && unplaced_operand(b),
        SpecAsmInstruction::Cmp(a, b) => unplaced_operand(a) && unplaced_operand(b),
        SpecAsmInstruction::Unary(_, a) => unplaced_operand(a),
        SpecAsmInstruction::Idiv(a) => unplaced_operand(a),
        SpecAsmInstruction::SetCC(_, a) => unplaced_operand(a),
        SpecAsmInstruction::Push(a) => unplaced_operand(a),
        _ => true,
    }
}

proof fn lemma_push_args_unplaced(s: Seq<IRVal>)
    ensures
        forall|k: int| 0 <= k < push_args_rev(s).len() ==> operands_unplaced(#[trigger] push_args_rev(s)[k]),
    decreases s.len(),
{
    if s.len() > 0 {
        lemma_push_args_unplaced(s.drop_first());
        let a = push_args_rev(s.drop_first());
        let b = push_arg(s[0]);
        assert forall|k: int| 0 <= k < push_args_rev(s).len() implies operands_unplaced(#[trigger] push_args_rev(s)[k]) by {
            if k < a.len() {
                assert(push_args_rev(s)[k] == a[k]);
            } else {
                assert(push_args_rev(s)[k] == b[k - a.len()]);
            }
        }
    }
}

proof fn lemma_lowered_unplaced(x: SpecIRInstruction)
    ensures
        forall|k: int| 0 <= k < lowered(x).len() ==> operands_unplaced(#[trigger] lowered(x)[k]),
{
    if let SpecIRInstruction::FnCall(name, args, dst) = x {
        let st = stack_args(args);
        let rg = register_args(args);
        lemma_push_args_unplaced(st);
        let pad = crate::ir::ir_ast::call_padding(st.len() as int);
        let bytes = 8 * st.len() + pad;
        let p1 = if pad > 0 { seq![SpecAsmInstruction::AllocateStack(pad as usize)] } else { seq![] };
        let p2 = Seq::new(rg.len(), |i: int| SpecAsmInstruction::Mov(rg[i].spec_to_asm(), reg(arg_register(i))));
        let p3 = push_args_rev(st);
        let p4 = seq![SpecAsmInstruction::Call(name)];
        let p5 = if bytes > 0 { seq![SpecAsmInstruction::DeallocateStack(bytes as usize)] } else { seq![] };
        let p6 = seq![SpecAsmInstruction::Mov(reg(AsmRegister::Eax), dst.spec_to_asm())];
        let whole = p1 + p2 + p3 + p4 + p5 + p6;
        assert(lowered(x) == whole);
        assert forall|k: int| 0 <= k < whole.len() implies operands_unplaced(#[trigger] whole[k]) by {
            let n1 = p1.len() as int;
            let n2 = n1 + p2.len();
            let n3 = n2 + p3.len();
            let n4 = n3 + p4.len();
            let n5 = n4 + p5.len();
            if k < n1 {
                assert(whole[k] == p1[k]);
            } else if k < n2 {
                assert(whole[k] == p2[k - n1]);
            } else if k < n3 {
                assert(whole[k] == p3[k - n2]);
            } else if k < n4 {
                assert(whole[k] == p4[k - n3]);
            } else if k < n5 {
                assert(whole[k] == p5[k - n4]);
            } else {
                assert(whole[k] == p6[k - n5]);
            }
        }
    }
}

/// Before placement the lowered code names no frame slot: every operand is
/// an immediate, a register or a pseudo register.
pub proof fn lemma_flat_lowered_unplaced(s: Seq<SpecIRInstruction>)
    ensures
        forall|k: int| 0 <= k < flat_lowered(s).len() ==> operands_unplaced(#[trigger] flat_lowered(s)[k]),
    decreases s.len(),
{
    if s.len() > 0 {
        lemma_lowered_unplaced(s[0]);
        lemma_flat_lowered_unplaced(s.drop_first());
        let a = lowered(s[0]);
        let b = flat_lowered(s.drop_first());
        assert forall|k: int| 0 <= k < flat_lowered(s).len() implies operands_unplaced(#[trigger] flat_lowered(s)[k]) by {
            if k < a.len() {
                assert(flat_lowered(s)[k] == a[k]);
            } else {
                assert(flat_lowered(s)[k] == b[k - a.len()]);
            }
        }
    }
}

/// How a call is lowered: with `k` arguments beyond the sixth, an 8-byte
/// pad comes first exactly when `k` is odd; then the first six arguments
/// (or all, if fewer) move into `%edi`, `%esi`, `%edx`, `%ecx`, `%r8d`,
/// `%r9d` in order; then the others are pushed, last first; then the call;
/// then, when `k > 0`, the pushed area and the pad are released, a multiple
/// of 16 bytes; and last the result moves from `%eax` to the destination.
pub proof fn lemma_call_lowering(name: Seq<char>, args: Seq<IRVal>, dst: IRVal)
    requires
        8 * args.len() + 8 <= usize::MAX,
    ensures
        ({
            let r = lowered(SpecIRInstruction::FnCall(name, args, dst));
            let k = stack_args(args).len();
            let m = register_args(args).len();
            let p: int = if k % 2 == 1 { 1 } else { 0 };
            let pushes = push_args_rev(stack_args(args));
            let q = p + m + pushes.len();
            &&& m == (if args.len() < 6 { args.len() } else { 6 })
            &&& k == (if args.len() > 6 { args.len() - 6 } else { 0 })
            &&& (r[0] == SpecAsmInstruction::AllocateStack(8)) <==> k % 2 == 1
            &&& forall|i: int| 0 <= i < m ==> #[trigger] r[p + i] == SpecAsmInstruction::Mov(args[i].spec_to_asm(), reg(arg_register(i)))
            &&& r.subrange(p + m, q) == pushes
            &&& r[q] == SpecAsmInstruction::Call(name)
            &&& k > 0 ==> r[q + 1] == SpecAsmInstruction::DeallocateStack((8 * k + 8 * p) as usize)
                && (8 * k + 8 * p) % 16 == 0 && r.len() == q + 3
            &&& k == 0 ==> r.len() == q + 2
            &&& r.last() == SpecAsmInstruction::Mov(reg(AsmRegister::Eax), dst.spec_to_asm())
        }),
{
    let st = stack_args(args);
    let rg = register_args(args);
    let k = st.len();
    let pad = crate::ir::ir_ast::call_padding(k as int);
    let bytes = 8 * k + pad;
    let p1 = if pad > 0 { seq![SpecAsmInstruction::AllocateStack(pad as usize)] } else { seq![] };
    let p2 = Seq::new(rg.len(), |i: int| SpecAsmInstruction::Mov(rg[i].spec_to_asm(), reg(arg_register(i))));
    let p3 = push_args_rev(st);
    let p4 = seq![SpecAsmInstruction::Call(name)];
    let p5 = if bytes > 0 { seq![SpecAsmInstruction::DeallocateStack(bytes as usize)] } else { seq![] };
    let p6 = seq![SpecAsmInstruction::Mov(reg(AsmRegister::Eax), dst.spec_to_asm())];
    let r = p1 + p2 + p3 + p4 + p5 + p6;
    assert(lowered(SpecIRInstruction::FnCall(name, args, dst)) == r);
    let p: int = if k % 2 == 1 { 1 } else { 0 };
    assert(p1.len() == p);
    let m = rg.len() as int;
    let q = p + m + p3.len();
    if k % 2 == 1 {
        assert(r[0] == p1[0]);
    } else if m > 0 {
        assert(r[0] == p2[0]);
    } else if p3.len() > 0 {
        assert(r[0] == p3[0]);
        assert(p3 == push_args_rev(st.drop_first()) + push_arg(st[0]));
        assert(!(p3[0] is AllocateStack)) by {
            lemma_push_args_unplaced(st);
            lemma_push_args_shape(st);
        }
    } else {
        assert(r[0] == p4[0]);
    }
    assert forall|i: int| 0 <= i < m implies #[trigger] r[p + i] == SpecAsmInstruction::Mov(args[i].spec_to_asm(), reg(arg_register(i))) by {
        assert(r[p + i] == p2[i]);
        assert(rg[i] == args[i]);
    }
    assert(r.subrange(p + m, q) =~= p3);
    assert(r[q] == p4[0]);
    if k > 0 {
        assert(r[q + 1] == p5[0]);
        assert((8 * k + 8 * p) % 16 == 0) by (nonlinear_arith)
            requires
                p == (if k % 2 == 1 { 1int } else { 0int }),
                k >= 0;
    }
    assert(r.last() == p6[0]);
}

/// Pushing arguments gives only pushes and moves into `%eax`.
proof fn lemma_push_args_shape(s: Seq<IRVal>)
    ensures
        forall|k: int| 0 <= k < push_args_rev(s).len() ==> (#[trigger] push_args_rev(s)[k] is Push || push_args_rev(s)[k] is Mov),
    decreases s.len(),
{
    if s.len() > 0 {
        lemma_push_args_shape(s.drop_first());
        let a = push_args_rev(s.drop_first());
        let b = push_arg(s[0]);
        assert forall|k: int| 0 <= k < push_args_rev(s).len() implies (#[trigger] push_args_rev(s)[k] is Push || push_args_rev(s)[k] is Mov) by {
            if k < a.len() {
                assert(push_args_rev(s)[k] == a[k]);
            } else {
                assert(push_args_rev(s)[k] == b[k - a.len()]);
            }
        }
    }
}

/// Where parameter `i` arrives: the first six in registers, the rest on the
/// caller's stack above the return address and saved `%rbp`.
pub open spec fn param_source(i: int) -> AsmOperand {
    if i < 6 {
        reg(arg_register(i))
    } else {
        AsmOperand::Stack((16 + (i - 6) * 8) as i32)
    }
}

/// Copies of the parameters into their locations.
pub open spec fn param_moves(ids: Seq<TempId>) -> Seq<SpecAsmInstruction> {
    Seq::new(ids.len(), |i: int| SpecAsmInstruction::Mov(param_source(i), AsmOperand::PseudoReg(ids[i])))
}

/// The assembly for a function, before its locations are placed in the frame.
pub open spec fn function_asm(f: SpecIRFunction) -> SpecAsmFunction {
    SpecAsmFunction { name: f.name, instructions: param_moves(f.param_ids) + flat_lowered(f.instructions) }
}

/// The assembly for a program, before its locations are placed in the frame.
pub open spec fn program_asm(p: SpecIRProgram) -> SpecAsmProgram {
    SpecAsmProgram { functions: Seq::new(p.functions.len(), |i: int| function_asm(p.functions[i])) }
}

/// Every instruction of the function can be lowered, and its parameter
/// offsets fit in `usize`.
pub open spec fn function_lowerable(f: SpecIRFunction) -> bool {
    &&& 16 + 8 * f.param_ids.len() <= usize::MAX
    &&& forall|k: int| 0 <= k < f.instructions.len() ==> lowerable(#[trigger] f.instructions[k])
}

/// Every function of the program can be lowered.
pub open spec fn program_lowerable(p: SpecIRProgram) -> bool {
    forall|k: int| 0 <= k < p.functions.len() ==> function_lowerable(#[trigger] p.functions[k])
}

/// The frame slots handed out so far, and the lowest offset from `%rbp` in use.
pub struct Placement {
    pub slots: Seq<(TempId, i32)>,
    pub offset: int,
}

/// Nothing placed yet.
pub open spec fn no_slots() -> Placement {
    Placement { slots: seq![], offset: 0 }
}

/// The slot of `t`, if it has one.
pub open spec fn slot_of(slots: Seq<(TempId, i32)>, t: TempId) -> Option<i32>
    decreases slots.len(),
{
    if slots.len() == 0 {
        None
    } else if slots[0].0 == t {
        Some(slots[0].1)
    } else {
        slot_of(slots.drop_first(), t)
    }
}

/// A pseudo register becomes its frame slot; one without a slot gets the
/// next four bytes below the lowest slot. Other operands stay.
pub open spec fn place_operand(o: AsmOperand, st: Placement) -> (AsmOperand, Placement) {
    match o {
        AsmOperand::PseudoReg(t) => match slot_of(st.slots, t) {
            Some(off) => (AsmOperand::Stack(off), st),
            None => (
                AsmOperand::Stack((st.offset - 4) as i32),
                Placement { slots: st.slots.push((t, (st.offset - 4) as i32)), offset: st.offset - 4 },
            ),
        },
        _ => (o, st),
    }
}

/// The operands of an instruction placed, first to last.
pub open spec fn place_instruction(i: SpecAsmInstruction, st: Placement) -> (SpecAsmInstruction, Placement) {
    match i {
        SpecAsmInstruction::Mov(a, b) => {
            let (a2, s1) = place_operand(a, st);
            let (b2, s2) = place_operand(b, s1);
            (SpecAsmInstruction::Mov(a2, b2), s2)
        },
        SpecAsmInstruction::Binary(op, a, b) => {
            let (a2, s1) = place_operand(a, st);
            let (b2, s2) = place_operand(b, s1);
            (SpecAsmInstruction::Binary(op, a2, b2), s2)
        },
        SpecAsmInstruction::Cmp(a, b) => {
            let (a2, s1) = place_operand(a, st);
            let (b2, s2) = place_operand(b, s1);
            (SpecAsmInstruction::Cmp(a2, b2), s2)
        },
        SpecAsmInstruction::Unary(op, a) => {
            let (a2, s1) = place_operand(a, st);
            (SpecAsmInstruction::Unary(op, a2), s1)
        },
        SpecAsmInstruction::Idiv(a) => {
            let (a2, s1) = place_operand(a, st);
            (SpecAsmInstruction::Idiv(a2), s1)
        },
        SpecAsmInstruction::SetCC(c, a) => {
            let (a2, s1) = place_operand(a, st);
            (SpecAsmInstruction::SetCC(c, a2), s1)
        },
        SpecAsmInstruction::Push(a) => {
            let (a2, s1) = place_operand(a, st);
            (SpecAsmInstruction::Push(a2), s1)
        },
        _ => (i, st),
    }
}

/// A sequence of instructions placed in order.
pub open spec fn place_all(s: Seq<SpecAsmInstruction>, st: Placement) -> (Seq<SpecAsmInstruction>, Placement)
    decreases s.len(),
{
    if s.len() == 0 {
        (seq![], st)
    } else {
        let (x, s1) = place_instruction(s[0], st);
        let (rest, s2) = place_all(s.drop_first(), s1);
        (seq![x] + rest, s2)
    }
}

/// The functions placed in order, with one slot table for the whole
/// program; each function's name is recorded with the lowest offset in use
/// after it.
pub open spec fn place_functions(fs: Seq<SpecAsmFunction>, st: Placement) -> (Seq<SpecAsmFunction>, Seq<(Seq<char>, i32)>, Placement)
    decreases fs.len(),
{
    if fs.len() == 0 {
        (seq![], seq![], st)
    } else {
        let (ins, s1) = place_all(fs[0].instructions, st);
        let (rest, sizes, s2) = place_functions(fs.drop_first(), s1);
        (
            seq![SpecAsmFunction { name: fs[0].name, instructions: ins }] + rest,
            seq![(fs[0].name, s1.offset as i32)] + sizes,
            s2,
        )
    }
}

/// The operand with a pseudo register that has a slot replaced by that slot.
pub open spec fn slotted_operand(o: AsmOperand, slots: Seq<(TempId, i32)>) -> AsmOperand {
    match o {
        AsmOperand::PseudoReg(t) => match slot_of(slots, t) {
            Some(off) => AsmOperand::Stack(off),
            None => o,
        },
        _ => o,
    }
}

/// The instruction with each pseudo register replaced by its slot.
pub open spec fn slotted(i: SpecAsmInstruction, slots: Seq<(TempId, i32)>) -> SpecAsmInstruction {
    match i {
        SpecAsmInstruction::Mov(a, b) => SpecAsmInstruction::Mov(slotted_operand(a, slots), slotted_operand(b, slots)),
        SpecAsmInstruction::Binary(op, a, b) => SpecAsmInstruction::Binary(op, slotted_operand(a, slots), slotted_operand(b, slots)),
        SpecAsmInstruction::Cmp(a, b) => SpecAsmInstruction::Cmp(slotted_operand(a, slots), slotted_operand(b, slots)),
        SpecAsmInstruction::Unary(op, a) => SpecAsmInstruction::Unary(op, slotted_operand(a, slots)),
        SpecAsmInstruction::Idiv(a) => SpecAsmInstruction::Idiv(slotted_operand(a, slots)),
        SpecAsmInstruction::SetCC(c, a) => SpecAsmInstruction::SetCC(c, slotted_operand(a, slots)),
        SpecAsmInstruction::Push(a) => SpecAsmInstruction::Push(slotted_operand(a, slots)),
        _ => i,
    }
}

/// Distinct temporaries have distinct slots; every slot is a multiple of 4
/// between the lowest offset in use and -4.
pub open spec fn slots_ok(st: Placement) -> bool {
    &&& st.offset <= 0
    &&& st.offset % 4 == 0
    &&& forall|i: int| #![trigger st.slots[i]] 0 <= i < st.slots.len()
        ==> st.offset <= st.slots[i].1 <= -4 && st.slots[i].1 % 4 == 0
    &&& forall|i: int, j: int| #![trigger st.slots[i], st.slots[j]] 0 <= i < j < st.slots.len()
        ==> st.slots[i].0 != st.slots[j].0 && st.slots[i].1 != st.slots[j].1
}

/// `b` starts with `a`.
pub open spec fn extends(a: Seq<(TempId, i32)>, b: Seq<(TempId, i32)>) -> bool {
    a.len() <= b.len() && b.take(a.len() as int) == a
}

proof fn lemma_slot_of_absent(slots: Seq<(TempId, i32)>, t: TempId)
    ensures
        slot_of(slots, t) is None <==> forall|i: int| 0 <= i < slots.len() ==> (#[trigger] slots[i]).0 != t,
        slot_of(slots, t) matches Some(off) ==> exists|i: int| 0 <= i < slots.len() && (#[trigger] slots[i]) == (t, off),
    decreases slots.len(),
{
    if slots.len() > 0 {
        lemma_slot_of_absent(slots.drop_first(), t);
        if slots[0].0 != t {
            assert forall|i: int| 0 <= i < slots.len() && (#[trigger] slots[i]).0 == t implies 0 < i && slots.drop_first()[i - 1].0 == t by {
            }
            if let Some(off) = slot_of(slots, t) {
                let i = choose|i: int| 0 <= i < slots.drop_first().len() && (#[trigger] slots.drop_first()[i]) == (t, off);
                assert(slots[i + 1] == (t, off));
            }
        }
    }
}

proof fn lemma_slot_of_push(slots: Seq<(TempId, i32)>, x: (TempId, i32), t: TempId)
    ensures
        slot_of(slots.push(x), t) == (if slot_of(slots, t) is Some {
            slot_of(slots, t)
        } else if x.0 == t {
            Some(x.1)
        } else {
            None::<i32>
        }),
    decreases slots.len(),
{
    let sp = slots.push(x);
    if slots.len() > 0 {
        assert(sp[0] == slots[0]);
        assert(sp.drop_first() =~= slots.drop_first().push(x));
        lemma_slot_of_push(slots.drop_first(), x, t);
        if slots[0].0 == t {
            assert(slot_of(sp, t) == Some(slots[0].1));
            assert(slot_of(slots, t) == Some(slots[0].1));
        } else {
            assert(slot_of(sp, t) == slot_of(sp.drop_first(), t));
            assert(slot_of(slots, t) == slot_of(slots.drop_first(), t));
        }
    } else {
        assert(sp[0] == x);
        assert(sp.drop_first() =~= Seq::<(TempId, i32)>::empty());
        assert(slot_of(slots, t) is None);
        if x.0 != t {
            assert(slot_of(sp, t) == slot_of(sp.drop_first(), t));
        }
    }
}

proof fn lemma_slot_of_extends(a: Seq<(TempId, i32)>, b: Seq<(TempId, i32)>, t: TempId)
    requires
        extends(a, b),
        slot_of(a, t) is Some,
    ensures
        slot_of(b, t) == slot_of(a, t),
    decreases b.len(),
{
    if b.len() > a.len() {
        let c = b.drop_last();
        assert(c.take(a.len() as int) =~= b.take(a.len() as int));
        lemma_slot_of_extends(a, c, t);
        assert(b == c.push(b.last()));
        lemma_slot_of_push(c, b.last(), t);
    } else {
        assert(b.take(a.len() as int) =~= b);
    }
}

proof fn lemma_place_operand_ok(o: AsmOperand, st: Placement)
    requires
        slots_ok(st),
        place_operand(o, st).1.offset >= i32::MIN,
    ensures
        ({
            let (o2, st2) = place_operand(o, st);
            &&& slots_ok(st2)
            &&& extends(st.slots, st2.slots)
            &&& o2 == slotted_operand(o, st2.slots)
            &&& (o matches AsmOperand::PseudoReg(t) ==> slot_of(st2.slots, t) is Some)
        }),
{
    let (o2, st2) = place_operand(o, st);
    assert(st.slots.take(st.slots.len() as int) =~= st.slots);
    if let AsmOperand::PseudoReg(t) = o {
        if slot_of(st.slots, t) is None {
            let x = (t, (st.offset - 4) as i32);
            lemma_slot_of_absent(st.slots, t);
            lemma_slot_of_push(st.slots, x, t);
            assert(st2.slots == st.slots.push(x));
            assert(st2.slots.take(st.slots.len() as int) =~= st.slots);
            assert forall|i: int| #![trigger st2.slots[i]] 0 <= i < st2.slots.len()
                implies st2.offset <= st2.slots[i].1 <= -4 && st2.slots[i].1 % 4 == 0 by {
                if i < st.slots.len() {
                    assert(st2.slots[i] == st.slots[i]);
                }
            }
            assert forall|i: int, j: int| #![trigger st2.slots[i], st2.slots[j]] 0 <= i < j < st2.slots.len()
                implies st2.slots[i].0 != st2.slots[j].0 && st2.slots[i].1 != st2.slots[j].1 by {
                assert(st2.slots[i] == st.slots[i]);
                if j < st.slots.len() {
                    assert(st2.slots[j] == st.slots[j]);
                }
            }
        }
    }
}

proof fn lemma_place_instruction_ok(i: SpecAsmInstruction, st: Placement)
    requires
        slots_ok(st),
        place_instruction(i, st).1.offset >= i32::MIN,
    ensures
        ({
            let (i2, st2) = place_instruction(i, st);
            &&& slots_ok(st2)
            &&& extends(st.slots, st2.slots)
            &&& i2 == slotted(i, st2.slots)
            &&& operands_placed(i2)
        }),
{
    match i {
        SpecAsmInstruction::Mov(a, b) | SpecAsmInstruction::Binary(_, a, b) | SpecAsmInstruction::Cmp(a, b) => {
            let (a2, s1) = place_operand(a, st);
            let (b2, s2) = place_operand(b, s1);
            lemma_place_operand_lowers(b, s1);
            lemma_place_operand_ok(a, st);
            lemma_place_operand_ok(b, s1);
            if let AsmOperand::PseudoReg(t) = a {
                lemma_slot_of_extends(s1.slots, s2.slots, t);
            }
            assert(s2.slots.take(st.slots.len() as int) =~= s1.slots.take(st.slots.len() as int));
        },
        SpecAsmInstruction::Unary(_, a) | SpecAsmInstruction::Idiv(a) | SpecAsmInstruction::SetCC(_, a)
        | SpecAsmInstruction::Push(a) => {
            lemma_place_operand_ok(a, st);
        },
        _ => {
            assert(st.slots.take(st.slots.len() as int) =~= st.slots);
        },
    }
}

proof fn lemma_place_operand_lowers(o: AsmOperand, st: Placement)
    ensures
        st.offset - 4 <= place_operand(o, st).1.offset <= st.offset,
{
}

/// The instruction reads or writes the pseudo register `t`.
pub open spec fn uses_temp(i: SpecAsmInstruction, t: TempId) -> bool {
    let p = AsmOperand::PseudoReg(t);
    match i {
        SpecAsmInstruction::Mov(a, b) => a == p || b == p,
        SpecAsmInstruction::Binary(_, a, b) => a == p || b == p,
        SpecAsmInstruction::Cmp(a, b) => a == p || b == p,
        SpecAsmInstruction::Unary(_, a) => a == p,
        SpecAsmInstruction::Idiv(a) => a == p,
        SpecAsmInstruction::SetCC(_, a) => a == p,
        SpecAsmInstruction::Push(a) => a == p,
        _ => false,
    }
}

proof fn lemma_extends_trans(a: Seq<(TempId, i32)>, b: Seq<(TempId, i32)>, c: Seq<(TempId, i32)>)
    requires
        extends(a, b),
        extends(b, c),
    ensures
        extends(a, c),
{
    assert(c.take(a.len() as int) =~= c.take(b.len() as int).take(a.len() as int));
}

proof fn lemma_slotted_stable(i: SpecAsmInstruction, a: Seq<(TempId, i32)>, b: Seq<(TempId, i32)>)
    requires
        extends(a, b),
        operands_placed(slotted(i, a)),
    ensures
        slotted(i, b) == slotted(i, a),
{
    match i {
        SpecAsmInstruction::Mov(x, y) | SpecAsmInstruction::Binary(_, x, y) | SpecAsmInstruction::Cmp(x, y) => {
            if let AsmOperand::PseudoReg(t) = x {
                lemma_slot_of_extends(a, b, t);
            }
            if let AsmOperand::PseudoReg(t) = y {
                lemma_slot_of_extends(a, b, t);
            }
        },
        SpecAsmInstruction::Unary(_, x) | SpecAsmInstruction::Idiv(x) | SpecAsmInstruction::SetCC(_, x)
        | SpecAsmInstruction::Push(x) => {
            if let AsmOperand::PseudoReg(t) = x {
                lemma_slot_of_extends(a, b, t);
            }
        },
        _ => {},
    }
}

/// A used pseudo register that slotting replaced has a slot within the table's bounds.
proof fn lemma_used_slot(i: SpecAsmInstruction, st: Placement, t: TempId)
    requires
        slots_ok(st),
        operands_placed(slotted(i, st.slots)),
        uses_temp(i, t),
    ensures
        (slot_of(st.slots, t) matches Some(off) && st.offset <= off <= -4 && off % 4 == 0),
{
    lemma_slot_of_absent(st.slots, t);
}

/// Placement is consistent: the placed instructions are the given ones with
/// each pseudo register replaced by the slot that the final table gives it;
/// every pseudo register used gets a slot; the table only grows; and
/// distinct temporaries keep distinct slots, each a multiple of 4 within
/// the lowest offset in use.
pub proof fn lemma_place_all_consistent(s: Seq<SpecAsmInstruction>, st: Placement)
    requires
        slots_ok(st),
        place_all(s, st).1.offset >= i32::MIN,
    ensures
        ({
            let (out, st2) = place_all(s, st);
            &&& slots_ok(st2)
            &&& extends(st.slots, st2.slots)
            &&& out.len() == s.len()
            &&& forall|k: int| 0 <= k < s.len() ==> (#[trigger] out[k]) == slotted(s[k], st2.slots)
                && operands_placed(out[k])
            &&& forall|k: int, t: TempId| 0 <= k < s.len() && #[trigger] uses_temp(s[k], t)
                ==> (slot_of(st2.slots, t) matches Some(off) && st2.offset <= off <= -4)
        }),
    decreases s.len(),
{
    if s.len() == 0 {
        assert(st.slots.take(st.slots.len() as int) =~= st.slots);
    } else {
        let (x, s1) = place_instruction(s[0], st);
        lemma_place_all_lowers(s.drop_first(), s1);
        lemma_place_instruction_ok(s[0], st);
        lemma_place_all_consistent(s.drop_first(), s1);
        let (rest, s2) = place_all(s.drop_first(), s1);
        lemma_slotted_stable(s[0], s1.slots, s2.slots);
        lemma_extends_trans(st.slots, s1.slots, s2.slots);
        let out = seq![x] + rest;
        assert forall|k: int| 0 <= k < s.len() implies (#[trigger] out[k]) == slotted(s[k], s2.slots)
            && operands_placed(out[k]) by {
            if k > 0 {
                assert(out[k] == rest[k - 1]);
                assert(s.drop_first()[k - 1] == s[k]);
            }
        }
        assert forall|k: int, t: TempId| 0 <= k < s.len() && #[trigger] uses_temp(s[k], t)
            implies (slot_of(s2.slots, t) matches Some(off) && s2.offset <= off <= -4) by {
            assert(out[k] == slotted(s[k], s2.slots));
            lemma_used_slot(s[k], s2, t);
        }
    }
}

/// Placing a program's functions with one table: each function's code is
/// the given code with every pseudo register replaced by its slot in the
/// final table, and every slot a function uses lies at or above the offset
/// recorded for that function, so the frame it reserves covers it.
pub proof fn lemma_place_functions_consistent(fs: Seq<SpecAsmFunction>, st: Placement)
    requires
        slots_ok(st),
        place_functions(fs, st).2.offset >= i32::MIN,
    ensures
        ({
            let (out, sizes, st2) = place_functions(fs, st);
            &&& slots_ok(st2)
            &&& extends(st.slots, st2.slots)
            &&& out.len() == fs.len()
            &&& sizes.len() == fs.len()
            &&& forall|i: int, k: int| #![trigger out[i].instructions[k]]
                0 <= i < fs.len() && 0 <= k < fs[i].instructions.len()
                ==> out[i].instructions.len() == fs[i].instructions.len()
                && out[i].instructions[k] == slotted(fs[i].instructions[k], st2.slots)
            &&& forall|i: int, k: int, t: TempId| #![trigger uses_temp(fs[i].instructions[k], t)]
                0 <= i < fs.len() && 0 <= k < fs[i].instructions.len() && uses_temp(fs[i].instructions[k], t)
                ==> (slot_of(st2.slots, t) matches Some(off) && sizes[i].1 <= off <= -4)
        }),
    decreases fs.len(),
{
    if fs.len() == 0 {
        assert(st.slots.take(st.slots.len() as int) =~= st.slots);
    } else {
        let (ins, s1) = place_all(fs[0].instructions, st);
        lemma_place_functions_lowers(fs.drop_first(), s1);
        lemma_place_all_consistent(fs[0].instructions, st);
        lemma_place_functions_consistent(fs.drop_first(), s1);
        let (rest, sizes, s2) = place_functions(fs.drop_first(), s1);
        lemma_extends_trans(st.slots, s1.slots, s2.slots);
        let out = seq![SpecAsmFunction { name: fs[0].name, instructions: ins }] + rest;
        let all_sizes = seq![(fs[0].name, s1.offset as i32)] + sizes;
        assert forall|i: int, k: int| #![trigger out[i].instructions[k]]
            0 <= i < fs.len() && 0 <= k < fs[i].instructions.len()
            implies out[i].instructions.len() == fs[i].instructions.len()
            && out[i].instructions[k] == slotted(fs[i].instructions[k], s2.slots) by {
            if i > 0 {
                assert(out[i] == rest[i - 1]);
                assert(fs.drop_first()[i - 1] == fs[i]);
            } else {
                assert(out[0].instructions == ins);
                lemma_slotted_stable(fs[0].instructions[k], s1.slots, s2.slots);
            }
        }
        assert forall|i: int, k: int, t: TempId| #![trigger uses_temp(fs[i].instructions[k], t)]
            0 <= i < fs.len() && 0 <= k < fs[i].instructions.len() && uses_temp(fs[i].instructions[k], t)
            implies (slot_of(s2.slots, t) matches Some(off) && all_sizes[i].1 <= off <= -4) by {
            if i > 0 {
                assert(fs.drop_first()[i - 1] == fs[i]);
                assert(all_sizes[i] == sizes[i - 1]);
            } else {
                assert(uses_temp(fs[0].instructions[k], t));
                let off = slot_of(s1.slots, t)->Some_0;
                lemma_slot_of_extends(s1.slots, s2.slots, t);
                assert(all_sizes[0].1 == s1.offset);
            }
        }
    }
}

proof fn lemma_place_all_lowers(s: Seq<SpecAsmInstruction>, st: Placement)
    ensures
        place_all(s, st).1.offset <= st.offset,
    decreases s.len(),
{
    if s.len() > 0 {
        let (x, s1) = place_instruction(s[0], st);
        lemma_place_all_lowers(s.drop_first(), s1);
    }
}

proof fn lemma_place_functions_lowers(fs: Seq<SpecAsmFunction>, st: Placement)
    ensures
        place_functions(fs, st).2.offset <= st.offset,
    decreases fs.len(),
{
    if fs.len() > 0 {
        let (ins, s1) = place_all(fs[0].instructions, st);
        lemma_place_all_lowers(fs[0].instructions, st);
        lemma_place_functions_lowers(fs.drop_first(), s1);
    }
}

fn find_slot(map: &Vec<(TempId, i32)>, t: TempId) -> (r: Option<i32>)
    ensures
        r == slot_of(map@, t),
{
    let n = map.len();
    let mut i: usize = 0;
    assert(map@.subrange(0, n as int) =~= map@);
    while i < n
        invariant
            i <= n,
            n == map@.len(),
            slot_of(map@, t) == slot_of(map@.subrange(i as int, n as int), t),
        decreases n - i,
    {
        assert(map@.subrange(i as int, n as int).drop_first() =~= map@.subrange(i + 1, n as int));
        if map[i].0 == t {
            return Some(map[i].1);
        }
        i = i + 1;
    }
    None
}

/// The instructions of `s`, each rewritten by `fix`, in order.
pub open spec fn flat_fixed(s: Seq<SpecAsmInstruction>) -> Seq<SpecAsmInstruction>
    decreases s.len(),
{
    if s.len() == 0 {
        seq![]
    } else {
        fixed(s[0]) + flat_fixed(s.drop_first())
    }
}

/// `n` rounded up to a multiple of 16.
pub open spec fn round_up_16(n: int) -> int {
    ((n + 15) / 16) * 16
}

/// A reserved frame is a multiple of 16 bytes, covers the slots, and wastes
/// less than 16 bytes.
pub proof fn lemma_frame_aligned(n: int)
    requires
        n >= 0,
    ensures
        round_up_16(n) % 16 == 0,
        n <= round_up_16(n) < n + 16,
{
    assert(round_up_16(n) % 16 == 0 && n <= round_up_16(n) < n + 16) by (nonlinear_arith)
        requires
            n >= 0;
}

/// The most recently recorded offset for `name`.
pub open spec fn last_size(sizes: Seq<(Seq<char>, i32)>, name: Seq<char>) -> Option<i32>
    decreases sizes.len(),
{
    if sizes.len() == 0 {
        None
    } else if sizes.last().0 == name {
        Some(sizes.last().1)
    } else {
        last_size(sizes.drop_last(), name)
    }
}

/// The bytes a function reserves: the magnitude of its recorded offset,
/// rounded up to a multiple of 16.
pub open spec fn frame_bytes(off: i32) -> int {
    round_up_16(if off < 0 { -off } else { off as int })
}

/// A placed function with its frame reserved and its operands fixed.
pub open spec fn finish_function(f: SpecAsmFunction, sizes: Seq<(Seq<char>, i32)>) -> SpecAsmFunction {
    SpecAsmFunction {
        name: f.name,
        instructions: seq![SpecAsmInstruction::AllocateStack(frame_bytes(last_size(sizes, f.name).unwrap()) as usize)]
            + flat_fixed(f.instructions),
    }
}

/// Where no other entry has its name, an entry is the one found for that name.
proof fn lemma_last_size_unique(sizes: Seq<(Seq<char>, i32)>, i: int)
    requires
        0 <= i < sizes.len(),
        forall|j: int| 0 <= j < sizes.len() && j != i ==> #[trigger] sizes[j].0 != sizes[i].0,
    ensures
        last_size(sizes, sizes[i].0) == Some(sizes[i].1),
    decreases sizes.len(),
{
    if i != sizes.len() - 1 {
        let d = sizes.drop_last();
        assert(sizes[sizes.len() - 1].0 != sizes[i].0);
        assert forall|j: int| 0 <= j < d.len() && j != i implies #[trigger] d[j].0 != d[i].0 by {
            assert(d[j] == sizes[j]);
            assert(d[i] == sizes[i]);
        }
        lemma_last_size_unique(d, i);
        assert(d[i] == sizes[i]);
    }
}

/// Each frame covers its slots: when a program's functions, whose names are
/// all different, are placed with one table, the stack space that each
/// finished function reserves in its first instruction reaches every frame
/// slot that any of its locations was given.
pub proof fn lemma_frames_cover_slots(fs: Seq<SpecAsmFunction>)
    requires
        place_functions(fs, no_slots()).2.offset >= i32::MIN,
        forall|i: int, j: int| 0 <= i < j < fs.len() ==> #[trigger] fs[i].name != #[trigger] fs[j].name,
    ensures
        ({
            let (out, sizes, table) = place_functions(fs, no_slots());
            forall|i: int, k: int, t: TempId| #![trigger uses_temp(fs[i].instructions[k], t)]
                0 <= i < fs.len() && 0 <= k < fs[i].instructions.len() && uses_temp(fs[i].instructions[k], t)
                ==> {
                    let n = frame_bytes(last_size(sizes, out[i].name).unwrap());
                    &&& finish_function(out[i], sizes).instructions[0] == SpecAsmInstruction::AllocateStack(n as usize)
                    &&& slot_of(table.slots, t) matches Some(off) && -n <= off <= -4
                }
        }),
{
    let (out, sizes, table) = place_functions(fs, no_slots());
    lemma_place_functions_consistent(fs, no_slots());
    lemma_place_functions_names(fs, no_slots());
    assert forall|i: int, k: int, t: TempId| #![trigger uses_temp(fs[i].instructions[k], t)]
        0 <= i < fs.len() && 0 <= k < fs[i].instructions.len() && uses_temp(fs[i].instructions[k], t)
        implies ({
            let n = frame_bytes(last_size(sizes, out[i].name).unwrap());
            &&& finish_function(out[i], sizes).instructions[0] == SpecAsmInstruction::AllocateStack(n as usize)
            &&& slot_of(table.slots, t) matches Some(off) && -n <= off <= -4
        }) by {
        assert forall|j: int| 0 <= j < sizes.len() && j != i implies #[trigger] sizes[j].0 != sizes[i].0 by {
            if j < i {
                assert(fs[j].name != fs[i].name);
            } else {
                assert(fs[i].name != fs[j].name);
            }
        }
        lemma_last_size_unique(sizes, i);
        let s = sizes[i].1;
        assert(last_size(sizes, out[i].name) == Some(s));
        let m: int = if s < 0 { -s } else { s as int };
        lemma_frame_aligned(m);
    }
}

/// At most how many assembly instructions one instruction lowers to.
pub open spec fn lowered_bound(i: SpecIRInstruction) -> nat {
    match i {
        SpecIRInstruction::FnCall(_, args, _) => 4 + 2 * args.len(),
        _ => 4,
    }
}

/// At most how many assembly instructions a sequence lowers to.
pub open spec fn code_bound(s: Seq<SpecIRInstruction>) -> nat
    decreases s.len(),
{
    if s.len() == 0 {
        0
    } else {
        lowered_bound(s[0]) + code_bound(s.drop_first())
    }
}

/// At most how many assembly instructions the functions lower to, the
/// moves of their parameters included.
pub open spec fn program_bound(fs: Seq<SpecIRFunction>) -> nat
    decreases fs.len(),
{
    if fs.len() == 0 {
        0
    } else {
        fs[0].param_ids.len() + code_bound(fs[0].instructions) + program_bound(fs.drop_first())
    }
}

/// How many instructions the functions hold.
pub open spec fn asm_len(fs: Seq<SpecAsmFunction>) -> nat
    decreases fs.len(),
{
    if fs.len() == 0 {
        0
    } else {
        fs[0].instructions.len() + asm_len(fs.drop_first())
    }
}

proof fn lemma_push_args_len(s: Seq<IRVal>)
    ensures
        push_args_rev(s).len() <= 2 * s.len(),
    decreases s.len(),
{
    if s.len() > 0 {
        lemma_push_args_len(s.drop_first());
    }
}

proof fn lemma_lowered_len(x: SpecIRInstruction)
    ensures
        lowered(x).len() <= lowered_bound(x),
{
    if let SpecIRInstruction::FnCall(name, args, dst) = x {
        lemma_push_args_len(stack_args(args));
    }
}

proof fn lemma_flat_lowered_len(s: Seq<SpecIRInstruction>)
    ensures
        flat_lowered(s).len() <= code_bound(s),
    decreases s.len(),
{
    if s.len() > 0 {
        lemma_lowered_len(s[0]);
        lemma_flat_lowered_len(s.drop_first());
    }
}

proof fn lemma_place_all_offset(s: Seq<SpecAsmInstruction>, st: Placement)
    ensures
        place_all(s, st).1.offset >= st.offset - 8 * s.len(),
    decreases s.len(),
{
    if s.len() > 0 {
        let (x, s1) = place_instruction(s[0], st);
        assert(s1.offset >= st.offset - 8);
        lemma_place_all_offset(s.drop_first(), s1);
    }
}

proof fn lemma_place_functions_offset(fs: Seq<SpecAsmFunction>, st: Placement)
    ensures
        place_functions(fs, st).2.offset >= st.offset - 8 * asm_len(fs),
    decreases fs.len(),
{
    if fs.len() > 0 {
        lemma_place_all_offset(fs[0].instructions, st);
        let (ins, s1) = place_all(fs[0].instructions, st);
        lemma_place_functions_offset(fs.drop_first(), s1);
    }
}

proof fn lemma_program_asm_len(fs: Seq<SpecIRFunction>)
    ensures
        asm_len(program_asm(SpecIRProgram { functions: fs }).functions) <= program_bound(fs),
    decreases fs.len(),
{
    if fs.len() > 0 {
        let a = program_asm(SpecIRProgram { functions: fs }).functions;
        let b = program_asm(SpecIRProgram { functions: fs.drop_first() }).functions;
        assert(a.drop_first() =~= b);
        lemma_program_asm_len(fs.drop_first());
        lemma_flat_lowered_len(fs[0].instructions);
        assert(a[0] == function_asm(fs[0]));
    }
}

/// Placement takes at most eight bytes of frame per instruction: a program
/// whose lowered code, by the bound that the shape of its instructions
/// gives, holds few enough instructions has its frame offsets within `i32`.
pub proof fn lemma_frames_fit(p: SpecIRProgram)
    requires
        8 * program_bound(p.functions) <= 0x8000_0000,
    ensures
        asm_fits(p),
{
    lemma_program_asm_len(p.functions);
    lemma_place_functions_offset(program_asm(p).functions, no_slots());
    assert(program_asm(p) == program_asm(SpecIRProgram { functions: p.functions }));
}

proof fn lemma_code_bound_skip(s: Seq<SpecIRInstruction>, k: int)
    requires
        0 <= k < s.len(),
    ensures
        code_bound(s.skip(k)) == lowered_bound(s[k]) + code_bound(s.skip(k + 1)),
        code_bound(s.skip(k)) <= code_bound(s),
    decreases k,
{
    assert(s.skip(k).drop_first() =~= s.skip(k + 1));
    if k > 0 {
        assert(s.skip(k) =~= s.drop_first().skip(k - 1));
        assert(s.skip(k + 1) =~= s.drop_first().skip(k));
        lemma_code_bound_skip(s.drop_first(), k - 1);
    }
}

proof fn lemma_program_bound_skip(fs: Seq<SpecIRFunction>, k: int)
    requires
        0 <= k < fs.len(),
    ensures
        program_bound(fs.skip(k)) == fs[k].param_ids.len() + code_bound(fs[k].instructions)
            + program_bound(fs.skip(k + 1)),
        program_bound(fs.skip(k)) <= program_bound(fs),
    decreases k,
{
    assert(fs.skip(k).drop_first() =~= fs.skip(k + 1));
    if k > 0 {
        assert(fs.skip(k) =~= fs.drop_first().skip(k - 1));
        assert(fs.skip(k + 1) =~= fs.drop_first().skip(k));
        lemma_program_bound_skip(fs.drop_first(), k - 1);
    }
}

/// What lowering one instruction may cost, by `lowered_bound`; `None` where
/// the instruction cannot be lowered or costs more than 2^28.
fn instruction_cost(ins: &IRInstruction) -> (r: Option<usize>)
    ensures
        match r {
            Some(c) => lowerable(ins@) && c == lowered_bound(ins@),
            None => !lowerable(ins@) || lowered_bound(ins@) > 0x1000_0000,
        },
{
    match ins {
        IRInstruction::Unary(op, _, _) => match op {
            UnaryOp::Decrement => None,
            _ => Some(4),
        },
        IRInstruction::Binary(op, _, _, _) => match op {
            BinaryOp::LogicalAnd | BinaryOp::LogicalOr | BinaryOp::Assign | BinaryOp::Conditional => None,
            _ => Some(4),
        },
        IRInstruction::FnCall(_, args, _) => {
            let n = args.len();
            if n > 0x1000_0000 {
                None
            } else {
                Some(4 + 2 * n)
            }
        },
        _ => Some(4),
    }
}

/// The frame offsets of the whole program fit in `i32`.
pub open spec fn asm_fits(p: SpecIRProgram) -> bool {
    place_functions(program_asm(p).functions, no_slots()).2.offset >= i32::MIN
}

/// The operand is not a pseudo register.
pub open spec fn is_placed(o: AsmOperand) -> bool {
    !(o is PseudoReg)
}

/// No operand of the instruction is a pseudo register.
pub open spec fn operands_placed(i: SpecAsmInstruction) -> bool {
    match i {
        SpecAsmInstruction::Mov(a, b) => is_placed(a) && is_placed(b),
        SpecAsmInstruction::Binary(_, a, b) => is_placed(a) && is_placed(b),
        SpecAsmInstruction::Cmp(a, b) => is_placed(a) && is_placed(b),
        SpecAsmInstruction::Unary(_, a) => is_placed(a),
        SpecAsmInstruction::Idiv(a) => is_placed(a),
        SpecAsmInstruction::SetCC(_, a) => is_placed(a),
        SpecAsmInstruction::Push(a) => is_placed(a),
        _ => true,
    }
}

/// After placement no operand is a pseudo register.
pub proof fn lemma_place_all_placed(s: Seq<SpecAsmInstruction>, st: Placement)
    ensures
        place_all(s, st).0.len() == s.len(),
        forall|k: int| 0 <= k < s.len() ==> operands_placed(#[trigger] place_all(s, st).0[k]),
    decreases s.len(),
{
    if s.len() > 0 {
        let (x, s1) = place_instruction(s[0], st);
        lemma_place_all_placed(s.drop_first(), s1);
        let rest = place_all(s.drop_first(), s1).0;
        assert forall|k: int| 0 <= k < s.len() implies operands_placed(#[trigger] place_all(s, st).0[k]) by {
            if k > 0 {
                assert(place_all(s, st).0[k] == rest[k - 1]);
            }
        }
    }
}

/// Every instruction that `fix` produces obeys the operand rules, and it
/// brings in no pseudo register.
pub proof fn lemma_flat_fixed(s: Seq<SpecAsmInstruction>)
    ensures
        forall|k: int| 0 <= k < flat_fixed(s).len() ==> operands_legal(#[trigger] flat_fixed(s)[k]),
        (forall|k: int| 0 <= k < s.len() ==> operands_placed(#[trigger] s[k]))
            ==> forall|k: int| 0 <= k < flat_fixed(s).len() ==> operands_placed(#[trigger] flat_fixed(s)[k]),
    decreases s.len(),
{
    if s.len() > 0 {
        lemma_fixed_legal(s[0]);
        lemma_flat_fixed(s.drop_first());
        let a = fixed(s[0]);
        let b = flat_fixed(s.drop_first());
        assert(flat_fixed(s) == a + b);
        assert forall|k: int| 0 <= k < flat_fixed(s).len() implies operands_legal(#[trigger] flat_fixed(s)[k]) by {
            if k >= a.len() {
                assert(flat_fixed(s)[k] == b[k - a.len()]);
            } else {
                assert(flat_fixed(s)[k] == a[k]);
            }
        }
        if forall|k: int| 0 <= k < s.len() ==> operands_placed(#[trigger] s[k]) {
            assert(operands_placed(s[0]));
            assert forall|k: int| 0 <= k < s.len() - 1 implies operands_placed(#[trigger] s.drop_first()[k]) by {
                assert(s.drop_first()[k] == s[k + 1]);
            }
            assert forall|k: int| 0 <= k < flat_fixed(s).len() implies operands_placed(#[trigger] flat_fixed(s)[k]) by {
                if k >= a.len() {
                    assert(flat_fixed(s)[k] == b[k - a.len()]);
                } else {
                    assert(flat_fixed(s)[k] == a[k]);
                }
            }
        }
    }
}

/// After placement no operand of any function is a pseudo register.
pub proof fn lemma_place_functions_placed(fs: Seq<SpecAsmFunction>, st: Placement)
    ensures
        place_functions(fs, st).0.len() == fs.len(),
        forall|i: int, k: int| #![trigger place_functions(fs, st).0[i].instructions[k]]
            0 <= i < fs.len() && 0 <= k < place_functions(fs, st).0[i].instructions.len()
            ==> operands_placed(place_functions(fs, st).0[i].instructions[k]),
    decreases fs.len(),
{
    if fs.len() > 0 {
        let (ins, s1) = place_all(fs[0].instructions, st);
        lemma_place_all_placed(fs[0].instructions, st);
        lemma_place_functions_placed(fs.drop_first(), s1);
        let r = place_functions(fs, st);
        let t = place_functions(fs.drop_first(), s1);
        assert forall|i: int, k: int| #![trigger r.0[i].instructions[k]]
            0 <= i < fs.len() && 0 <= k < r.0[i].instructions.len()
            implies operands_placed(r.0[i].instructions[k]) by {
            if i > 0 {
                assert(r.0[i] == t.0[i - 1]);
            }
        }
    }
}

proof fn lemma_place_functions_names(fs: Seq<SpecAsmFunction>, st: Placement)
    ensures
        place_functions(fs, st).0.len() == fs.len(),
        place_functions(fs, st).1.len() == fs.len(),
        forall|i: int| 0 <= i < fs.len() ==> (#[trigger] place_functions(fs, st).0[i]).name == fs[i].name,
        forall|i: int| 0 <= i < fs.len() ==> (#[trigger] place_functions(fs, st).1[i]).0 == fs[i].name,
    decreases fs.len(),
{
    if fs.len() > 0 {
        let (ins, s1) = place_all(fs[0].instructions, st);
        lemma_place_functions_names(fs.drop_first(), s1);
        let r = place_functions(fs, st);
        let t = place_functions(fs.drop_first(), s1);
        assert forall|i: int| 0 <= i < fs.len() implies (#[trigger] r.0[i]).name == fs[i].name by {
            if i > 0 {
                assert(r.0[i] == t.0[i - 1]);
            }
        }
        assert forall|i: int| 0 <= i < fs.len() implies (#[trigger] r.1[i]).0 == fs[i].name by {
            if i > 0 {
                assert(r.1[i] == t.1[i - 1]);
            }
        }
    }
}

proof fn lemma_last_size_found(sizes: Seq<(Seq<char>, i32)>, j: int, name: Seq<char>)
    requires
        0 <= j < sizes.len(),
        sizes[j].0 == name,
    ensures
        last_size(sizes, name) is Some,
    decreases sizes.len(),
{
    if sizes.last().0 != name {
        assert(sizes.drop_last()[j] == sizes[j]);
        lemma_last_size_found(sizes.drop_last(), j, name);
    }
}

fn round_to_16(n: usize) -> (r: usize)
    requires
        n + 15 <= usize::MAX,
    ensures
        r == round_up_16(n as int),
{
    let m: usize = n + 15;
    let r: usize = m & !15usize;
    assert(r == (m / 16) * 16) by (bit_vector)
        requires
            r == m & !15usize,
    ;
    r
}

/// One instruction on its own line, indented by a tab. A call to a
/// function of the program (one whose frame is recorded under the called
/// name) is a plain `call`; a call to any other function, one of a library,
/// goes through the procedure linkage table.
pub open spec fn instruction_line(i: SpecAsmInstruction, sizes: Seq<(Seq<char>, i32)>) -> Seq<char> {
    match i {
        SpecAsmInstruction::Call(name) => if last_size(sizes, call_target(name)) is Some {
            "\t"@ + instruction_text(i)
        } else {
            "\tcall "@ + call_target(name) + "@PLT"@
        },
        _ => "\t"@ + instruction_text(i),
    }
}

proof fn lemma_last_size_missing(sizes: Seq<(Seq<char>, i32)>, name: Seq<char>)
    requires
        forall|j: int| 0 <= j < sizes.len() ==> (#[trigger] sizes[j]).0 != name,
    ensures
        last_size(sizes, name) is None,
    decreases sizes.len(),
{
    if sizes.len() > 0 {
        assert(sizes.last() == sizes[sizes.len() - 1]);
        assert forall|j: int| 0 <= j < sizes.len() - 1 implies (#[trigger] sizes.drop_last()[j]).0 != name by {
            assert(sizes.drop_last()[j] == sizes[j]);
        }
        lemma_last_size_missing(sizes.drop_last(), name);
    }
}

/// With the frames that code generation records for a program, starting
/// from none, a call is written as a plain `call` exactly when the called
/// function is one of the program's own; a call to any other function, one
/// of a library, goes through the procedure linkage table.
pub proof fn lemma_library_calls_use_plt(p: SpecIRProgram, name: Seq<char>)
    ensures
        instruction_line(SpecAsmInstruction::Call(name), place_functions(program_asm(p).functions, no_slots()).1)
            == if exists|i: int| 0 <= i < p.functions.len() && (#[trigger] p.functions[i]).name == call_target(name) {
                "\tcall "@ + call_target(name)
            } else {
                "\tcall "@ + call_target(name) + "@PLT"@
            },
{
    let fs = program_asm(p).functions;
    let sizes = place_functions(fs, no_slots()).1;
    lemma_place_functions_names(fs, no_slots());
    assert("\t"@ + ("call "@ + call_target(name)) =~= "\tcall "@ + call_target(name)) by {
        reveal_strlit("\t");
        reveal_strlit("call ");
        reveal_strlit("\tcall ");
    }
    if exists|i: int| 0 <= i < p.functions.len() && (#[trigger] p.functions[i]).name == call_target(name) {
        let i = choose|i: int| 0 <= i < p.functions.len() && (#[trigger] p.functions[i]).name == call_target(name);
        assert(fs[i] == function_asm(p.functions[i]));
        assert(sizes[i].0 == call_target(name));
        lemma_last_size_found(sizes, i, call_target(name));
    } else {
        assert forall|j: int| 0 <= j < sizes.len() implies (#[trigger] sizes[j]).0 != call_target(name) by {
            assert(fs[j] == function_asm(p.functions[j]));
            assert(sizes[j].0 == fs[j].name);
        }
        lemma_last_size_missing(sizes, call_target(name));
    }
}

/// The lines of a sequence of instructions, each ended by a newline.
pub open spec fn lines_text(s: Seq<SpecAsmInstruction>, sizes: Seq<(Seq<char>, i32)>) -> Seq<char>
    decreases s.len(),
{
    if s.len() == 0 {
        seq![]
    } else {
        instruction_line(s[0], sizes) + "\n"@ + lines_text(s.drop_first(), sizes)
    }
}

/// A function: its global directive, its label, the frame set-up, its instructions.
pub open spec fn function_text(f: SpecAsmFunction, sizes: Seq<(Seq<char>, i32)>) -> Seq<char> {
    "\t.globl "@ + f.name + "\n"@ + f.name + ":\n"@ + "\tpushq %rbp\n"@ + "\tmovq %rsp, %rbp\n"@
        + lines_text(f.instructions, sizes)
}

/// The functions in order.
pub open spec fn functions_text(fs: Seq<SpecAsmFunction>, sizes: Seq<(Seq<char>, i32)>) -> Seq<char>
    decreases fs.len(),
{
    if fs.len() == 0 {
        seq![]
    } else {
        function_text(fs[0], sizes) + functions_text(fs.drop_first(), sizes)
    }
}

/// The assembly file: the functions, then the note that the stack is not executable.
pub open spec fn program_text(p: SpecAsmProgram, sizes: Seq<(Seq<char>, i32)>) -> Seq<char> {
    functions_text(p.functions, sizes) + "\t.section .note.GNU-stack\n"@
}

fn push_asm(code: &mut Vec<AsmInstruction>, ins: AsmInstruction)
    ensures
        final(code).deep_view() == old(code).deep_view().push(ins@),
{
    code.push(ins);
    assert(code.deep_view() =~= old(code).deep_view().push(ins@));
}

fn append_asm(code: &mut Vec<AsmInstruction>, other: Vec<AsmInstruction>)
    ensures
        final(code).deep_view() == old(code).deep_view() + other.deep_view(),
{
    let mut other = other;
    let ghost ov = other.deep_view();
    code.append(&mut other);
    assert(code.deep_view() =~= old(code).deep_view() + ov);
}

/// Turns three-address code into x86-64 assembly and writes it out; it
/// remembers the frame size of each function it has placed.
pub struct AssemblyGenerator {
    fn_stack_sizes: Vec<(String, i32)>,
}

impl Default for AssemblyGenerator {
    fn default() -> (g: Self)
        ensures
            g.stack_sizes() == Seq::<(Seq<char>, i32)>::empty(),
    {
        Self::new()
    }
}

impl AssemblyGenerator {
    /// The frame offsets recorded so far, by function name, oldest first.
    pub closed spec fn stack_sizes(&self) -> Seq<(Seq<char>, i32)> {
        Seq::new(self.fn_stack_sizes@.len(), |i: int| (self.fn_stack_sizes@[i].0@, self.fn_stack_sizes@[i].1))
    }

    /// A generator that has placed no function yet.
    pub fn new() -> (g: Self)
        ensures
            g.stack_sizes() == Seq::<(Seq<char>, i32)>::empty(),
    {
        let g = AssemblyGenerator { fn_stack_sizes: Vec::new() };
        assert(g.stack_sizes() =~= Seq::<(Seq<char>, i32)>::empty());
        g
    }

    fn pseudo_to_stack(&self, operand: &mut AsmOperand, curr_offset: &mut i32, tmp_to_offset: &mut Vec<(TempId, i32)>)
        requires
            place_operand(*old(operand), Placement { slots: old(tmp_to_offset)@, offset: *old(curr_offset) as int }).1.offset >= i32::MIN,
        ensures
            (*final(operand), Placement { slots: final(tmp_to_offset)@, offset: *final(curr_offset) as int })
                == place_operand(*old(operand), Placement { slots: old(tmp_to_offset)@, offset: *old(curr_offset) as int }),
    {
        if let AsmOperand::PseudoReg(tmp) = *operand {
            let stack_offset = match find_slot(tmp_to_offset, tmp) {
                Some(offset) => offset,
                None => {
                    *curr_offset = *curr_offset - 4;
                    tmp_to_offset.push((tmp, *curr_offset));
                    *curr_offset
                },
            };
            *operand = AsmOperand::Stack(stack_offset);
        }
    }

    /// The instruction with its operands placed, or `None` where it has no operand to place.
    fn placed_instruction(&self, ins: &AsmInstruction, curr_offset: &mut i32, tmp_to_offset: &mut Vec<(TempId, i32)>) -> (r: Option<AsmInstruction>)
        requires
            place_instruction(ins@, Placement { slots: old(tmp_to_offset)@, offset: *old(curr_offset) as int }).1.offset >= i32::MIN,
        ensures
            ({
                let (x, st) = place_instruction(ins@, Placement { slots: old(tmp_to_offset)@, offset: *old(curr_offset) as int });
                &&& st == (Placement { slots: final(tmp_to_offset)@, offset: *final(curr_offset) as int })
                &&& match r {
                    Some(n) => n@ == x,
                    None => ins@ == x,
                }
            }),
    {
        match ins {
            AsmInstruction::Mov(a, b) => {
                let (mut a, mut b) = (*a, *b);
                self.pseudo_to_stack(&mut a, curr_offset, tmp_to_offset);
                self.pseudo_to_stack(&mut b, curr_offset, tmp_to_offset);
                Some(AsmInstruction::Mov(a, b))
            },
            AsmInstruction::Binary(op, a, b) => {
                let (mut a, mut b) = (*a, *b);
                self.pseudo_to_stack(&mut a, curr_offset, tmp_to_offset);
                self.pseudo_to_stack(&mut b, curr_offset, tmp_to_offset);
                Some(AsmInstruction::Binary(*op, a, b))
            },
            AsmInstruction::Cmp(a, b) => {
                let (mut a, mut b) = (*a, *b);
                self.pseudo_to_stack(&mut a, curr_offset, tmp_to_offset);
                self.pseudo_to_stack(&mut b, curr_offset, tmp_to_offset);
                Some(AsmInstruction::Cmp(a, b))
            },
            AsmInstruction::Unary(op, a) => {
                let mut a = *a;
                self.pseudo_to_stack(&mut a, curr_offset, tmp_to_offset);
                Some(AsmInstruction::Unary(*op, a))
            },
            AsmInstruction::Idiv(a) => {
                let mut a = *a;
                self.pseudo_to_stack(&mut a, curr_offset, tmp_to_offset);
                Some(AsmInstruction::Idiv(a))
            },
            AsmInstruction::SetCC(c, a) => {
                let mut a = *a;
                self.pseudo_to_stack(&mut a, curr_offset, tmp_to_offset);
                Some(AsmInstruction::SetCC(*c, a))
            },
            AsmInstruction::Push(a) => {
                let mut a = *a;
                self.pseudo_to_stack(&mut a, curr_offset, tmp_to_offset);
                Some(AsmInstruction::Push(a))
            },
            _ => None,
        }
    }

    fn replace_in_instructions(&self, instrs: &mut Vec<AsmInstruction>, curr_offset: &mut i32, tmp_to_offset: &mut Vec<(TempId, i32)>)
        requires
            place_all(old(instrs).deep_view(), Placement { slots: old(tmp_to_offset)@, offset: *old(curr_offset) as int }).1.offset >= i32::MIN,
        ensures
            (final(instrs).deep_view(), Placement { slots: final(tmp_to_offset)@, offset: *final(curr_offset) as int })
                == place_all(old(instrs).deep_view(), Placement { slots: old(tmp_to_offset)@, offset: *old(curr_offset) as int }),
    {
        let ghost orig = instrs.deep_view();
        let ghost st0 = Placement { slots: tmp_to_offset@, offset: *curr_offset as int };
        let ghost goal = place_all(orig, st0);
        let n = instrs.len();
        let mut i: usize = 0;
        assert(orig.skip(0) =~= orig);
        assert(instrs.deep_view().take(0) + goal.0 =~= goal.0);
        while i < n
            invariant
                i <= n,
                n == instrs.len(),
                n == orig.len(),
                instrs.deep_view().skip(i as int) == orig.skip(i as int),
                goal.1.offset >= i32::MIN,
                ({
                    let r = place_all(orig.skip(i as int), Placement { slots: tmp_to_offset@, offset: *curr_offset as int });
                    &&& goal.0 == instrs.deep_view().take(i as int) + r.0
                    &&& goal.1 == r.1
                }),
            decreases n - i,
        {
            let ghost st = Placement { slots: tmp_to_offset@, offset: *curr_offset as int };
            let ghost before = instrs.deep_view();
            proof {
                assert(orig.skip(i as int).drop_first() =~= orig.skip(i + 1));
                assert(orig.skip(i as int)[0] == orig[i as int]);
                assert(before[i as int] == orig[i as int]) by {
                    assert(before.skip(i as int)[0] == before[i as int]);
                }
                let (x, s1) = place_instruction(orig[i as int], st);
                lemma_place_all_lowers(orig.skip(i + 1), s1);
            }
            let placed = self.placed_instruction(&instrs[i], curr_offset, tmp_to_offset);
            match placed {
                Some(new_ins) => {
                    instrs.set(i, new_ins);
                },
                None => {},
            }
            proof {
                let (x, s1) = place_instruction(orig[i as int], st);
                assert(instrs.deep_view() =~= before.update(i as int, x));
                assert(instrs.deep_view().skip(i + 1) =~= orig.skip(i + 1));
                assert(instrs.deep_view().take(i + 1) =~= before.take(i as int).push(x));
                assert(before.take(i as int) + (seq![x] + place_all(orig.skip(i + 1), s1).0)
                    =~= before.take(i as int).push(x) + place_all(orig.skip(i + 1), s1).0);
            }
            i = i + 1;
        }
        assert(orig.skip(n as int) =~= Seq::<SpecAsmInstruction>::empty());
        assert(instrs.deep_view().take(n as int) =~= instrs.deep_view());
        assert(goal.0 =~= instrs.deep_view());
    }

    fn replace_pseudo_registers(&mut self, asm_program: &mut AsmProgram)
        requires
            place_functions(old(asm_program)@.functions, no_slots()).2.offset >= i32::MIN,
        ensures
            ({
                let (placed, sizes, _) = place_functions(old(asm_program)@.functions, no_slots());
                &&& final(asm_program)@.functions == placed
                &&& final(self).stack_sizes() == old(self).stack_sizes() + sizes
            }),
    {
        let mut tmp_to_offset: Vec<(TempId, i32)> = Vec::new();
        let mut curr_offset: i32 = 0;
        let mut rest: Vec<AsmFunction> = Vec::new();
        std::mem::swap(&mut rest, &mut asm_program.functions);
        let ghost orig = rest.deep_view();
        let ghost goal = place_functions(orig, no_slots());
        let ghost sizes0 = self.stack_sizes();
        let mut done: Vec<AsmFunction> = Vec::new();
        let ghost mut done_sizes: Seq<(Seq<char>, i32)> = seq![];
        assert(tmp_to_offset@ =~= Seq::<(TempId, i32)>::empty());
        assert(done.deep_view() + goal.0 =~= goal.0);
        assert(done_sizes + goal.1 =~= goal.1);
        assert(self.stack_sizes() =~= sizes0 + done_sizes);
        while rest.len() > 0
            invariant
                goal == place_functions(orig, no_slots()),
                goal.2.offset >= i32::MIN,
                ({
                    let r = place_functions(rest.deep_view(), Placement { slots: tmp_to_offset@, offset: curr_offset as int });
                    &&& goal.0 == done.deep_view() + r.0
                    &&& goal.1 == done_sizes + r.1
                    &&& goal.2 == r.2
                }),
                self.stack_sizes() == sizes0 + done_sizes,
            decreases rest.len(),
        {
            let ghost rv = rest.deep_view();
            let ghost st = Placement { slots: tmp_to_offset@, offset: curr_offset as int };
            let mut f = rest.remove(0);
            proof {
                assert(rest.deep_view() =~= rv.drop_first());
                assert(f@ == rv[0]);
                let (ins, s1) = place_all(rv[0].instructions, st);
                lemma_place_functions_lowers(rv.drop_first(), s1);
            }
            self.replace_in_instructions(&mut f.instructions, &mut curr_offset, &mut tmp_to_offset);
            let ghost dsv = self.stack_sizes();
            self.fn_stack_sizes.push((f.name.clone(), curr_offset));
            let ghost dv = done.deep_view();
            let ghost fv = f@;
            done.push(f);
            proof {
                let (ins, s1) = place_all(rv[0].instructions, st);
                let t = place_functions(rv.drop_first(), s1);
                assert(self.stack_sizes() =~= dsv.push((fv.name, curr_offset)));
                assert(done.deep_view() =~= dv.push(fv));
                assert(fv == SpecAsmFunction { name: rv[0].name, instructions: ins });
                assert(dv + (seq![fv] + t.0) =~= dv.push(fv) + t.0);
                assert(done_sizes + (seq![(rv[0].name, s1.offset as i32)] + t.1) =~= done_sizes.push((fv.name, curr_offset)) + t.1);
                done_sizes = done_sizes.push((fv.name, curr_offset));
                assert(self.stack_sizes() =~= sizes0 + done_sizes);
            }
        }
        proof {
            let r = place_functions(rest.deep_view(), Placement { slots: tmp_to_offset@, offset: curr_offset as int });
            assert(r.0 =~= Seq::<SpecAsmFunction>::empty());
            assert(done.deep_view() + r.0 =~= done.deep_view());
            assert(done_sizes + r.1 =~= done_sizes);
        }
        asm_program.functions = done;
    }

    fn fix_instructions(&self, asm_instructions: Vec<AsmInstruction>, stack_size: usize) -> (r: Vec<AsmInstruction>)
        requires
            stack_size + 15 <= usize::MAX,
        ensures
            r.deep_view() == seq![SpecAsmInstruction::AllocateStack(round_up_16(stack_size as int) as usize)]
                + flat_fixed(asm_instructions.deep_view()),
    {
        let ghost orig = asm_instructions.deep_view();
        let mut out: Vec<AsmInstruction> = Vec::new();
        push_asm(&mut out, AsmInstruction::AllocateStack(round_to_16(stack_size)));
        let ghost head = out.deep_view();
        let mut rest = asm_instructions;
        let ghost mut k: int = 0;
        assert(orig.subrange(0, orig.len() as int) =~= orig);
        assert(out.deep_view() =~= head + flat_fixed(orig.take(0)));
        while rest.len() > 0
            invariant
                0 <= k <= orig.len(),
                rest.deep_view() == orig.subrange(k, orig.len() as int),
                head + flat_fixed(orig) == out.deep_view() + flat_fixed(rest.deep_view()),
            decreases rest.len(),
        {
            let ghost rv = rest.deep_view();
            let ins = rest.remove(0);
            proof {
                assert(rest.deep_view() =~= rv.drop_first());
                assert(ins@ == rv[0]);
            }
            let pieces = ins.fix();
            let ghost before = out.deep_view();
            append_asm(&mut out, pieces);
            proof {
                assert(flat_fixed(rv) == fixed(rv[0]) + flat_fixed(rv.drop_first()));
                assert(before + flat_fixed(rv) =~= out.deep_view() + flat_fixed(rest.deep_view()));
                k = k + 1;
                assert(rest.deep_view() =~= orig.subrange(k, orig.len() as int));
            }
        }
        assert(flat_fixed(rest.deep_view()) =~= Seq::<SpecAsmInstruction>::empty());
        assert(out.deep_view() =~= head + flat_fixed(orig));
        out
    }

    /// The most recently recorded offset for `name`.
    fn stack_size_of(&self, name: &String) -> (r: Option<i32>)
        ensures
            r == last_size(self.stack_sizes(), name@),
    {
        let ghost all = self.stack_sizes();
        let mut j: usize = self.fn_stack_sizes.len();
        assert(all.take(j as int) =~= all);
        while j > 0
            invariant
                j <= self.fn_stack_sizes.len(),
                all == self.stack_sizes(),
                last_size(all, name@) == last_size(all.take(j as int), name@),
            decreases j,
        {
            j = j - 1;
            let entry = &self.fn_stack_sizes[j];
            assert(all.take(j + 1).last() == all[j as int]);
            assert(all.take(j + 1).drop_last() =~= all.take(j as int));
            if entry.0 == *name {
                return Some(entry.1);
            }
        }
        None
    }

    /// Whether `ir_to_asm` can take the program: every instruction can be
    /// lowered and, by the bound that the shape of its instructions gives,
    /// the lowered code is small enough for every frame offset to fit in
    /// `i32`.
    pub fn lowering_fits(&self, ir_program: &IRProgram) -> (r: bool)
        ensures
            r == (program_lowerable(ir_program@) && 8 * program_bound(ir_program@.functions) <= 0x8000_0000),
            r ==> asm_fits(ir_program@),
    {
        let ghost fs = ir_program@.functions;
        let cap: usize = 0x1000_0000;
        let mut total: usize = 0;
        let mut j: usize = ir_program.functions.len();
        assert(fs.skip(j as int) =~= Seq::<SpecIRFunction>::empty());
        while j > 0
            invariant
                fs == ir_program@.functions,
                cap == 0x1000_0000,
                j <= fs.len(),
                total <= cap,
                total == program_bound(fs.skip(j as int)),
                forall|k: int| j <= k < fs.len() ==> function_lowerable(#[trigger] fs[k]),
            decreases j,
        {
            j = j - 1;
            let f = &ir_program.functions[j];
            let ghost ins = f@.instructions;
            proof {
                assert(fs[j as int] == f@);
                lemma_program_bound_skip(fs, j as int);
            }
            let mut sum: usize = total;
            let mut i: usize = f.instructions.len();
            assert(ins.skip(i as int) =~= Seq::<SpecIRInstruction>::empty());
            while i > 0
                invariant
                    fs == ir_program@.functions,
                    cap == 0x1000_0000,
                    j < fs.len(),
                    fs[j as int] == f@,
                    ins == f@.instructions,
                    i <= ins.len(),
                    sum <= cap,
                    total == program_bound(fs.skip(j as int + 1)),
                    sum == total + code_bound(ins.skip(i as int)),
                    program_bound(fs.skip(j as int)) == f@.param_ids.len() + code_bound(ins) + total,
                    program_bound(fs.skip(j as int)) <= program_bound(fs),
                    forall|k: int| i <= k < ins.len() ==> lowerable(#[trigger] ins[k]),
                decreases i,
            {
                i = i - 1;
                proof {
                    assert(ins[i as int] == f.instructions[i as int]@);
                    lemma_code_bound_skip(ins, i as int);
                }
                match instruction_cost(&f.instructions[i]) {
                    None => {
                        proof {
                            if !lowerable(ins[i as int]) {
                                assert(!function_lowerable(fs[j as int]));
                            }
                        }
                        return false;
                    },
                    Some(c) => {
                        if c > cap - sum {
                            assert(program_bound(fs) > cap);
                            return false;
                        }
                        sum = sum + c;
                    },
                }
            }
            assert(ins.skip(0) =~= ins);
            let p = f.param_ids.len();
            if p > cap - sum {
                assert(program_bound(fs) > cap);
                return false;
            }
            total = sum + p;
            assert(function_lowerable(fs[j as int]));
        }
        assert(fs.skip(0) =~= fs);
        proof {
            lemma_frames_fit(ir_program@);
        }
        true
    }

    /// Lowers every function, places its locations in the frame, reserves
    /// the frame and rewrites instructions that break x86-64 operand rules.
    ///
    /// One slot table serves the whole program: a location keeps its slot
    /// across functions, and each function reserves the space of all slots
    /// handed out up to its end.
    pub fn ir_to_asm(&mut self, ir_program: IRProgram) -> (r: AsmProgram)
        requires
            program_lowerable(ir_program@),
            asm_fits(ir_program@),
        ensures
            ({
                let (placed, sizes, _) = place_functions(program_asm(ir_program@).functions, no_slots());
                &&& final(self).stack_sizes() == old(self).stack_sizes() + sizes
                &&& r@.functions == Seq::new(placed.len(), |i: int| finish_function(placed[i], final(self).stack_sizes()))
            }),
            forall|i: int, k: int| #![trigger r@.functions[i].instructions[k]]
                0 <= i < r@.functions.len() && 0 <= k < r@.functions[i].instructions.len()
                ==> operands_legal(r@.functions[i].instructions[k]) && operands_placed(r@.functions[i].instructions[k]),
    {
        let mut asm_program = self.translate_program(ir_program);
        let ghost unplaced = asm_program@.functions;
        self.replace_pseudo_registers(&mut asm_program);
        let ghost placed = asm_program@.functions;
        let ghost all_sizes = self.stack_sizes();
        proof {
            lemma_place_functions_names(unplaced, no_slots());
        }
        let mut rest: Vec<AsmFunction> = Vec::new();
        std::mem::swap(&mut rest, &mut asm_program.functions);
        let mut done: Vec<AsmFunction> = Vec::new();
        let ghost mut k: int = 0;
        assert(rest.deep_view() =~= placed.subrange(0, placed.len() as int));
        while rest.len() > 0
            invariant
                0 <= k <= placed.len(),
                placed == place_functions(unplaced, no_slots()).0,
                all_sizes == self.stack_sizes(),
                all_sizes == old(self).stack_sizes() + place_functions(unplaced, no_slots()).1,
                placed.len() == unplaced.len(),
                place_functions(unplaced, no_slots()).1.len() == unplaced.len(),
                forall|i: int| 0 <= i < unplaced.len() ==> (#[trigger] placed[i]).name == unplaced[i].name,
                forall|i: int| 0 <= i < unplaced.len() ==> (#[trigger] place_functions(unplaced, no_slots()).1[i]).0 == unplaced[i].name,
                rest.deep_view() == placed.subrange(k, placed.len() as int),
                done.deep_view() == Seq::new(k as nat, |i: int| finish_function(placed[i], all_sizes)),
            decreases rest.len(),
        {
            let ghost rv = rest.deep_view();
            let f = rest.remove(0);
            proof {
                assert(rest.deep_view() =~= rv.drop_first());
                assert(f@ == rv[0]);
                assert(rv[0] == placed[k]);
                let sz = place_functions(unplaced, no_slots()).1;
                let j = old(self).stack_sizes().len() + k;
                assert(all_sizes[j] == sz[k]);
                lemma_last_size_found(all_sizes, j, f.name@);
            }
            let AsmFunction { name, instructions } = f;
            let size = match self.stack_size_of(&name) {
                Some(sz) => sz,
                None => {
                    assert(false);
                    0
                },
            };
            let bytes: usize = if size < 0 { (0 - (size as i64)) as usize } else { size as usize };
            let fixed_instructions = self.fix_instructions(instructions, bytes);
            let af = AsmFunction { name, instructions: fixed_instructions };
            let ghost dv = done.deep_view();
            done.push(af);
            proof {
                assert(af@ == finish_function(placed[k], all_sizes));
                assert(done.deep_view() =~= dv.push(af@));
                k = k + 1;
                assert(rest.deep_view() =~= placed.subrange(k, placed.len() as int));
                assert(done.deep_view() =~= Seq::new(k as nat, |i: int| finish_function(placed[i], all_sizes)));
            }
        }
        let r = AsmProgram { functions: done };
        proof {
            assert forall|i: int, k2: int| #![trigger r@.functions[i].instructions[k2]]
                0 <= i < r@.functions.len() && 0 <= k2 < r@.functions[i].instructions.len()
                implies operands_legal(r@.functions[i].instructions[k2]) && operands_placed(r@.functions[i].instructions[k2]) by {
                lemma_place_functions_placed(unplaced, no_slots());
                let ins = placed[i].instructions;
                assert(forall|j: int| 0 <= j < ins.len() ==> operands_placed(#[trigger] ins[j]));
                lemma_flat_fixed(ins);
                let body = flat_fixed(ins);
                assert(r@.functions[i].instructions == seq![SpecAsmInstruction::AllocateStack(
                    frame_bytes(last_size(all_sizes, placed[i].name).unwrap()) as usize)] + body);
                if k2 > 0 {
                    assert(r@.functions[i].instructions[k2] == body[k2 - 1]);
                }
            }
        }
        r
    }

    fn instruction_line(&self, ins: &AsmInstruction) -> (s: String)
        requires
            emittable(ins@),
        ensures
            s@ == instruction_line(ins@, self.stack_sizes()),
    {
        match ins {
            AsmInstruction::Call(fn_name) => {
                let n = fn_name.as_str().unicode_len();
                let target = String::from_str(fn_name.as_str().substring_char(0, n - 2));
                if self.stack_size_of(&target).is_none() {
                    let mut s = String::from_str("\tcall ");
                    s.append(target.as_str());
                    s.append("@PLT");
                    return s;
                }
            },
            _ => {},
        }
        let text = ins.to_text();
        let mut s = String::from_str("\t");
        s.append(text.as_str());
        s
    }

    fn append_function(&self, out: &mut String, function: &AsmFunction)
        requires
            forall|k: int| 0 <= k < function@.instructions.len() ==> emittable(#[trigger] function@.instructions[k]),
        ensures
            final(out)@ == old(out)@ + function_text(function@, self.stack_sizes()),
    {
        let ghost f = function@;
        let ghost sizes = self.stack_sizes();
        out.append("\t.globl ");
        out.append(function.name.as_str());
        out.append("\n");
        out.append(function.name.as_str());
        out.append(":\n");
        out.append("\tpushq %rbp\n");
        out.append("\tmovq %rsp, %rbp\n");
        let ghost head = out@;
        let n = function.instructions.len();
        let mut i: usize = 0;
        assert(f.instructions.skip(0) =~= f.instructions);
        assert(head + lines_text(f.instructions, sizes) =~= out@ + lines_text(f.instructions.skip(0), sizes));
        while i < n
            invariant
                i <= n,
                n == f.instructions.len(),
                f == function@,
                sizes == self.stack_sizes(),
                forall|k: int| 0 <= k < f.instructions.len() ==> emittable(#[trigger] f.instructions[k]),
                head + lines_text(f.instructions, sizes) == out@ + lines_text(f.instructions.skip(i as int), sizes),
            decreases n - i,
        {
            assert(f.instructions[i as int] == function.instructions[i as int]@);
            let line = self.instruction_line(&function.instructions[i]);
            let ghost before = out@;
            out.append(line.as_str());
            out.append("\n");
            proof {
                let rest = f.instructions.skip(i as int);
                assert(rest.drop_first() =~= f.instructions.skip(i + 1));
                assert(rest[0] == f.instructions[i as int]);
                assert(before + lines_text(rest, sizes) =~= out@ + lines_text(f.instructions.skip(i + 1), sizes));
            }
            i = i + 1;
        }
        assert(lines_text(f.instructions.skip(n as int), sizes) =~= Seq::<char>::empty());
        assert(out@ =~= old(out)@ + function_text(f, sizes));
    }

    /// The program as assembly text, one function after another.
    pub fn generate_asm(&self, program: AsmProgram) -> (s: String)
        requires
            program_emittable(program@),
        ensures
            s@ == program_text(program@, self.stack_sizes()),
    {
        let ghost p = program@;
        let ghost sizes = self.stack_sizes();
        let mut out = String::new();
        let n = program.functions.len();
        let mut i: usize = 0;
        assert(p.functions.skip(0) =~= p.functions);
        assert(functions_text(p.functions, sizes) =~= out@ + functions_text(p.functions.skip(0), sizes));
        while i < n
            invariant
                i <= n,
                n == p.functions.len(),
                p == program@,
                sizes == self.stack_sizes(),
                program_emittable(p),
                functions_text(p.functions, sizes) == out@ + functions_text(p.functions.skip(i as int), sizes),
            decreases n - i,
        {
            let function = &program.functions[i];
            assert(function@ == p.functions[i as int]);
            assert forall|k: int| 0 <= k < function@.instructions.len() implies emittable(#[trigger] function@.instructions[k]) by {
                assert(emittable(p.functions[i as int].instructions[k]));
            }
            let ghost before = out@;
            self.append_function(&mut out, function);
            proof {
                let rest = p.functions.skip(i as int);
                assert(rest.drop_first() =~= p.functions.skip(i + 1));
                assert(rest[0] == p.functions[i as int]);
                assert(before + functions_text(rest, sizes) =~= out@ + functions_text(p.functions.skip(i + 1), sizes));
            }
            i = i + 1;
        }
        assert(functions_text(p.functions.skip(n as int), sizes) =~= Seq::<char>::empty());
        out.append("\t.section .note.GNU-stack\n");
        assert(out@ =~= program_text(p, sizes));
        out
    }

    /// The assembly for every function, in order; locations are still pseudo registers.
    pub fn translate_program(&self, ir_program: IRProgram) -> (r: AsmProgram)
        requires
            program_lowerable(ir_program@),
        ensures
            r@ == program_asm(ir_program@),
    {
        let ghost orig = ir_program@.functions;
        let mut rest = ir_program.functions;
        let mut functions: Vec<AsmFunction> = Vec::new();
        let ghost mut k: int = 0;
        while rest.len() > 0
            invariant
                0 <= k <= orig.len(),
                rest.deep_view() == orig.subrange(k, orig.len() as int),
                functions.deep_view() == Seq::new(k as nat, |i: int| function_asm(orig[i])),
                forall|j: int| 0 <= j < orig.len() ==> function_lowerable(#[trigger] orig[j]),
            decreases rest.len(),
        {
            let ghost rv = rest.deep_view();
            let f = rest.remove(0);
            proof {
                assert(rest.deep_view() =~= rv.drop_first());
                assert(f@ == rv[0]);
                assert(rv[0] == orig[k]);
            }
            let af = self.translate_function(f);
            let ghost dv = functions.deep_view();
            functions.push(af);
            proof {
                assert(functions.deep_view() =~= dv.push(af@));
                k = k + 1;
                assert(rest.deep_view() =~= orig.subrange(k, orig.len() as int));
                assert(functions.deep_view() =~= Seq::new(k as nat, |i: int| function_asm(orig[i])));
            }
        }
        let r = AsmProgram { functions };
        assert(r@.functions =~= program_asm(ir_program@).functions);
        r
    }

    fn translate_function(&self, ir_function: IRFunction) -> (r: AsmFunction)
        requires
            function_lowerable(ir_function@),
        ensures
            r@ == function_asm(ir_function@),
    {
        let ghost ids = ir_function.param_ids@;
        let mut instructions: Vec<AsmInstruction> = Vec::new();
        let n = ir_function.param_ids.len();
        let mut i: usize = 0;
        while i < n
            invariant
                i <= n,
                n == ids.len(),
                ids == ir_function.param_ids@,
                16 + 8 * n <= usize::MAX,
                function_lowerable(ir_function@),
                instructions.deep_view() == param_moves(ids).take(i as int),
            decreases n - i,
        {
            let id = ir_function.param_ids[i];
            let src = if i < 6 {
                AsmOperand::Register(arg_reg(i))
            } else {
                let offset: usize = 16 + (i - 6) * 8;
                AsmOperand::Stack(#[verifier::truncate] (offset as i32))
            };
            push_asm(&mut instructions, AsmInstruction::Mov(src, AsmOperand::PseudoReg(id)));
            i = i + 1;
            assert(instructions.deep_view() =~= param_moves(ids).take(i as int));
        }
        assert forall|k: int| 0 <= k < ir_function.instructions.len() implies lowerable(
            #[trigger] ir_function.instructions.deep_view()[k],
        ) by {
            assert(ir_function@.instructions == ir_function.instructions.deep_view());
            assert(ir_function.instructions.deep_view().len() == ir_function.instructions.len());
            assert(lowerable(ir_function@.instructions[k]));
        }
        let body = self.translate_instructions(ir_function.instructions);
        append_asm(&mut instructions, body);
        let r = AsmFunction { name: ir_function.name, instructions };
        assert(r@.instructions =~= function_asm(ir_function@).instructions);
        r
    }

    fn translate_instructions(&self, ir_instructions: Vec<IRInstruction>) -> (r: Vec<AsmInstruction>)
        requires
            forall|k: int| 0 <= k < ir_instructions.len() ==> lowerable(#[trigger] ir_instructions.deep_view()[k]),
        ensures
            r.deep_view() == flat_lowered(ir_instructions.deep_view()),
    {
        let ghost s = ir_instructions.deep_view();
        let mut out: Vec<AsmInstruction> = Vec::new();
        let n = ir_instructions.len();
        let mut i: usize = 0;
        assert(s.skip(0) =~= s);
        while i < n
            invariant
                i <= n,
                n == s.len(),
                s == ir_instructions.deep_view(),
                forall|k: int| 0 <= k < s.len() ==> lowerable(#[trigger] s[k]),
                flat_lowered(s) == out.deep_view() + flat_lowered(s.skip(i as int)),
            decreases n - i,
        {
            let piece = ir_instructions[i].to_asm();
            let ghost before = out.deep_view();
            append_asm(&mut out, piece);
            assert(s.skip(i as int).drop_first() =~= s.skip(i + 1));
            assert(flat_lowered(s.skip(i as int)) == lowered(s[i as int]) + flat_lowered(s.skip(i + 1)));
            i = i + 1;
            assert(flat_lowered(s) =~= out.deep_view() + flat_lowered(s.skip(i as int)));
        }
        assert(flat_lowered(s.skip(n as int)) =~= Seq::<SpecAsmInstruction>::empty());
        assert(out.deep_view() =~= flat_lowered(s));
        out
    }
}

} // verus!
