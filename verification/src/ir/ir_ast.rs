use vstd::prelude::*;

use crate::codegen::asm_ast::{
    reg, AsmBinaryOp, AsmCondCode, AsmInstruction, AsmOperand, AsmRegister, AsmUnaryOp,
    SpecAsmInstruction,
};
use crate::common::{BinaryOp, TempId, UnaryOp};
use crate::text::{decimal, usize_text};

verus! {

/// Three-address code for a whole program: one entry per defined function.
#[derive(Debug, PartialEq)]
pub struct IRProgram {
    pub functions: Vec<IRFunction>,
}

#[derive(Debug, PartialEq)]
pub struct IRFunction {
    pub name: String,
    pub params: Vec<String>,
    pub param_ids: Vec<TempId>,
    pub instructions: Vec<IRInstruction>,
}

#[derive(Debug, PartialEq)]
pub enum IRInstruction {
    Return(IRVal),
    /// op, src, dst
    Unary(UnaryOp, IRVal, IRVal),
    /// op, src1, src2, dst
    Binary(BinaryOp, IRVal, IRVal, IRVal),
    /// src, dst
    Copy(IRVal, IRVal),
    Jump(Label),
    JumpIfZero(IRVal, Label),
    JumpIfNotZero(IRVal, Label),
    Label(Label),
    /// name, args, dst
    FnCall(String, Vec<IRVal>, IRVal),
}

/// An operand: a constant or a numbered location.
#[derive(Debug, PartialEq, Eq, Clone, Copy, Structural)]
pub enum IRVal {
    Constant(i32),
    Var(TempId),
}

/// A jump target; `kind` says what it marks and `id` tells apart targets of the same kind.
#[derive(Debug, PartialEq, Eq, Hash, Clone, Copy, Structural)]
pub struct Label {
    pub kind: LabelKind,
    pub id: u32,
}

/// What a label marks.
#[derive(Debug, PartialEq, Eq, Hash, Clone, Copy, Structural)]
pub enum LabelKind {
    True,
    False,
    End,
    LoopStart,
    Break,
    Continue,
    Else,
}

impl LabelKind {
    /// The word that names the kind in assembly labels.
    pub open spec fn spec_text(self) -> Seq<char> {
        match self {
            LabelKind::True => "true"@,
            LabelKind::False => "false"@,
            LabelKind::End => "end"@,
            LabelKind::LoopStart => "start_loop"@,
            LabelKind::Break => "break_loop"@,
            LabelKind::Continue => "continue_loop"@,
            LabelKind::Else => "else"@,
        }
    }

    /// The word that names the kind in assembly labels.
    pub fn text(&self) -> (r: &'static str)
        ensures
            r@ == self.spec_text(),
    {
        match self {
            LabelKind::True => "true",
            LabelKind::False => "false",
            LabelKind::End => "end",
            LabelKind::LoopStart => "start_loop",
            LabelKind::Break => "break_loop",
            LabelKind::Continue => "continue_loop",
            LabelKind::Else => "else",
        }
    }
}

impl Label {
    /// `label_<kind>_<id>`.
    pub open spec fn spec_text(self) -> Seq<char> {
        "label_"@ + self.kind.spec_text() + "_"@ + decimal(self.id as int)
    }

    /// The label's name in assembly: `label_<kind>_<id>`.
    pub fn to_text(&self) -> (s: String)
        ensures
            s@ == self.spec_text(),
    {
        let mut s = String::from_str("label_");
        s.append(self.kind.text());
        s.append("_");
        let digits = usize_text(self.id as usize);
        s.append(digits.as_str());
        s
    }
}

impl IRVal {
    pub open spec fn spec_to_asm(self) -> AsmOperand {
        match self {
            IRVal::Constant(i) => AsmOperand::Imm(i),
            IRVal::Var(t) => AsmOperand::PseudoReg(t),
        }
    }

    /// A constant becomes an immediate, a location a pseudo register.
    pub fn to_asm(&self) -> (r: AsmOperand)
        ensures
            r == self.spec_to_asm(),
    {
        match self {
            IRVal::Constant(i) => AsmOperand::Imm(*i),
            IRVal::Var(t) => AsmOperand::PseudoReg(*t),
        }
    }
}

/// The register that carries argument `i` (for `i` below six) in the System V calling convention.
pub open spec fn arg_register(i: int) -> AsmRegister {
    if i == 0 {
        AsmRegister::Edi
    } else if i == 1 {
        AsmRegister::Esi
    } else if i == 2 {
        AsmRegister::Edx
    } else if i == 3 {
        AsmRegister::Ecx
    } else if i == 4 {
        AsmRegister::R8d
    } else {
        AsmRegister::R9d
    }
}

/// The register that carries argument `i`.
pub fn arg_reg(i: usize) -> (r: AsmRegister)
    requires
        i < 6,
    ensures
        r == arg_register(i as int),
{
    if i == 0 {
        AsmRegister::Edi
    } else if i == 1 {
        AsmRegister::Esi
    } else if i == 2 {
        AsmRegister::Edx
    } else if i == 3 {
        AsmRegister::Ecx
    } else if i == 4 {
        AsmRegister::R8d
    } else {
        AsmRegister::R9d
    }
}

/// The operations that become `setcc`, with their condition codes.
pub open spec fn relation_code(op: BinaryOp) -> Option<AsmCondCode> {
    match op {
        BinaryOp::Eq => Some(AsmCondCode::E),
        BinaryOp::Neq => Some(AsmCondCode::NE),
        BinaryOp::Less => Some(AsmCondCode::L),
        BinaryOp::Greater => Some(AsmCondCode::G),
        BinaryOp::Leq => Some(AsmCondCode::LE),
        BinaryOp::Geq => Some(AsmCondCode::GE),
        _ => None,
    }
}

/// The instruction can be lowered: unary operations are `~`, `-` or `!`;
/// binary ones arithmetic or relational; a call's argument area fits in `usize`.
pub open spec fn lowerable(i: SpecIRInstruction) -> bool {
    match i {
        SpecIRInstruction::Unary(op, _, _) => op != UnaryOp::Decrement,
        SpecIRInstruction::Binary(op, _, _, _) => op == BinaryOp::Add || op == BinaryOp::Sub || op == BinaryOp::Mul
            || op == BinaryOp::Div || op == BinaryOp::Mod || relation_code(op) is Some,
        SpecIRInstruction::FnCall(_, args, _) => 8 * args.len() + 8 <= usize::MAX,
        _ => true,
    }
}

/// The arguments passed in registers: the first six.
pub open spec fn register_args(args: Seq<IRVal>) -> Seq<IRVal> {
    if args.len() > 6 { args.take(6) } else { args }
}

/// The arguments passed on the stack: all after the sixth.
pub open spec fn stack_args(args: Seq<IRVal>) -> Seq<IRVal> {
    if args.len() > 6 { args.skip(6) } else { seq![] }
}

/// Pushing one argument: immediates and registers directly, anything else through `%eax`.
pub open spec fn push_arg(a: IRVal) -> Seq<SpecAsmInstruction> {
    let o = a.spec_to_asm();
    if o is Imm || o is Register {
        seq![SpecAsmInstruction::Push(o)]
    } else {
        seq![SpecAsmInstruction::Mov(o, reg(AsmRegister::Eax)), SpecAsmInstruction::Push(reg(AsmRegister::Eax))]
    }
}

/// Pushing arguments last first.
pub open spec fn push_args_rev(s: Seq<IRVal>) -> Seq<SpecAsmInstruction>
    decreases s.len(),
{
    if s.len() == 0 {
        seq![]
    } else {
        push_args_rev(s.drop_first()) + push_arg(s[0])
    }
}

/// Padding that keeps the stack 16-byte aligned across a call with `n` stacked arguments.
pub open spec fn call_padding(n: int) -> int {
    if n % 2 == 1 { 8 } else { 0 }
}

/// A call: pad the stack if needed, fill the argument registers, push the
/// rest last first, call, release the argument area, store `%eax`.
pub open spec fn call_code(name: Seq<char>, args: Seq<IRVal>, dst: IRVal) -> Seq<SpecAsmInstruction> {
    let st = stack_args(args);
    let rg = register_args(args);
    let pad = call_padding(st.len() as int);
    let bytes = 8 * st.len() + pad;
    (if pad > 0 { seq![SpecAsmInstruction::AllocateStack(pad as usize)] } else { seq![] })
        + Seq::new(rg.len(), |i: int| SpecAsmInstruction::Mov(rg[i].spec_to_asm(), reg(arg_register(i))))
        + push_args_rev(st)
        + seq![SpecAsmInstruction::Call(name)]
        + (if bytes > 0 { seq![SpecAsmInstruction::DeallocateStack(bytes as usize)] } else { seq![] })
        + seq![SpecAsmInstruction::Mov(reg(AsmRegister::Eax), dst.spec_to_asm())]
}

/// The assembly operation of a unary operator that has one.
pub open spec fn asm_unop(op: UnaryOp) -> AsmUnaryOp {
    if op == UnaryOp::BitwiseNot { AsmUnaryOp::Not } else { AsmUnaryOp::Neg }
}

/// The assembly operation of an arithmetic operator that has one.
pub open spec fn asm_binop(op: BinaryOp) -> AsmBinaryOp {
    if op == BinaryOp::Add { AsmBinaryOp::Add } else if op == BinaryOp::Sub { AsmBinaryOp::Sub } else { AsmBinaryOp::Imul }
}

/// `~` is `not`, `-` is `neg`; `!` has no single instruction.
fn translate_unop(op: UnaryOp) -> (r: AsmUnaryOp)
    requires
        op == UnaryOp::BitwiseNot || op == UnaryOp::Negation,
    ensures
        r == asm_unop(op),
{
    match op {
        UnaryOp::BitwiseNot => AsmUnaryOp::Not,
        _ => AsmUnaryOp::Neg,
    }
}

/// `+`, `-` and `*` have an instruction each; division and the relations are lowered otherwise.
fn translate_binop(op: BinaryOp) -> (r: AsmBinaryOp)
    requires
        op == BinaryOp::Add || op == BinaryOp::Sub || op == BinaryOp::Mul,
    ensures
        r == asm_binop(op),
{
    match op {
        BinaryOp::Add => AsmBinaryOp::Add,
        BinaryOp::Sub => AsmBinaryOp::Sub,
        _ => AsmBinaryOp::Imul,
    }
}

/// The assembly for one instruction of three-address code.
pub open spec fn lowered(i: SpecIRInstruction) -> Seq<SpecAsmInstruction> {
    match i {
        SpecIRInstruction::Return(v) => seq![SpecAsmInstruction::Mov(v.spec_to_asm(), reg(AsmRegister::Eax)), SpecAsmInstruction::Ret],
        SpecIRInstruction::Unary(op, src, dst) => if op == UnaryOp::LogicalNot {
            seq![
                SpecAsmInstruction::Cmp(AsmOperand::Imm(0), src.spec_to_asm()),
                SpecAsmInstruction::Mov(AsmOperand::Imm(0), dst.spec_to_asm()),
                SpecAsmInstruction::SetCC(AsmCondCode::E, dst.spec_to_asm()),
            ]
        } else {
            seq![
                SpecAsmInstruction::Mov(src.spec_to_asm(), dst.spec_to_asm()),
                SpecAsmInstruction::Unary(asm_unop(op), dst.spec_to_asm()),
            ]
        },
        SpecIRInstruction::Binary(op, a, b, dst) => if op == BinaryOp::Div || op == BinaryOp::Mod {
            seq![
                SpecAsmInstruction::Mov(a.spec_to_asm(), reg(AsmRegister::Eax)),
                SpecAsmInstruction::Cdq,
                SpecAsmInstruction::Idiv(b.spec_to_asm()),
                SpecAsmInstruction::Mov(reg(if op == BinaryOp::Div { AsmRegister::Eax } else { AsmRegister::Edx }), dst.spec_to_asm()),
            ]
        } else if relation_code(op) is Some {
            seq![
                SpecAsmInstruction::Cmp(b.spec_to_asm(), a.spec_to_asm()),
                SpecAsmInstruction::Mov(AsmOperand::Imm(0), dst.spec_to_asm()),
                SpecAsmInstruction::SetCC(relation_code(op).unwrap(), dst.spec_to_asm()),
            ]
        } else {
            seq![
                SpecAsmInstruction::Mov(a.spec_to_asm(), dst.spec_to_asm()),
                SpecAsmInstruction::Binary(asm_binop(op), b.spec_to_asm(), dst.spec_to_asm()),
            ]
        },
        SpecIRInstruction::Copy(src, dst) => seq![SpecAsmInstruction::Mov(src.spec_to_asm(), dst.spec_to_asm())],
        SpecIRInstruction::Jump(l) => seq![SpecAsmInstruction::Jmp(l)],
        SpecIRInstruction::JumpIfZero(c, l) => seq![
            SpecAsmInstruction::Cmp(AsmOperand::Imm(0), c.spec_to_asm()),
            SpecAsmInstruction::JmpCC(AsmCondCode::E, l),
        ],
        SpecIRInstruction::JumpIfNotZero(c, l) => seq![
            SpecAsmInstruction::Cmp(AsmOperand::Imm(0), c.spec_to_asm()),
            SpecAsmInstruction::JmpCC(AsmCondCode::NE, l),
        ],
        SpecIRInstruction::Label(l) => seq![SpecAsmInstruction::Label(l)],
        SpecIRInstruction::FnCall(name, args, dst) => call_code(name, args, dst),
    }
}

fn push_asm(code: &mut Vec<AsmInstruction>, ins: AsmInstruction)
    ensures
        final(code).deep_view() == old(code).deep_view().push(ins@),
{
    code.push(ins);
    assert(code.deep_view() =~= old(code).deep_view().push(ins@));
}

/// The assembly for a call; see [`call_code`].
fn call_to_asm(name: &String, args: &Vec<IRVal>, dst: &IRVal) -> (r: Vec<AsmInstruction>)
    requires
        8 * args.len() + 8 <= usize::MAX,
    ensures
        r.deep_view() == call_code(name@, args@, *dst),
{
    let ghost a = args@;
    let ghost st = stack_args(a);
    let ghost rg = register_args(a);
    let n = args.len();
    let n_stack: usize = if n > 6 { n - 6 } else { 0 };
    let n_reg: usize = n - n_stack;
    assert(st.len() == n_stack && rg.len() == n_reg);
    assert(forall|i: int| 0 <= i < n_reg ==> rg[i] == a[i]);
    let stack_padding: usize = if n_stack % 2 == 1 { 8 } else { 0 };
    let mut instructions: Vec<AsmInstruction> = Vec::new();
    if stack_padding > 0 {
        push_asm(&mut instructions, AsmInstruction::AllocateStack(stack_padding));
    }
    let ghost pad_part = instructions.deep_view();
    let mut i: usize = 0;
    while i < n_reg
        invariant
            i <= n_reg,
            n_reg <= 6,
            n_reg <= n,
            n == args.len(),
            a == args@,
            forall|k: int| 0 <= k < n_reg ==> rg[k] == a[k],
            instructions.deep_view() == pad_part + Seq::new(i as nat, |k: int| SpecAsmInstruction::Mov(rg[k].spec_to_asm(), reg(arg_register(k)))),
        decreases n_reg - i,
    {
        let operand = args[i].to_asm();
        let register = arg_reg(i);
        push_asm(&mut instructions, AsmInstruction::Mov(operand, AsmOperand::Register(register)));
        i = i + 1;
        assert(instructions.deep_view() =~= pad_part + Seq::new(i as nat, |k: int| SpecAsmInstruction::Mov(rg[k].spec_to_asm(), reg(arg_register(k)))));
    }
    let ghost reg_part = instructions.deep_view();
    assert(a.subrange(n_reg as int, n as int) =~= st);
    let mut j: usize = n;
    assert(instructions.deep_view() =~= reg_part + push_args_rev(a.subrange(j as int, n as int)));
    while j > n_reg
        invariant
            n_reg <= j <= n,
            n == args.len(),
            a == args@,
            instructions.deep_view() == reg_part + push_args_rev(a.subrange(j as int, n as int)),
        decreases j,
    {
        j = j - 1;
        let operand = args[j].to_asm();
        match operand {
            AsmOperand::Imm(_) | AsmOperand::Register(_) => {
                push_asm(&mut instructions, AsmInstruction::Push(operand));
            },
            AsmOperand::PseudoReg(_) | AsmOperand::Stack(_) => {
                push_asm(&mut instructions, AsmInstruction::Mov(operand, AsmOperand::Register(AsmRegister::Eax)));
                push_asm(&mut instructions, AsmInstruction::Push(AsmOperand::Register(AsmRegister::Eax)));
            },
        }
        assert(a.subrange(j as int, n as int).drop_first() =~= a.subrange(j + 1, n as int));
        assert(instructions.deep_view() =~= reg_part + push_args_rev(a.subrange(j as int, n as int)));
    }
    push_asm(&mut instructions, AsmInstruction::Call(name.clone()));
    let bytes_to_remove: usize = 8 * n_stack + stack_padding;
    if bytes_to_remove > 0 {
        push_asm(&mut instructions, AsmInstruction::DeallocateStack(bytes_to_remove));
    }
    push_asm(&mut instructions, AsmInstruction::Mov(AsmOperand::Register(AsmRegister::Eax), dst.to_asm()));
    assert(instructions.deep_view() =~= call_code(name@, args@, *dst));
    instructions
}

impl IRInstruction {
    /// The assembly for this instruction; operands are still pseudo registers.
    pub fn to_asm(&self) -> (r: Vec<AsmInstruction>)
        requires
            lowerable(self@),
        ensures
            r.deep_view() == lowered(self@),
    {
        let r: Vec<AsmInstruction> = match self {
            IRInstruction::Return(v) => vec![
                AsmInstruction::Mov(v.to_asm(), AsmOperand::Register(AsmRegister::Eax)),
                AsmInstruction::Ret,
            ],
            IRInstruction::Unary(op, src, dst) => match op {
                UnaryOp::LogicalNot => vec![
                    AsmInstruction::Cmp(AsmOperand::Imm(0), src.to_asm()),
                    AsmInstruction::Mov(AsmOperand::Imm(0), dst.to_asm()),
                    AsmInstruction::SetCC(AsmCondCode::E, dst.to_asm()),
                ],
                _ => {
                    let aop = translate_unop(*op);
                    vec![AsmInstruction::Mov(src.to_asm(), dst.to_asm()), AsmInstruction::Unary(aop, dst.to_asm())]
                },
            },
            IRInstruction::Binary(op, src1, src2, dst) => match op {
                BinaryOp::Div | BinaryOp::Mod => {
                    let src_reg = match op {
                        BinaryOp::Div => AsmRegister::Eax,
                        _ => AsmRegister::Edx,
                    };
                    vec![
                        AsmInstruction::Mov(src1.to_asm(), AsmOperand::Register(AsmRegister::Eax)),
                        AsmInstruction::Cdq,
                        AsmInstruction::Idiv(src2.to_asm()),
                        AsmInstruction::Mov(AsmOperand::Register(src_reg), dst.to_asm()),
                    ]
                },
                BinaryOp::Eq | BinaryOp::Neq | BinaryOp::Less | BinaryOp::Greater | BinaryOp::Leq | BinaryOp::Geq => {
                    let cond = match op {
                        BinaryOp::Eq => AsmCondCode::E,
                        BinaryOp::Neq => AsmCondCode::NE,
                        BinaryOp::Less => AsmCondCode::L,
                        BinaryOp::Greater => AsmCondCode::G,
                        BinaryOp::Leq => AsmCondCode::LE,
                        _ => AsmCondCode::GE,
                    };
                    vec![
                        AsmInstruction::Cmp(src2.to_asm(), src1.to_asm()),
                        AsmInstruction::Mov(AsmOperand::Imm(0), dst.to_asm()),
                        AsmInstruction::SetCC(cond, dst.to_asm()),
                    ]
                },
                _ => {
                    let aop = translate_binop(*op);
                    vec![AsmInstruction::Mov(src1.to_asm(), dst.to_asm()), AsmInstruction::Binary(aop, src2.to_asm(), dst.to_asm())]
                },
            },
            IRInstruction::Copy(src, dst) => vec![AsmInstruction::Mov(src.to_asm(), dst.to_asm())],
            IRInstruction::Jump(label) => vec![AsmInstruction::Jmp(*label)],
            IRInstruction::JumpIfZero(condition, target) => vec![
                AsmInstruction::Cmp(AsmOperand::Imm(0), condition.to_asm()),
                AsmInstruction::JmpCC(AsmCondCode::E, *target),
            ],
            IRInstruction::JumpIfNotZero(condition, target) => vec![
                AsmInstruction::Cmp(AsmOperand::Imm(0), condition.to_asm()),
                AsmInstruction::JmpCC(AsmCondCode::NE, *target),
            ],
            IRInstruction::Label(label) => vec![AsmInstruction::Label(*label)],
            IRInstruction::FnCall(name, args, dst) => call_to_asm(name, args, dst),
        };
        assert(r.deep_view() =~= lowered(self@));
        r
    }
}

pub struct SpecIRProgram {
    pub functions: Seq<SpecIRFunction>,
}

pub struct SpecIRFunction {
    pub name: Seq<char>,
    pub params: Seq<Seq<char>>,
    pub param_ids: Seq<TempId>,
    pub instructions: Seq<SpecIRInstruction>,
}

pub enum SpecIRInstruction {
    Return(IRVal),
    Unary(UnaryOp, IRVal, IRVal),
    Binary(BinaryOp, IRVal, IRVal, IRVal),
    Copy(IRVal, IRVal),
    Jump(Label),
    JumpIfZero(IRVal, Label),
    JumpIfNotZero(IRVal, Label),
    Label(Label),
    FnCall(Seq<char>, Seq<IRVal>, IRVal),
}

impl View for IRInstruction {
    type V = SpecIRInstruction;

    open spec fn view(&self) -> SpecIRInstruction {
        match self {
            IRInstruction::Return(v) => SpecIRInstruction::Return(*v),
            IRInstruction::Unary(op, a, b) => SpecIRInstruction::Unary(*op, *a, *b),
            IRInstruction::Binary(op, a, b, c) => SpecIRInstruction::Binary(*op, *a, *b, *c),
            IRInstruction::Copy(a, b) => SpecIRInstruction::Copy(*a, *b),
            IRInstruction::Jump(l) => SpecIRInstruction::Jump(*l),
            IRInstruction::JumpIfZero(v, l) => SpecIRInstruction::JumpIfZero(*v, *l),
            IRInstruction::JumpIfNotZero(v, l) => SpecIRInstruction::JumpIfNotZero(*v, *l),
            IRInstruction::Label(l) => SpecIRInstruction::Label(*l),
            IRInstruction::FnCall(n, args, d) => SpecIRInstruction::FnCall(n@, args@, *d),
        }
    }
}

impl DeepView for IRInstruction {
    type V = SpecIRInstruction;

    open spec fn deep_view(&self) -> SpecIRInstruction {
        self@
    }
}

pub open spec fn names_view(v: Seq<String>) -> Seq<Seq<char>> {
    Seq::new(v.len(), |i: int| v[i]@)
}

impl View for IRFunction {
    type V = SpecIRFunction;

    open spec fn view(&self) -> SpecIRFunction {
        SpecIRFunction {
            name: self.name@,
            params: names_view(self.params@),
            param_ids: self.param_ids@,
            instructions: self.instructions.deep_view(),
        }
    }
}

impl DeepView for IRFunction {
    type V = SpecIRFunction;

    open spec fn deep_view(&self) -> SpecIRFunction {
        self@
    }
}

impl View for IRProgram {
    type V = SpecIRProgram;

    open spec fn view(&self) -> SpecIRProgram {
        SpecIRProgram { functions: self.functions.deep_view() }
    }
}

} // verus!
