use vstd::prelude::*;

use crate::common::TempId;
use crate::ir::ir_ast::Label;
use crate::text::{decimal, int_text, usize_text};

verus! {

/// An x86-64 program in AT&T order: one entry per function.
#[derive(Debug, PartialEq)]
pub struct AsmProgram {
    pub functions: Vec<AsmFunction>,
}

#[derive(Debug, PartialEq)]
pub struct AsmFunction {
    pub name: String,
    pub instructions: Vec<AsmInstruction>,
}

/// One instruction; two-operand forms are `source, destination`.
#[derive(Debug, PartialEq)]
pub enum AsmInstruction {
    Mov(AsmOperand, AsmOperand),
    Unary(AsmUnaryOp, AsmOperand),
    Binary(AsmBinaryOp, AsmOperand, AsmOperand),
    Cmp(AsmOperand, AsmOperand),
    Idiv(AsmOperand),
    Cdq,
    Jmp(Label),
    JmpCC(AsmCondCode, Label),
    SetCC(AsmCondCode, AsmOperand),
    Label(Label),
    AllocateStack(usize),
    DeallocateStack(usize),
    Push(AsmOperand),
    Call(String),
    Ret,
}

/// An operand: an immediate, a register, a location not yet placed in the
/// frame, or a frame slot at an offset from `%rbp`.
#[derive(Debug, PartialEq, Eq, Clone, Copy, Structural)]
pub enum AsmOperand {
    Imm(i32),
    Register(AsmRegister),
    PseudoReg(TempId),
    Stack(i32),
}

#[derive(Debug, PartialEq, Eq, Clone, Copy, Structural)]
pub enum AsmUnaryOp {
    Neg,
    Not,
}

#[derive(Debug, PartialEq, Eq, Clone, Copy, Structural)]
pub enum AsmBinaryOp {
    Add,
    Sub,
    Imul,
}

/// The 32-bit registers the code generator uses.
#[derive(Debug, PartialEq, Eq, Clone, Copy, Structural)]
pub enum AsmRegister {
    Eax,
    Ecx,
    Edx,
    Edi,
    Esi,
    R8d,
    R9d,
    R10d,
    R11d,
}

/// Condition codes for conditional jumps and sets.
#[derive(Debug, PartialEq, Eq, Clone, Copy, Structural)]
pub enum AsmCondCode {
    E,
    NE,
    G,
    GE,
    L,
    LE,
}

/// [`AsmInstruction`] with the called function's name taken by its view.
pub enum SpecAsmInstruction {
    Mov(AsmOperand, AsmOperand),
    Unary(AsmUnaryOp, AsmOperand),
    Binary(AsmBinaryOp, AsmOperand, AsmOperand),
    Cmp(AsmOperand, AsmOperand),
    Idiv(AsmOperand),
    Cdq,
    Jmp(Label),
    JmpCC(AsmCondCode, Label),
    SetCC(AsmCondCode, AsmOperand),
    Label(Label),
    AllocateStack(usize),
    DeallocateStack(usize),
    Push(AsmOperand),
    Call(Seq<char>),
    Ret,
}

pub struct SpecAsmFunction {
    pub name: Seq<char>,
    pub instructions: Seq<SpecAsmInstruction>,
}

pub struct SpecAsmProgram {
    pub functions: Seq<SpecAsmFunction>,
}

impl View for AsmInstruction {
    type V = SpecAsmInstruction;

    open spec fn view(&self) -> SpecAsmInstruction {
        match self {
            AsmInstruction::Mov(a, b) => SpecAsmInstruction::Mov(*a, *b),
            AsmInstruction::Unary(op, a) => SpecAsmInstruction::Unary(*op, *a),
            AsmInstruction::Binary(op, a, b) => SpecAsmInstruction::Binary(*op, *a, *b),
            AsmInstruction::Cmp(a, b) => SpecAsmInstruction::Cmp(*a, *b),
            AsmInstruction::Idiv(a) => SpecAsmInstruction::Idiv(*a),
            AsmInstruction::Cdq => SpecAsmInstruction::Cdq,
            AsmInstruction::Jmp(l) => SpecAsmInstruction::Jmp(*l),
            AsmInstruction::JmpCC(c, l) => SpecAsmInstruction::JmpCC(*c, *l),
            AsmInstruction::SetCC(c, a) => SpecAsmInstruction::SetCC(*c, *a),
            AsmInstruction::Label(l) => SpecAsmInstruction::Label(*l),
            AsmInstruction::AllocateStack(n) => SpecAsmInstruction::AllocateStack(*n),
            AsmInstruction::DeallocateStack(n) => SpecAsmInstruction::DeallocateStack(*n),
            AsmInstruction::Push(a) => SpecAsmInstruction::Push(*a),
            AsmInstruction::Call(name) => SpecAsmInstruction::Call(name@),
            AsmInstruction::Ret => SpecAsmInstruction::Ret,
        }
    }
}

impl DeepView for AsmInstruction {
    type V = SpecAsmInstruction;

    open spec fn deep_view(&self) -> SpecAsmInstruction {
        self@
    }
}

impl View for AsmFunction {
    type V = SpecAsmFunction;

    open spec fn view(&self) -> SpecAsmFunction {
        SpecAsmFunction { name: self.name@, instructions: self.instructions.deep_view() }
    }
}

impl DeepView for AsmFunction {
    type V = SpecAsmFunction;

    open spec fn deep_view(&self) -> SpecAsmFunction {
        self@
    }
}

impl View for AsmProgram {
    type V = SpecAsmProgram;

    open spec fn view(&self) -> SpecAsmProgram {
        SpecAsmProgram { functions: self.functions.deep_view() }
    }
}

impl AsmRegister {
    /// The register's 32-bit name.
    pub open spec fn spec_name(self) -> Seq<char> {
        match self {
            AsmRegister::Eax => "eax"@,
            AsmRegister::Ecx => "ecx"@,
            AsmRegister::Edx => "edx"@,
            AsmRegister::Edi => "edi"@,
            AsmRegister::Esi => "esi"@,
            AsmRegister::R8d => "r8d"@,
            AsmRegister::R9d => "r9d"@,
            AsmRegister::R10d => "r10d"@,
            AsmRegister::R11d => "r11d"@,
        }
    }

    /// The name of the register's low byte.
    pub open spec fn spec_byte_name(self) -> Seq<char> {
        match self {
            AsmRegister::Eax => "al"@,
            AsmRegister::Ecx => "cl"@,
            AsmRegister::Edx => "dl"@,
            AsmRegister::Edi => "dil"@,
            AsmRegister::Esi => "sil"@,
            AsmRegister::R8d => "r8b"@,
            AsmRegister::R9d => "r9b"@,
            AsmRegister::R10d => "r10b"@,
            AsmRegister::R11d => "r11b"@,
        }
    }

    /// The name of the whole 64-bit register.
    pub open spec fn spec_quad_name(self) -> Seq<char> {
        match self {
            AsmRegister::Eax => "rax"@,
            AsmRegister::Ecx => "rcx"@,
            AsmRegister::Edx => "rdx"@,
            AsmRegister::Edi => "rdi"@,
            AsmRegister::Esi => "rsi"@,
            AsmRegister::R8d => "r8"@,
            AsmRegister::R9d => "r9"@,
            AsmRegister::R10d => "r10"@,
            AsmRegister::R11d => "r11"@,
        }
    }

    /// The register's 32-bit name.
    pub fn name(&self) -> (r: &'static str)
        ensures
            r@ == self.spec_name(),
    {
        match self {
            AsmRegister::Eax => "eax",
            AsmRegister::Ecx => "ecx",
            AsmRegister::Edx => "edx",
            AsmRegister::Edi => "edi",
            AsmRegister::Esi => "esi",
            AsmRegister::R8d => "r8d",
            AsmRegister::R9d => "r9d",
            AsmRegister::R10d => "r10d",
            AsmRegister::R11d => "r11d",
        }
    }

    fn as_1_byte(&self) -> (r: &'static str)
        ensures
            r@ == self.spec_byte_name(),
    {
        match self {
            AsmRegister::Eax => "al",
            AsmRegister::Ecx => "cl",
            AsmRegister::Edx => "dl",
            AsmRegister::Edi => "dil",
            AsmRegister::Esi => "sil",
            AsmRegister::R8d => "r8b",
            AsmRegister::R9d => "r9b",
            AsmRegister::R10d => "r10b",
            AsmRegister::R11d => "r11b",
        }
    }

    fn as_8_bytes(&self) -> (r: &'static str)
        ensures
            r@ == self.spec_quad_name(),
    {
        match self {
            AsmRegister::Eax => "rax",
            AsmRegister::Ecx => "rcx",
            AsmRegister::Edx => "rdx",
            AsmRegister::Edi => "rdi",
            AsmRegister::Esi => "rsi",
            AsmRegister::R8d => "r8",
            AsmRegister::R9d => "r9",
            AsmRegister::R10d => "r10",
            AsmRegister::R11d => "r11",
        }
    }
}

/// Each condition code prints a suffix of its own, spelled as x86-64 spells
/// it: `e`, `l` and `g` for equal, less and greater, an `e` appended for
/// "or equal" and an `n` put in front for "not".
pub proof fn lemma_condition_suffixes()
    ensures
        forall|a: AsmCondCode, b: AsmCondCode| #[trigger] a.spec_suffix() == #[trigger] b.spec_suffix() ==> a == b,
        AsmCondCode::E.spec_suffix() == seq!['e'],
        AsmCondCode::L.spec_suffix() == seq!['l'],
        AsmCondCode::G.spec_suffix() == seq!['g'],
        AsmCondCode::LE.spec_suffix() == AsmCondCode::L.spec_suffix().push('e'),
        AsmCondCode::GE.spec_suffix() == AsmCondCode::G.spec_suffix().push('e'),
        AsmCondCode::NE.spec_suffix() == seq!['n'] + AsmCondCode::E.spec_suffix(),
{
    reveal_strlit("e");
    reveal_strlit("ne");
    reveal_strlit("l");
    reveal_strlit("le");
    reveal_strlit("g");
    reveal_strlit("ge");
    assert(AsmCondCode::E.spec_suffix() =~= seq!['e']);
    assert(AsmCondCode::L.spec_suffix() =~= seq!['l']);
    assert(AsmCondCode::G.spec_suffix() =~= seq!['g']);
    assert(AsmCondCode::LE.spec_suffix() =~= seq!['l', 'e']);
    assert(AsmCondCode::GE.spec_suffix() =~= seq!['g', 'e']);
    assert(AsmCondCode::NE.spec_suffix() =~= seq!['n', 'e']);
    assert(seq!['l'].push('e') =~= seq!['l', 'e']);
    assert(seq!['g'].push('e') =~= seq!['g', 'e']);
    assert(seq!['n'] + seq!['e'] =~= seq!['n', 'e']);
    assert forall|a: AsmCondCode, b: AsmCondCode| #[trigger] a.spec_suffix() == #[trigger] b.spec_suffix() implies a == b by {
        let sa = a.spec_suffix();
        let sb = b.spec_suffix();
        assert(sa.len() == sb.len());
        if sa.len() > 0 {
            assert(sa[0] == sb[0]);
        }
        if sa.len() > 1 {
            assert(sa[1] == sb[1]);
        }
    }
}

impl AsmCondCode {
    /// The suffix that the code gives `j` and `set`.
    pub open spec fn spec_suffix(self) -> Seq<char> {
        match self {
            AsmCondCode::E => "e"@,
            AsmCondCode::NE => "ne"@,
            AsmCondCode::L => "l"@,
            AsmCondCode::LE => "le"@,
            AsmCondCode::G => "g"@,
            AsmCondCode::GE => "ge"@,
        }
    }

    /// The suffix that the code gives `j` and `set`.
    pub fn suffix(&self) -> (r: &'static str)
        ensures
            r@ == self.spec_suffix(),
    {
        match self {
            AsmCondCode::E => "e",
            AsmCondCode::NE => "ne",
            AsmCondCode::L => "l",
            AsmCondCode::LE => "le",
            AsmCondCode::G => "g",
            AsmCondCode::GE => "ge",
        }
    }
}

impl AsmUnaryOp {
    pub open spec fn spec_mnemonic(self) -> Seq<char> {
        match self {
            AsmUnaryOp::Neg => "negl"@,
            AsmUnaryOp::Not => "notl"@,
        }
    }

    /// The 32-bit mnemonic.
    pub fn mnemonic(&self) -> (r: &'static str)
        ensures
            r@ == self.spec_mnemonic(),
    {
        match self {
            AsmUnaryOp::Neg => "negl",
            AsmUnaryOp::Not => "notl",
        }
    }
}

impl AsmBinaryOp {
    pub open spec fn spec_mnemonic(self) -> Seq<char> {
        match self {
            AsmBinaryOp::Add => "addl"@,
            AsmBinaryOp::Sub => "subl"@,
            AsmBinaryOp::Imul => "imull"@,
        }
    }

    /// The 32-bit mnemonic.
    pub fn mnemonic(&self) -> (r: &'static str)
        ensures
            r@ == self.spec_mnemonic(),
    {
        match self {
            AsmBinaryOp::Add => "addl",
            AsmBinaryOp::Sub => "subl",
            AsmBinaryOp::Imul => "imull",
        }
    }
}

/// How an operand is written: `$imm`, `%reg` or `offset(%rbp)`. A pseudo
/// register has no spelling.
pub open spec fn operand_text(o: AsmOperand) -> Seq<char> {
    match o {
        AsmOperand::Imm(i) => "$"@ + decimal(i as int),
        AsmOperand::Register(r) => "%"@ + r.spec_name(),
        AsmOperand::PseudoReg(_) => seq![],
        AsmOperand::Stack(off) => decimal(off as int) + "(%rbp)"@,
    }
}

/// The name a call jumps to: the resolved name without its last two characters.
pub open spec fn call_target(name: Seq<char>) -> Seq<char> {
    name.subrange(0, name.len() - 2)
}

/// The character is in the ASCII range.
pub open spec fn ascii_char(c: char) -> bool {
    (c as u32) < 128
}

/// A resolved function name ends in two ASCII characters that a call drops.
pub open spec fn call_name_ok(name: Seq<char>) -> bool {
    name.len() >= 2 && ascii_char(name[name.len() - 1]) && ascii_char(name[name.len() - 2])
}

/// The instruction can be written out: it has no pseudo register, and a
/// call's name ends in two ASCII characters.
pub open spec fn emittable(i: SpecAsmInstruction) -> bool {
    match i {
        SpecAsmInstruction::Mov(a, b) => !(a is PseudoReg) && !(b is PseudoReg),
        SpecAsmInstruction::Binary(_, a, b) => !(a is PseudoReg) && !(b is PseudoReg),
        SpecAsmInstruction::Cmp(a, b) => !(a is PseudoReg) && !(b is PseudoReg),
        SpecAsmInstruction::Unary(_, a) => !(a is PseudoReg),
        SpecAsmInstruction::Idiv(a) => !(a is PseudoReg),
        SpecAsmInstruction::SetCC(_, a) => !(a is PseudoReg),
        SpecAsmInstruction::Push(a) => !(a is PseudoReg),
        SpecAsmInstruction::Call(name) => call_name_ok(name),
        _ => true,
    }
}

/// The AT&T spelling of an instruction, without indentation.
pub open spec fn instruction_text(i: SpecAsmInstruction) -> Seq<char> {
    match i {
        SpecAsmInstruction::Mov(a, b) => "movl "@ + operand_text(a) + ", "@ + operand_text(b),
        SpecAsmInstruction::Unary(op, a) => op.spec_mnemonic() + " "@ + operand_text(a),
        SpecAsmInstruction::Binary(op, a, b) => op.spec_mnemonic() + " "@ + operand_text(a) + ", "@ + operand_text(b),
        SpecAsmInstruction::Cmp(a, b) => "cmpl "@ + operand_text(a) + ", "@ + operand_text(b),
        SpecAsmInstruction::Idiv(a) => "idivl "@ + operand_text(a),
        SpecAsmInstruction::Cdq => "cdq"@,
        SpecAsmInstruction::Jmp(l) => "jmp .L_"@ + l.spec_text(),
        SpecAsmInstruction::JmpCC(c, l) => "j"@ + c.spec_suffix() + " .L_"@ + l.spec_text(),
        SpecAsmInstruction::SetCC(c, a) => match a {
            AsmOperand::Register(r) => "set"@ + c.spec_suffix() + " %"@ + r.spec_byte_name(),
            _ => "set"@ + c.spec_suffix() + " "@ + operand_text(a),
        },
        SpecAsmInstruction::Label(l) => ".L_"@ + l.spec_text() + ":"@,
        SpecAsmInstruction::AllocateStack(n) => "subq $"@ + decimal(n as int) + ", %rsp"@,
        SpecAsmInstruction::DeallocateStack(n) => "addq $"@ + decimal(n as int) + ", %rsp"@,
        SpecAsmInstruction::Push(a) => match a {
            AsmOperand::Register(r) => "pushq %"@ + r.spec_quad_name(),
            _ => "pushq "@ + operand_text(a),
        },
        SpecAsmInstruction::Call(name) => "call "@ + call_target(name),
        SpecAsmInstruction::Ret => "movq %rbp, %rsp\npopq %rbp\nret"@,
    }
}

impl AsmOperand {
    /// How the operand is written.
    pub fn to_text(&self) -> (s: String)
        requires
            !(self is PseudoReg),
        ensures
            s@ == operand_text(*self),
    {
        match self {
            AsmOperand::Imm(i) => {
                let digits = int_text(*i as i64);
                let mut s = String::from_str("$");
                s.append(digits.as_str());
                s
            },
            AsmOperand::Register(r) => {
                let mut s = String::from_str("%");
                s.append(r.name());
                s
            },
            AsmOperand::PseudoReg(_) => String::new(),
            AsmOperand::Stack(off) => {
                let mut s = int_text(*off as i64);
                s.append("(%rbp)");
                s
            },
        }
    }
}

/// Every instruction of every function can be written out.
pub open spec fn program_emittable(p: SpecAsmProgram) -> bool {
    forall|i: int, k: int| #![trigger p.functions[i].instructions[k]]
        0 <= i < p.functions.len() && 0 <= k < p.functions[i].instructions.len()
        ==> emittable(p.functions[i].instructions[k])
}

fn operand_emittable(o: &AsmOperand) -> (r: bool)
    ensures
        r == !(*o is PseudoReg),
{
    !matches!(o, AsmOperand::PseudoReg(_))
}

impl AsmInstruction {
    /// Whether the instruction can be written out.
    pub fn is_emittable(&self) -> (r: bool)
        ensures
            r == emittable(self@),
    {
        match self {
            AsmInstruction::Mov(a, b) | AsmInstruction::Binary(_, a, b) | AsmInstruction::Cmp(a, b) => {
                operand_emittable(a) && operand_emittable(b)
            },
            AsmInstruction::Unary(_, a) | AsmInstruction::Idiv(a) | AsmInstruction::SetCC(_, a) | AsmInstruction::Push(a) => {
                operand_emittable(a)
            },
            AsmInstruction::Call(name) => {
                let n = name.as_str().unicode_len();
                if n < 2 {
                    false
                } else {
                    let last = name.as_str().get_char(n - 1);
                    let second = name.as_str().get_char(n - 2);
                    (last as u32) < 128 && (second as u32) < 128
                }
            },
            _ => true,
        }
    }
}

impl AsmProgram {
    /// Whether every instruction of the program can be written out.
    pub fn is_emittable(&self) -> (r: bool)
        ensures
            r == program_emittable(self@),
    {
        let mut i: usize = 0;
        while i < self.functions.len()
            invariant
                i <= self.functions.len(),
                forall|i2: int, k: int| #![trigger self@.functions[i2].instructions[k]]
                    0 <= i2 < i && 0 <= k < self@.functions[i2].instructions.len()
                    ==> emittable(self@.functions[i2].instructions[k]),
            decreases self.functions.len() - i,
        {
            let f = &self.functions[i];
            let mut k: usize = 0;
            while k < f.instructions.len()
                invariant
                    k <= f.instructions.len(),
                    i < self.functions.len(),
                    f == &self.functions[i as int],
                    forall|k2: int| 0 <= k2 < k ==> emittable(#[trigger] self@.functions[i as int].instructions[k2]),
                decreases f.instructions.len() - k,
            {
                if !f.instructions[k].is_emittable() {
                    assert(self@.functions[i as int].instructions[k as int] == f.instructions[k as int]@);
                    return false;
                }
                assert(self@.functions[i as int].instructions[k as int] == f.instructions[k as int]@);
                k = k + 1;
            }
            i = i + 1;
        }
        true
    }
}

/// `prefix`, then `a`, then `sep`, then `b`.
fn join_operands(prefix: &str, a: &AsmOperand, b: &AsmOperand) -> (s: String)
    requires
        !(a is PseudoReg),
        !(b is PseudoReg),
    ensures
        s@ == prefix@ + operand_text(*a) + ", "@ + operand_text(*b),
{
    let mut s = String::from_str(prefix);
    let at = a.to_text();
    s.append(at.as_str());
    s.append(", ");
    let bt = b.to_text();
    s.append(bt.as_str());
    s
}

/// `prefix` followed by `rest`.
fn prefixed(prefix: &str, rest: &str) -> (s: String)
    ensures
        s@ == prefix@ + rest@,
{
    let mut s = String::from_str(prefix);
    s.append(rest);
    s
}

impl AsmInstruction {
    /// The AT&T spelling of the instruction, without indentation.
    pub fn to_text(&self) -> (s: String)
        requires
            emittable(self@),
        ensures
            s@ == instruction_text(self@),
    {
        match self {
            AsmInstruction::Mov(a, b) => join_operands("movl ", a, b),
            AsmInstruction::Unary(op, a) => {
                let mut s = prefixed(op.mnemonic(), " ");
                let at = a.to_text();
                s.append(at.as_str());
                s
            },
            AsmInstruction::Binary(op, a, b) => {
                let head = prefixed(op.mnemonic(), " ");
                join_operands(head.as_str(), a, b)
            },
            AsmInstruction::Cmp(a, b) => join_operands("cmpl ", a, b),
            AsmInstruction::Idiv(a) => {
                let at = a.to_text();
                prefixed("idivl ", at.as_str())
            },
            AsmInstruction::Cdq => String::from_str("cdq"),
            AsmInstruction::Jmp(l) => {
                let lt = l.to_text();
                prefixed("jmp .L_", lt.as_str())
            },
            AsmInstruction::JmpCC(c, l) => {
                let mut s = prefixed("j", c.suffix());
                s.append(" .L_");
                let lt = l.to_text();
                s.append(lt.as_str());
                s
            },
            AsmInstruction::SetCC(c, a) => {
                let mut s = prefixed("set", c.suffix());
                match a {
                    AsmOperand::Register(r) => {
                        s.append(" %");
                        s.append(r.as_1_byte());
                    },
                    _ => {
                        s.append(" ");
                        let at = a.to_text();
                        s.append(at.as_str());
                    },
                }
                s
            },
            AsmInstruction::Label(l) => {
                let lt = l.to_text();
                let mut s = prefixed(".L_", lt.as_str());
                s.append(":");
                s
            },
            AsmInstruction::AllocateStack(n) => {
                let nt = usize_text(*n);
                let mut s = prefixed("subq $", nt.as_str());
                s.append(", %rsp");
                s
            },
            AsmInstruction::DeallocateStack(n) => {
                let nt = usize_text(*n);
                let mut s = prefixed("addq $", nt.as_str());
                s.append(", %rsp");
                s
            },
            AsmInstruction::Push(a) => match a {
                AsmOperand::Register(r) => prefixed("pushq %", r.as_8_bytes()),
                _ => {
                    let at = a.to_text();
                    prefixed("pushq ", at.as_str())
                },
            },
            AsmInstruction::Call(name) => {
                let n = name.as_str().unicode_len();
                let target = name.as_str().substring_char(0, n - 2);
                prefixed("call ", target)
            },
            AsmInstruction::Ret => String::from_str("movq %rbp, %rsp\npopq %rbp\nret"),
        }
    }
}

/// The register operand `r`.
pub open spec fn reg(r: AsmRegister) -> AsmOperand {
    AsmOperand::Register(r)
}

/// What `fix` makes of `i`: a memory-to-memory `mov`, `add`, `sub` or `cmp`
/// goes through `%r10d`; `imul` into memory goes through `%r11d`; `cmp`
/// against an immediate puts the immediate in `%r11d`; `idiv` of an
/// immediate goes through `%r10d`. Everything else is kept.
pub open spec fn fixed(i: SpecAsmInstruction) -> Seq<SpecAsmInstruction> {
    match i {
        SpecAsmInstruction::Mov(src, dst) => if src is Stack && dst is Stack {
            seq![SpecAsmInstruction::Mov(src, reg(AsmRegister::R10d)), SpecAsmInstruction::Mov(reg(AsmRegister::R10d), dst)]
        } else {
            seq![i]
        },
        SpecAsmInstruction::Binary(op, a, b) => if (op == AsmBinaryOp::Add || op == AsmBinaryOp::Sub) && a is Stack && b is Stack {
            seq![SpecAsmInstruction::Mov(a, reg(AsmRegister::R10d)), SpecAsmInstruction::Binary(op, reg(AsmRegister::R10d), b)]
        } else if op == AsmBinaryOp::Imul && b is Stack {
            seq![
                SpecAsmInstruction::Mov(b, reg(AsmRegister::R11d)),
                SpecAsmInstruction::Binary(op, a, reg(AsmRegister::R11d)),
                SpecAsmInstruction::Mov(reg(AsmRegister::R11d), b),
            ]
        } else {
            seq![i]
        },
        SpecAsmInstruction::Cmp(a, b) => if a is Stack && b is Stack {
            seq![SpecAsmInstruction::Mov(a, reg(AsmRegister::R10d)), SpecAsmInstruction::Cmp(reg(AsmRegister::R10d), b)]
        } else if b is Imm {
            seq![SpecAsmInstruction::Mov(b, reg(AsmRegister::R11d)), SpecAsmInstruction::Cmp(a, reg(AsmRegister::R11d))]
        } else {
            seq![i]
        },
        SpecAsmInstruction::Idiv(a) => if a is Imm {
            seq![SpecAsmInstruction::Mov(a, reg(AsmRegister::R10d)), SpecAsmInstruction::Idiv(reg(AsmRegister::R10d))]
        } else {
            seq![i]
        },
        _ => seq![i],
    }
}

/// The operand rules that `fix` enforces: no two memory operands in `mov`,
/// `add`, `sub` or `cmp`; no memory destination for `imul`; no immediate as
/// the second operand of `cmp` or as the operand of `idiv`.
pub open spec fn operands_legal(i: SpecAsmInstruction) -> bool {
    match i {
        SpecAsmInstruction::Mov(src, dst) => !(src is Stack && dst is Stack),
        SpecAsmInstruction::Binary(op, a, b) => if op == AsmBinaryOp::Imul {
            !(b is Stack)
        } else {
            !(a is Stack && b is Stack)
        },
        SpecAsmInstruction::Cmp(a, b) => !(a is Stack && b is Stack) && !(b is Imm),
        SpecAsmInstruction::Idiv(a) => !(a is Imm),
        _ => true,
    }
}

/// Every instruction that `fix` produces obeys the operand rules.
pub proof fn lemma_fixed_legal(i: SpecAsmInstruction)
    ensures
        forall|k: int| 0 <= k < fixed(i).len() ==> operands_legal(#[trigger] fixed(i)[k]),
{
}

/// `fix` leaves an instruction that already obeys the operand rules as it is.
pub proof fn lemma_fixed_keeps_legal(i: SpecAsmInstruction)
    requires
        operands_legal(i),
    ensures
        fixed(i) == seq![i],
{
}

fn r10() -> (o: AsmOperand)
    ensures
        o == reg(AsmRegister::R10d),
{
    AsmOperand::Register(AsmRegister::R10d)
}

fn r11() -> (o: AsmOperand)
    ensures
        o == reg(AsmRegister::R11d),
{
    AsmOperand::Register(AsmRegister::R11d)
}

impl AsmInstruction {
    /// Rewrites the instruction into one to three instructions that obey the
    /// operand rules of x86-64, using `%r10d` and `%r11d` as scratch registers.
    pub fn fix(self) -> (r: Vec<AsmInstruction>)
        ensures
            r.deep_view() == fixed(self@),
    {
        let ghost before = self@;
        let r: Vec<AsmInstruction> = match self {
            AsmInstruction::Mov(src, dst) => {
                if matches!(src, AsmOperand::Stack(_)) && matches!(dst, AsmOperand::Stack(_)) {
                    vec![AsmInstruction::Mov(src, r10()), AsmInstruction::Mov(r10(), dst)]
                } else {
                    vec![AsmInstruction::Mov(src, dst)]
                }
            },
            AsmInstruction::Binary(op, a, b) => {
                if (op == AsmBinaryOp::Add || op == AsmBinaryOp::Sub) && matches!(a, AsmOperand::Stack(_)) && matches!(b, AsmOperand::Stack(_)) {
                    vec![AsmInstruction::Mov(a, r10()), AsmInstruction::Binary(op, r10(), b)]
                } else if op == AsmBinaryOp::Imul && matches!(b, AsmOperand::Stack(_)) {
                    vec![
                        AsmInstruction::Mov(b, r11()),
                        AsmInstruction::Binary(op, a, r11()),
                        AsmInstruction::Mov(r11(), b),
                    ]
                } else {
                    vec![AsmInstruction::Binary(op, a, b)]
                }
            },
            AsmInstruction::Cmp(a, b) => {
                if matches!(a, AsmOperand::Stack(_)) && matches!(b, AsmOperand::Stack(_)) {
                    vec![AsmInstruction::Mov(a, r10()), AsmInstruction::Cmp(r10(), b)]
                } else if matches!(b, AsmOperand::Imm(_)) {
                    vec![AsmInstruction::Mov(b, r11()), AsmInstruction::Cmp(a, r11())]
                } else {
                    vec![AsmInstruction::Cmp(a, b)]
                }
            },
            AsmInstruction::Idiv(a) => {
                if matches!(a, AsmOperand::Imm(_)) {
                    vec![AsmInstruction::Mov(a, r10()), AsmInstruction::Idiv(r10())]
                } else {
                    vec![AsmInstruction::Idiv(a)]
                }
            },
            other => vec![other],
        };
        assert(r.deep_view() =~= fixed(before));
        r
    }
}

} // verus!
