use tricc::codegen::asm_ast::{
    AsmBinaryOp, AsmCondCode, AsmFunction, AsmInstruction, AsmOperand, AsmProgram, AsmRegister, AsmUnaryOp,
};
use tricc::codegen::AssemblyGenerator;
use tricc::common::{BinaryOp, TempId, UnaryOp};
use tricc::ir::ir_ast::{IRFunction, IRInstruction, IRProgram, IRVal, Label, LabelKind};

use AsmInstruction::{
    AllocateStack, Binary, Call, Cdq, Cmp, DeallocateStack, Idiv, Jmp, JmpCC, Mov, Push, Ret, SetCC, Unary,
};
use AsmOperand::{Imm, PseudoReg, Register, Stack};

fn r(reg: AsmRegister) -> AsmOperand {
    Register(reg)
}

fn t(n: u32) -> IRVal {
    IRVal::Var(TempId(n))
}

#[test]
fn fix_moves_between_memory_through_r10() {
    assert_eq!(Mov(Stack(-4), Stack(-8)).fix(), vec![Mov(Stack(-4), r(AsmRegister::R10d)), Mov(r(AsmRegister::R10d), Stack(-8))]);
    assert_eq!(Mov(Imm(1), Stack(-8)).fix(), vec![Mov(Imm(1), Stack(-8))]);
}

#[test]
fn fix_arithmetic() {
    assert_eq!(
        Binary(AsmBinaryOp::Add, Stack(-4), Stack(-8)).fix(),
        vec![Mov(Stack(-4), r(AsmRegister::R10d)), Binary(AsmBinaryOp::Add, r(AsmRegister::R10d), Stack(-8))]
    );
    assert_eq!(
        Binary(AsmBinaryOp::Imul, Stack(-4), Stack(-8)).fix(),
        vec![
            Mov(Stack(-8), r(AsmRegister::R11d)),
            Binary(AsmBinaryOp::Imul, Stack(-4), r(AsmRegister::R11d)),
            Mov(r(AsmRegister::R11d), Stack(-8)),
        ]
    );
    assert_eq!(Binary(AsmBinaryOp::Sub, Imm(3), Stack(-8)).fix(), vec![Binary(AsmBinaryOp::Sub, Imm(3), Stack(-8))]);
}

#[test]
fn fix_compare_and_divide() {
    assert_eq!(
        Cmp(Stack(-4), Stack(-8)).fix(),
        vec![Mov(Stack(-4), r(AsmRegister::R10d)), Cmp(r(AsmRegister::R10d), Stack(-8))]
    );
    assert_eq!(Cmp(Stack(-4), Imm(5)).fix(), vec![Mov(Imm(5), r(AsmRegister::R11d)), Cmp(Stack(-4), r(AsmRegister::R11d))]);
    assert_eq!(Cmp(Imm(0), Stack(-4)).fix(), vec![Cmp(Imm(0), Stack(-4))]);
    assert_eq!(Idiv(Imm(7)).fix(), vec![Mov(Imm(7), r(AsmRegister::R10d)), Idiv(r(AsmRegister::R10d))]);
    assert_eq!(Idiv(Stack(-4)).fix(), vec![Idiv(Stack(-4))]);
    assert_eq!(Cdq.fix(), vec![Cdq]);
}

#[test]
fn instruction_text() {
    let l = Label { kind: LabelKind::Else, id: 12 };
    assert_eq!(Mov(Imm(-3), r(AsmRegister::Eax)).to_text(), "movl $-3, %eax");
    assert_eq!(Unary(AsmUnaryOp::Neg, Stack(-4)).to_text(), "negl -4(%rbp)");
    assert_eq!(Unary(AsmUnaryOp::Not, r(AsmRegister::R9d)).to_text(), "notl %r9d");
    assert_eq!(Binary(AsmBinaryOp::Imul, Imm(4), r(AsmRegister::R11d)).to_text(), "imull $4, %r11d");
    assert_eq!(Cmp(Imm(0), Stack(-12)).to_text(), "cmpl $0, -12(%rbp)");
    assert_eq!(Idiv(r(AsmRegister::R10d)).to_text(), "idivl %r10d");
    assert_eq!(Cdq.to_text(), "cdq");
    assert_eq!(Jmp(l).to_text(), "jmp .L_label_else_12");
    assert_eq!(JmpCC(AsmCondCode::NE, l).to_text(), "jne .L_label_else_12");
    assert_eq!(SetCC(AsmCondCode::LE, r(AsmRegister::Esi)).to_text(), "setle %sil");
    assert_eq!(SetCC(AsmCondCode::G, Stack(-8)).to_text(), "setg -8(%rbp)");
    assert_eq!(AsmInstruction::Label(Label { kind: LabelKind::LoopStart, id: 0 }).to_text(), ".L_label_start_loop_0:");
    assert_eq!(AllocateStack(32).to_text(), "subq $32, %rsp");
    assert_eq!(DeallocateStack(8).to_text(), "addq $8, %rsp");
    assert_eq!(Push(r(AsmRegister::Edi)).to_text(), "pushq %rdi");
    assert_eq!(Push(Imm(1)).to_text(), "pushq $1");
    assert_eq!(Call("putchar.0".to_string()).to_text(), "call putchar");
    assert_eq!(Ret.to_text(), "movq %rbp, %rsp\npopq %rbp\nret");
}

#[test]
fn emittable_instructions() {
    assert!(Mov(Imm(1), Stack(-4)).is_emittable());
    assert!(!Mov(PseudoReg(TempId(1)), Stack(-4)).is_emittable());
    assert!(!Push(PseudoReg(TempId(1))).is_emittable());
    assert!(!Call("f".to_string()).is_emittable());
    assert!(Call("f.0".to_string()).is_emittable());
    let p = AsmProgram { functions: vec![AsmFunction { name: "main".to_string(), instructions: vec![Ret, Idiv(PseudoReg(TempId(2)))] }] };
    assert!(!p.is_emittable());
}

#[test]
fn lowering_of_single_instructions() {
    assert_eq!(IRInstruction::Return(t(1)).to_asm(), vec![Mov(PseudoReg(TempId(1)), r(AsmRegister::Eax)), Ret]);
    assert_eq!(
        IRInstruction::Unary(UnaryOp::LogicalNot, IRVal::Constant(3), t(2)).to_asm(),
        vec![Cmp(Imm(0), Imm(3)), Mov(Imm(0), PseudoReg(TempId(2))), SetCC(AsmCondCode::E, PseudoReg(TempId(2)))]
    );
    assert_eq!(
        IRInstruction::Unary(UnaryOp::BitwiseNot, t(1), t(2)).to_asm(),
        vec![Mov(PseudoReg(TempId(1)), PseudoReg(TempId(2))), Unary(AsmUnaryOp::Not, PseudoReg(TempId(2)))]
    );
    assert_eq!(
        IRInstruction::Binary(BinaryOp::Mod, t(1), IRVal::Constant(3), t(2)).to_asm(),
        vec![
            Mov(PseudoReg(TempId(1)), r(AsmRegister::Eax)),
            Cdq,
            Idiv(Imm(3)),
            Mov(r(AsmRegister::Edx), PseudoReg(TempId(2))),
        ]
    );
    assert_eq!(
        IRInstruction::Binary(BinaryOp::Geq, t(1), IRVal::Constant(3), t(2)).to_asm(),
        vec![Cmp(Imm(3), PseudoReg(TempId(1))), Mov(Imm(0), PseudoReg(TempId(2))), SetCC(AsmCondCode::GE, PseudoReg(TempId(2)))]
    );
    assert_eq!(
        IRInstruction::Binary(BinaryOp::Sub, t(1), IRVal::Constant(3), t(2)).to_asm(),
        vec![Mov(PseudoReg(TempId(1)), PseudoReg(TempId(2))), Binary(AsmBinaryOp::Sub, Imm(3), PseudoReg(TempId(2)))]
    );
    let l = Label { kind: LabelKind::End, id: 1 };
    assert_eq!(IRInstruction::JumpIfNotZero(t(1), l).to_asm(), vec![Cmp(Imm(0), PseudoReg(TempId(1))), JmpCC(AsmCondCode::NE, l)]);
}

#[test]
fn call_with_seven_arguments_pads_the_stack() {
    let args: Vec<IRVal> = (1..=7).map(IRVal::Constant).collect::<Vec<_>>();
    let mut args = args;
    args[6] = t(9);
    let code = IRInstruction::FnCall("f.0".to_string(), args, t(10)).to_asm();
    assert_eq!(
        code,
        vec![
            AllocateStack(8),
            Mov(Imm(1), r(AsmRegister::Edi)),
            Mov(Imm(2), r(AsmRegister::Esi)),
            Mov(Imm(3), r(AsmRegister::Edx)),
            Mov(Imm(4), r(AsmRegister::Ecx)),
            Mov(Imm(5), r(AsmRegister::R8d)),
            Mov(Imm(6), r(AsmRegister::R9d)),
            Mov(PseudoReg(TempId(9)), r(AsmRegister::Eax)),
            Push(r(AsmRegister::Eax)),
            Call("f.0".to_string()),
            DeallocateStack(16),
            Mov(r(AsmRegister::Eax), PseudoReg(TempId(10))),
        ]
    );
}

#[test]
fn call_with_eight_arguments_pushes_last_first() {
    let args: Vec<IRVal> = (1..=8).map(IRVal::Constant).collect();
    let code = IRInstruction::FnCall("g.0".to_string(), args, t(1)).to_asm();
    assert_eq!(code[6], Push(Imm(8)));
    assert_eq!(code[7], Push(Imm(7)));
    assert_eq!(code[8], Call("g.0".to_string()));
    assert_eq!(code[9], DeallocateStack(16));
    assert_eq!(code.len(), 11);
}

fn function(name: &str, params: Vec<u32>, instructions: Vec<IRInstruction>) -> IRFunction {
    IRFunction {
        name: name.to_string(),
        params: params.iter().map(|p| format!("p.{}", p)).collect(),
        param_ids: params.into_iter().map(TempId).collect(),
        instructions,
    }
}

#[test]
fn frames_share_one_slot_table() {
    let program = IRProgram {
        functions: vec![
            function("first", vec![], vec![IRInstruction::Copy(IRVal::Constant(1), t(1)), IRInstruction::Return(t(1))]),
            function(
                "second",
                vec![2, 3, 4, 5, 6, 7, 8],
                vec![IRInstruction::Copy(t(1), t(8)), IRInstruction::Return(t(8))],
            ),
        ],
    };
    let mut generator = AssemblyGenerator::new();
    let lowered = generator.ir_to_asm(program);
    assert_eq!(lowered.functions[0].instructions[0], AllocateStack(16));
    assert_eq!(lowered.functions[0].instructions[1], Mov(Imm(1), Stack(-4)));
    let second = &lowered.functions[1].instructions;
    assert_eq!(second[0], AllocateStack(32));
    assert_eq!(second[1], Mov(r(AsmRegister::Edi), Stack(-8)));
    assert_eq!(second[7], Mov(Stack(16), r(AsmRegister::R10d)));
    assert_eq!(second[8], Mov(r(AsmRegister::R10d), Stack(-32)));
    assert_eq!(second[9], Mov(Stack(-4), r(AsmRegister::R10d)));
    assert_eq!(second[10], Mov(r(AsmRegister::R10d), Stack(-32)));
    let text = generator.generate_asm(lowered);
    assert!(text.starts_with("\t.globl first\nfirst:\n\tpushq %rbp\n\tmovq %rsp, %rbp\n\tsubq $16, %rsp\n"));
    assert!(text.ends_with("\t.section .note.GNU-stack\n"));
}

#[test]
fn calls_to_library_functions_go_through_the_plt() {
    let program = IRProgram {
        functions: vec![
            function("f", vec![], vec![IRInstruction::Return(IRVal::Constant(0))]),
            function(
                "main",
                vec![],
                vec![
                    IRInstruction::FnCall("f.0".to_string(), vec![], t(1)),
                    IRInstruction::FnCall("putchar.0".to_string(), vec![], t(2)),
                    IRInstruction::Return(t(1)),
                ],
            ),
        ],
    };
    let mut generator = AssemblyGenerator::default();
    let lowered = generator.ir_to_asm(program);
    let text = generator.generate_asm(lowered);
    assert!(text.contains("\n\tcall f\n"));
    assert!(text.contains("\n\tcall putchar@PLT\n"));
    assert!(!text.contains("call f@PLT"));
}

#[test]
fn lowering_is_checked_before_code_generation() {
    let small = IRProgram {
        functions: vec![function(
            "main",
            vec![],
            vec![
                IRInstruction::Unary(UnaryOp::Negation, IRVal::Constant(1), t(1)),
                IRInstruction::Return(t(1)),
            ],
        )],
    };
    let generator = AssemblyGenerator::new();
    assert!(generator.lowering_fits(&small));

    let decrement = IRProgram {
        functions: vec![function(
            "main",
            vec![],
            vec![IRInstruction::Unary(UnaryOp::Decrement, IRVal::Constant(1), t(1))],
        )],
    };
    assert!(!generator.lowering_fits(&decrement));

    let logical = IRProgram {
        functions: vec![function(
            "main",
            vec![],
            vec![IRInstruction::Binary(BinaryOp::LogicalAnd, IRVal::Constant(1), IRVal::Constant(0), t(1))],
        )],
    };
    assert!(!generator.lowering_fits(&logical));
}
