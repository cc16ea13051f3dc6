use tricc::common::{BinaryOp, Operator, TempId, UnaryOp, VarName};
use tricc::ir::ir_ast::{IRVal, Label, LabelKind};
use tricc::codegen::asm_ast::{AsmOperand, AsmRegister};
use tricc::parser::c_ast::CVar;
use tricc::text::{int_text, usize_text};

#[test]
fn operator_classes() {
    assert!(Operator::Minus.is_unary());
    assert!(Operator::Minus.is_binary());
    assert!(!Operator::BitwiseNot.is_binary());
    assert!(!Operator::Mul.is_unary());
    assert_eq!(Operator::Minus.to_unop(), Some(UnaryOp::Negation));
    assert_eq!(Operator::Decrement.to_unop(), Some(UnaryOp::Decrement));
    assert_eq!(Operator::Conditional.to_binop(), Some(BinaryOp::Conditional));
    assert_eq!(Operator::LogicalNot.to_binop(), None);
}

#[test]
fn precedence_table() {
    assert_eq!(Operator::Mul.precedence(), 50);
    assert_eq!(Operator::Plus.precedence(), 45);
    assert_eq!(Operator::Leq.precedence(), 35);
    assert_eq!(Operator::Neq.precedence(), 30);
    assert_eq!(Operator::LogicalAnd.precedence(), 10);
    assert_eq!(Operator::LogicalOr.precedence(), 5);
    assert_eq!(Operator::Conditional.precedence(), 3);
    assert_eq!(Operator::Assign.precedence(), 1);
    assert_eq!(Operator::BitwiseNot.precedence(), 0);
    assert_eq!(BinaryOp::Mod.precedence(), 50);
}

#[test]
fn symbols() {
    assert_eq!(Operator::LogicalOr.symbol(), "||");
    assert_eq!(UnaryOp::BitwiseNot.symbol(), "~");
    assert_eq!(BinaryOp::Geq.symbol(), ">=");
}

#[test]
fn names_and_numbers_as_text() {
    assert_eq!(int_text(-2147483648), "-2147483648");
    assert_eq!(int_text(0), "0");
    assert_eq!(int_text(907), "907");
    assert_eq!(usize_text(4294967295), "4294967295");
    let name = VarName::from("count".to_string());
    assert_eq!(name.as_str(), "count");
    assert_eq!(CVar { name: "x".to_string(), id: Some(TempId(12)) }.to_text(), "x.12");
    assert_eq!(CVar { name: "y".to_string(), id: None }.to_text(), "y.?");
    assert_eq!(Label { kind: LabelKind::Continue, id: 7 }.to_text(), "label_continue_loop_7");
    assert_eq!(LabelKind::True.text(), "true");
    assert_eq!(AsmRegister::R8d.name(), "r8d");
    assert_eq!(AsmOperand::Stack(-20).to_text(), "-20(%rbp)");
    assert_eq!(IRVal::Constant(5).to_asm(), AsmOperand::Imm(5));
    assert_eq!(IRVal::Var(TempId(3)).to_asm(), AsmOperand::PseudoReg(TempId(3)));
}
