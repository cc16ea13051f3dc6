use tricc::common::{BinaryOp, TempId, UnaryOp};
use tricc::ir::ir_ast::{IRFunction, IRInstruction, IRProgram, IRVal, Label, LabelKind};
use tricc::ir::IRGenerator;
use tricc::parser::c_ast::{
    CBlock, CBlockItem, CExpression, CFactor, CFnDecl, CParam, CProgram, CStatement, CVar,
};
use tricc::common::Keyword;

fn num(i: i32) -> CExpression {
    CExpression::Factor(Box::new(CFactor::Constant(i)))
}

fn rvar(name: &str, id: u32) -> CExpression {
    CExpression::Factor(Box::new(CFactor::Var(CVar { name: name.to_string(), id: Some(TempId(id)) })))
}

fn t(n: u32) -> IRVal {
    IRVal::Var(TempId(n))
}

fn c(i: i32) -> IRVal {
    IRVal::Constant(i)
}

fn lbl(kind: LabelKind, id: u32) -> Label {
    Label { kind, id }
}

fn main_with(items: Vec<CBlockItem>) -> CProgram {
    CProgram { functions: vec![CFnDecl { name: "main".to_string(), params: vec![], body: Some(CBlock(items)) }] }
}

fn translate(p: CProgram, vars: u32, labels: u32) -> Vec<IRInstruction> {
    let mut g = IRGenerator::new(vars, labels);
    let mut ir = g.c_to_ir(p);
    assert_eq!(ir.functions.len(), 1);
    ir.functions.remove(0).instructions
}

#[test]
fn unary_chain_uses_fresh_temporaries() {
    let e = CExpression::Factor(Box::new(CFactor::Unary(
        UnaryOp::BitwiseNot,
        Box::new(CFactor::Unary(UnaryOp::Negation, Box::new(CFactor::Constant(2)))),
    )));
    let code = translate(main_with(vec![CBlockItem::Statement(CStatement::Return(e))]), 5, 0);
    assert_eq!(
        code,
        vec![
            IRInstruction::Unary(UnaryOp::Negation, c(2), t(5)),
            IRInstruction::Unary(UnaryOp::BitwiseNot, t(5), t(6)),
            IRInstruction::Return(t(6)),
            IRInstruction::Return(c(0)),
        ]
    );
}

#[test]
fn logical_and_short_circuits() {
    let e = CExpression::Binary(BinaryOp::LogicalAnd, Box::new(num(1)), Box::new(rvar("a", 1)));
    let code = translate(main_with(vec![CBlockItem::Statement(CStatement::Return(e))]), 2, 7);
    let f = lbl(LabelKind::False, 7);
    let end = lbl(LabelKind::End, 8);
    assert_eq!(
        code,
        vec![
            IRInstruction::JumpIfZero(c(1), f),
            IRInstruction::JumpIfZero(t(1), f),
            IRInstruction::Copy(c(1), t(2)),
            IRInstruction::Jump(end),
            IRInstruction::Label(f),
            IRInstruction::Copy(c(0), t(2)),
            IRInstruction::Label(end),
            IRInstruction::Return(t(2)),
            IRInstruction::Return(c(0)),
        ]
    );
}

#[test]
fn conditional_expression_and_if_else() {
    let cond = CExpression::Conditional { cond: Box::new(rvar("a", 1)), then: Box::new(num(3)), else_: Box::new(num(4)) };
    let s = CStatement::If {
        cond: num(0),
        then: Box::new(CStatement::Return(cond)),
        else_: Some(Box::new(CStatement::Null)),
    };
    let code = translate(main_with(vec![CBlockItem::Statement(s)]), 2, 0);
    assert_eq!(
        code,
        vec![
            IRInstruction::JumpIfZero(c(0), lbl(LabelKind::Else, 3)),
            IRInstruction::JumpIfZero(t(1), lbl(LabelKind::Else, 0)),
            IRInstruction::Copy(c(3), t(2)),
            IRInstruction::Jump(lbl(LabelKind::End, 1)),
            IRInstruction::Label(lbl(LabelKind::Else, 0)),
            IRInstruction::Copy(c(4), t(2)),
            IRInstruction::Label(lbl(LabelKind::End, 1)),
            IRInstruction::Return(t(2)),
            IRInstruction::Jump(lbl(LabelKind::End, 2)),
            IRInstruction::Label(lbl(LabelKind::Else, 3)),
            IRInstruction::Label(lbl(LabelKind::End, 2)),
            IRInstruction::Return(c(0)),
        ]
    );
}

#[test]
fn labelled_while_loop_with_break() {
    let start = lbl(LabelKind::LoopStart, 4);
    let brk = lbl(LabelKind::Break, 4);
    let cont = lbl(LabelKind::Continue, 4);
    let s = CStatement::While { cond: rvar("a", 1), body: Box::new(CStatement::Break(Some(brk))), label: Some(start) };
    let code = translate(main_with(vec![CBlockItem::Statement(s)]), 2, 5);
    assert_eq!(
        code,
        vec![
            IRInstruction::Label(cont),
            IRInstruction::JumpIfZero(t(1), brk),
            IRInstruction::Jump(brk),
            IRInstruction::Jump(cont),
            IRInstruction::Label(brk),
            IRInstruction::Return(c(0)),
        ]
    );
}

#[test]
fn calls_and_parameters() {
    let p = CProgram {
        functions: vec![
            CFnDecl { name: "g".to_string(), params: vec![], body: None },
            CFnDecl {
                name: "f".to_string(),
                params: vec![CParam { keyword: Keyword::Int, name: Some("x.1".to_string()), id: Some(TempId(1)) }],
                body: Some(CBlock(vec![CBlockItem::Statement(CStatement::Return(CExpression::Factor(Box::new(
                    CFactor::FunctionCall("f.0".to_string(), vec![rvar("x", 1), num(9)]),
                ))))])),
            },
        ],
    };
    let mut g = IRGenerator::new(2, 0);
    let ir = g.c_to_ir(p);
    assert_eq!(
        ir,
        IRProgram {
            functions: vec![IRFunction {
                name: "f".to_string(),
                params: vec!["x.1".to_string()],
                param_ids: vec![TempId(1)],
                instructions: vec![
                    IRInstruction::FnCall("f.0".to_string(), vec![t(1), c(9)], t(2)),
                    IRInstruction::Return(t(2)),
                    IRInstruction::Return(c(0)),
                ],
            }],
        }
    );
}

#[test]
fn default_generator_starts_at_zero() {
    let mut g = IRGenerator::default();
    let not_zero = CFactor::Unary(UnaryOp::LogicalNot, Box::new(CFactor::Constant(0)));
    let ret = CStatement::Return(CExpression::Factor(Box::new(not_zero)));
    let ir = g.c_to_ir(main_with(vec![CBlockItem::Statement(ret)]));
    let code = &ir.functions[0].instructions;
    assert_eq!(code[0], IRInstruction::Unary(UnaryOp::LogicalNot, c(0), t(0)));
}

fn and_or() -> CExpression {
    CExpression::Binary(
        BinaryOp::LogicalOr,
        Box::new(CExpression::Binary(BinaryOp::LogicalAnd, Box::new(rvar("a", 1)), Box::new(num(2)))),
        Box::new(CExpression::Conditional { cond: Box::new(rvar("a", 1)), then: Box::new(num(3)), else_: Box::new(num(4)) }),
    )
}

fn branching_function(name: &str) -> CFnDecl {
    let body = vec![
        CBlockItem::Statement(CStatement::If {
            cond: and_or(),
            then: Box::new(CStatement::Return(num(1))),
            else_: Some(Box::new(CStatement::If { cond: rvar("a", 1), then: Box::new(CStatement::Null), else_: None })),
        }),
        CBlockItem::Statement(CStatement::DoWhile {
            body: Box::new(CStatement::Expression(and_or())),
            cond: rvar("a", 1),
            label: Some(lbl(LabelKind::LoopStart, 0)),
        }),
    ];
    CFnDecl { name: name.to_string(), params: vec![], body: Some(CBlock(body)) }
}

#[test]
fn drawn_labels_are_distinct_across_functions() {
    let p = CProgram { functions: vec![branching_function("first"), branching_function("second")] };
    let mut g = IRGenerator::new(2, 10);
    let ir = g.c_to_ir(p);
    let mut seen: Vec<Label> = Vec::new();
    for func in &ir.functions {
        for ins in &func.instructions {
            if let IRInstruction::Label(l) = ins {
                if matches!(l.kind, LabelKind::True | LabelKind::False | LabelKind::End | LabelKind::Else) {
                    assert!(l.id >= 10);
                    assert!(!seen.iter().any(|s| s.id == l.id), "label number {} defined twice", l.id);
                    seen.push(*l);
                }
            }
        }
    }
    // per function: 6 for each of the two `||` expressions, 2 for the `if`-`else`, 1 for the inner `if`
    assert_eq!(seen.len(), 2 * 15);
    assert!(seen.iter().all(|l| l.id < 10 + 30));
}

#[test]
fn translation_budget_is_checked_before_translating() {
    let p = CProgram { functions: vec![branching_function("f")] };
    assert!(IRGenerator::new(2, 10).translation_fits(&p));
    assert!(!IRGenerator::new(u32::MAX - 3, 10).translation_fits(&p));
    assert!(!IRGenerator::new(2, u32::MAX - 10).translation_fits(&p));
}
