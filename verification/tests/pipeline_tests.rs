use tricc::codegen::AssemblyGenerator;
use tricc::ir::IRGenerator;
use tricc::ir::ir_ast::IRInstruction;
use tricc::lexer::Lexer;
use tricc::common::BinaryOp;
use tricc::parser::c_ast::{
    CBlock, CBlockItem, CDeclaration, CExpression, CFactor, CFnDecl, CForInit, CProgram, CStatement, CVar,
    CVarDecl,
};
use tricc::parser::semantic_analysis::SemanticAnalyzer;
use tricc::parser::Parser;

fn compile(code: &str) -> String {
    let mut lexer = Lexer::new(code.as_bytes(), "prog.c".to_string());
    let tokens = lexer.get_tokens();
    let mut parser = Parser::new(tokens);
    let program = parser.parse_program().unwrap();
    compile_program(program)
}

fn compile_program(mut program: CProgram) -> String {
    let mut analyzer = SemanticAnalyzer::new();
    analyzer.resolve_variables(&mut program).unwrap();
    analyzer.label_loops(&mut program).unwrap();
    let mut ir_gen = IRGenerator::new(analyzer.get_next_var_id(), analyzer.get_next_label_id());
    let ir = ir_gen.c_to_ir(program);
    let mut codegen = AssemblyGenerator::new();
    let lowered = codegen.ir_to_asm(ir);
    assert!(lowered.is_emittable());
    codegen.generate_asm(lowered)
}

#[test]
fn compiles_return_constant() {
    let text = compile("int main(void) { return 2; }");
    assert_eq!(
        text,
        "\t.globl main\nmain:\n\tpushq %rbp\n\tmovq %rsp, %rbp\n\tsubq $0, %rsp\n\tmovl $2, %eax\n\tmovq %rbp, %rsp\npopq %rbp\nret\n\tmovl $0, %eax\n\tmovq %rbp, %rsp\npopq %rbp\nret\n\t.section .note.GNU-stack\n"
    );
}

#[test]
fn compiles_local_variable_arithmetic() {
    // int main(void) { int a = 3; return a * 4; }
    let var_a = || CVar { name: "a".to_string(), id: None };
    let program = CProgram {
        functions: vec![CFnDecl {
            name: "main".to_string(),
            params: vec![],
            body: Some(CBlock(vec![
                CBlockItem::Declaration(CDeclaration::VarDecl(CVarDecl {
                    var: var_a(),
                    init: Some(CExpression::Factor(Box::new(CFactor::Constant(3)))),
                })),
                CBlockItem::Statement(CStatement::Return(CExpression::Binary(
                    BinaryOp::Mul,
                    Box::new(CExpression::Factor(Box::new(CFactor::Var(var_a())))),
                    Box::new(CExpression::Factor(Box::new(CFactor::Constant(4)))),
                ))),
            ])),
        }],
    };
    let text = compile_program(program);
    let expected = [
        "\t.globl main",
        "main:",
        "\tpushq %rbp",
        "\tmovq %rsp, %rbp",
        "\tsubq $16, %rsp",
        "\tmovl $3, -4(%rbp)",
        "\tmovl -4(%rbp), %r10d",
        "\tmovl %r10d, -8(%rbp)",
        "\tmovl -8(%rbp), %r11d",
        "\timull $4, %r11d",
        "\tmovl %r11d, -8(%rbp)",
        "\tmovl -8(%rbp), %eax",
        "\tmovq %rbp, %rsp\npopq %rbp\nret",
        "\tmovl $0, %eax",
        "\tmovq %rbp, %rsp\npopq %rbp\nret",
        "\t.section .note.GNU-stack\n",
    ]
    .join("\n");
    assert_eq!(text, expected);
}

use tricc::common::{Keyword, Operator};
use tricc::lexer::Token;

fn id(s: &str) -> Token {
    Token::Identifier(s.to_string())
}

#[test]
fn parsed_program_with_loops_and_calls_compiles() {
    // int max(int x, int y) { return x > y ? x : y; }
    // int main(void) { int i = 0; while (i < 3) { i = i + 1; if (i == 2) continue; } return max(i, 2); }
    let kw = Token::Keyword;
    let op = Token::Operator;
    let tokens = vec![
        kw(Keyword::Int), id("max"), Token::OpenParenthesis, kw(Keyword::Int), id("x"), Token::Comma, kw(Keyword::Int),
        id("y"), Token::CloseParenthesis, Token::OpenBrace, kw(Keyword::Return), id("x"), op(Operator::Greater), id("y"),
        op(Operator::Conditional), id("x"), Token::Colon, id("y"), Token::Semicolon, Token::CloseBrace,
        kw(Keyword::Int), id("main"), Token::OpenParenthesis, kw(Keyword::Void), Token::CloseParenthesis, Token::OpenBrace,
        kw(Keyword::Int), id("i"), op(Operator::Assign), Token::Constant(0), Token::Semicolon,
        kw(Keyword::While), Token::OpenParenthesis, id("i"), op(Operator::Less), Token::Constant(3), Token::CloseParenthesis,
        Token::OpenBrace, id("i"), op(Operator::Assign), id("i"), op(Operator::Plus), Token::Constant(1), Token::Semicolon,
        kw(Keyword::If), Token::OpenParenthesis, id("i"), op(Operator::Eq), Token::Constant(2), Token::CloseParenthesis,
        kw(Keyword::Continue), Token::Semicolon, Token::CloseBrace,
        kw(Keyword::Return), id("max"), Token::OpenParenthesis, id("i"), Token::Comma, Token::Constant(2),
        Token::CloseParenthesis, Token::Semicolon, Token::CloseBrace,
    ];
    let mut parser = Parser::new(tokens);
    let program = parser.parse_program().unwrap();
    let text = compile_program(program);
    let lines: Vec<&str> = text.lines().collect();
    assert_eq!(lines[0], "\t.globl max");
    assert!(lines.contains(&"\tmovl %edi, -4(%rbp)"));
    assert!(lines.contains(&"\tmovl %esi, -8(%rbp)"));
    assert!(lines.contains(&"\tsetg -12(%rbp)"));
    assert!(lines.contains(&"\t.globl main"));
    assert!(lines.contains(&".L_label_continue_loop_0:") || lines.contains(&"\t.L_label_continue_loop_0:"));
    assert!(lines.contains(&"\tjmp .L_label_continue_loop_0"));
    assert!(lines.contains(&"\tcall max"));
    assert!(!text.contains("PseudoReg"));
    for line in text.lines() {
        if let Some(rest) = line.strip_prefix("\tsubq $") {
            let bytes: usize = rest.trim_end_matches(", %rsp").parse().unwrap();
            assert_eq!(bytes % 16, 0);
        }
    }
}

fn looping_function(name: &str) -> CFnDecl {
    // int name(void) { int a = 1;
    //   for (;;) { while (a && 2) { do { a = a - 1; } while (a || 0); if (a) break; else continue; } }
    //   return a ? 1 : 0; }
    let a = || CExpression::Factor(Box::new(CFactor::Var(CVar { name: "a".to_string(), id: None })));
    let n = |i: i32| CExpression::Factor(Box::new(CFactor::Constant(i)));
    let do_loop = CStatement::DoWhile {
        body: Box::new(CStatement::Compound(CBlock(vec![CBlockItem::Statement(CStatement::Expression(
            CExpression::Assign(Box::new(a()), Box::new(CExpression::Binary(BinaryOp::Sub, Box::new(a()), Box::new(n(1))))),
        ))]))),
        cond: CExpression::Binary(BinaryOp::LogicalOr, Box::new(a()), Box::new(n(0))),
        label: None,
    };
    let while_loop = CStatement::While {
        cond: CExpression::Binary(BinaryOp::LogicalAnd, Box::new(a()), Box::new(n(2))),
        body: Box::new(CStatement::Compound(CBlock(vec![
            CBlockItem::Statement(do_loop),
            CBlockItem::Statement(CStatement::If {
                cond: a(),
                then: Box::new(CStatement::Break(None)),
                else_: Some(Box::new(CStatement::Continue(None))),
            }),
        ]))),
        label: None,
    };
    let for_loop = CStatement::For {
        init: CForInit::InitExp(None),
        cond: None,
        post: None,
        body: Box::new(CStatement::Compound(CBlock(vec![CBlockItem::Statement(while_loop)]))),
        label: None,
    };
    CFnDecl {
        name: name.to_string(),
        params: vec![],
        body: Some(CBlock(vec![
            CBlockItem::Declaration(CDeclaration::VarDecl(CVarDecl {
                var: CVar { name: "a".to_string(), id: None },
                init: Some(n(1)),
            })),
            CBlockItem::Statement(for_loop),
            CBlockItem::Statement(CStatement::Return(CExpression::Conditional {
                cond: Box::new(a()),
                then: Box::new(n(1)),
                else_: Box::new(n(0)),
            })),
        ])),
    }
}

#[test]
fn every_label_is_defined_once() {
    let program = CProgram { functions: vec![looping_function("f"), looping_function("g")] };
    let text = compile_program(program);
    let defined: Vec<&str> = text
        .lines()
        .map(|l| l.trim())
        .filter(|l| l.starts_with(".L_") && l.ends_with(':'))
        .collect();
    // per function: three loops with start, continue and break labels, where the
    // `while` loop has no start label; two for each of `&&`, `||`, `?:` and `if`-`else`
    assert_eq!(defined.len(), 2 * (3 + 3 + 2 + 4 * 2));
    for (i, a) in defined.iter().enumerate() {
        for b in &defined[i + 1..] {
            assert_ne!(a, b);
        }
    }
}

#[test]
fn every_jump_lands_in_its_function() {
    let mut program = CProgram { functions: vec![looping_function("f"), looping_function("g")] };
    let mut analyzer = SemanticAnalyzer::new();
    analyzer.resolve_variables(&mut program).unwrap();
    analyzer.label_loops(&mut program).unwrap();
    let mut ir_gen = IRGenerator::new(analyzer.get_next_var_id(), analyzer.get_next_label_id());
    let ir = ir_gen.c_to_ir(program);
    assert_eq!(ir.functions.len(), 2);
    let mut jumps = 0;
    for func in &ir.functions {
        for ins in &func.instructions {
            let target = match ins {
                IRInstruction::Jump(t) | IRInstruction::JumpIfZero(_, t) | IRInstruction::JumpIfNotZero(_, t) => *t,
                _ => continue,
            };
            jumps += 1;
            assert!(func.instructions.iter().any(|d| *d == IRInstruction::Label(target)), "{:?} not defined", target);
        }
    }
    assert!(jumps >= 2 * 10);
}

#[test]
fn source_with_loops_calls_and_conditionals_compiles() {
    let text = compile(
        "int max(int x, int y) { return x > y ? x : y; }\n\
         int main(void) {\n\
           int i = 0;\n\
           for (int j = 0; j < 2; j = j + 1) i = i + j;\n\
           while (i < 3) { i = i + 1; if (i == 2) continue; else break; }\n\
           do i = i - 1; while (i > 5);\n\
           return max(i, 2);\n\
         }",
    );
    let lines: Vec<&str> = text.lines().collect();
    assert!(lines.contains(&"\t.globl max"));
    assert!(lines.contains(&"\t.globl main"));
    assert!(lines.contains(&"\tcall max"));
    assert!(lines.iter().any(|l| l.contains("start_loop")));
    assert!(lines.iter().any(|l| l.contains("break_loop")));
    assert!(lines.iter().any(|l| l.contains("continue_loop")));
    assert!(!text.contains("PseudoReg"));
}

#[test]
fn library_calls_go_through_the_plt() {
    let text = compile(
        "int putchar(int c);\n\
         int twice(int x) { return x + x; }\n\
         int main(void) { putchar(72); return twice(2); }",
    );
    let lines: Vec<&str> = text.lines().collect();
    assert!(lines.contains(&"\tcall putchar@PLT"));
    assert!(lines.contains(&"\tcall twice"));
    assert!(!lines.contains(&"\tcall twice@PLT"));
    assert!(!lines.contains(&"\tcall putchar"));
}
