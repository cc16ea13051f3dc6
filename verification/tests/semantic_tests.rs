use tricc::common::{BinaryOp, Keyword, TempId};
use tricc::ir::ir_ast::{Label, LabelKind};
use tricc::parser::c_ast::{
    CBlock, CBlockItem, CDeclaration, CExpression, CFactor, CFnDecl, CParam, CProgram, CStatement,
    CVar, CVarDecl,
};
use tricc::parser::semantic_analysis::{SemanticAnalyzer, SemanticError};

fn var(name: &str) -> CExpression {
    CExpression::Factor(Box::new(CFactor::Var(CVar { name: name.to_string(), id: None })))
}

fn rvar(name: &str, id: u32) -> CExpression {
    CExpression::Factor(Box::new(CFactor::Var(CVar { name: name.to_string(), id: Some(TempId(id)) })))
}

fn num(i: i32) -> CExpression {
    CExpression::Factor(Box::new(CFactor::Constant(i)))
}

fn decl(name: &str, init: Option<CExpression>) -> CBlockItem {
    CBlockItem::Declaration(CDeclaration::VarDecl(CVarDecl { var: CVar { name: name.to_string(), id: None }, init }))
}

fn rdecl(name: &str, id: u32, init: Option<CExpression>) -> CBlockItem {
    CBlockItem::Declaration(CDeclaration::VarDecl(CVarDecl {
        var: CVar { name: name.to_string(), id: Some(TempId(id)) },
        init,
    }))
}

fn stmt(s: CStatement) -> CBlockItem {
    CBlockItem::Statement(s)
}

fn main_with(items: Vec<CBlockItem>) -> CProgram {
    CProgram { functions: vec![CFnDecl { name: "main".to_string(), params: vec![], body: Some(CBlock(items)) }] }
}

fn resolve(mut p: CProgram) -> Result<CProgram, SemanticError> {
    let mut a = SemanticAnalyzer::new();
    a.resolve_variables(&mut p)?;
    Ok(p)
}

fn label(mut p: CProgram) -> Result<CProgram, SemanticError> {
    let mut a = SemanticAnalyzer::new();
    a.label_loops(&mut p)?;
    Ok(p)
}

#[test]
fn shadowing_gives_fresh_numbers() {
    let p = main_with(vec![
        decl("a", Some(num(1))),
        stmt(CStatement::Compound(CBlock(vec![decl("a", Some(var("a"))), stmt(CStatement::Return(var("a")))]))),
        stmt(CStatement::Return(var("a"))),
    ]);
    let mut analyzer = SemanticAnalyzer::new();
    let mut q = p;
    analyzer.resolve_variables(&mut q).unwrap();
    assert_eq!(analyzer.get_next_var_id(), 3);
    assert_eq!(analyzer.get_next_label_id(), 0);
    let expected = main_with(vec![
        rdecl("a", 1, Some(num(1))),
        stmt(CStatement::Compound(CBlock(vec![rdecl("a", 2, Some(rvar("a", 2))), stmt(CStatement::Return(rvar("a", 2)))]))),
        stmt(CStatement::Return(rvar("a", 1))),
    ]);
    assert_eq!(q, expected);
}

#[test]
fn parameters_and_calls_get_qualified_names() {
    let p = CProgram {
        functions: vec![
            CFnDecl {
                name: "id".to_string(),
                params: vec![CParam { keyword: Keyword::Int, name: Some("x".to_string()), id: None }],
                body: Some(CBlock(vec![stmt(CStatement::Return(var("x")))])),
            },
            CFnDecl {
                name: "main".to_string(),
                params: vec![],
                body: Some(CBlock(vec![stmt(CStatement::Return(CExpression::Factor(Box::new(
                    CFactor::FunctionCall("id".to_string(), vec![num(7)]),
                ))))])),
            },
        ],
    };
    let q = resolve(p).unwrap();
    assert_eq!(
        q.functions[0].params,
        vec![CParam { keyword: Keyword::Int, name: Some("x.1".to_string()), id: Some(TempId(1)) }]
    );
    assert_eq!(q.functions[0].body, Some(CBlock(vec![stmt(CStatement::Return(rvar("x", 1)))])));
    assert_eq!(
        q.functions[1].body,
        Some(CBlock(vec![stmt(CStatement::Return(CExpression::Factor(Box::new(CFactor::FunctionCall(
            "id.0".to_string(),
            vec![num(7)],
        )))))]))
    );
}

#[test]
fn variable_declared_twice() {
    let p = main_with(vec![decl("a", None), decl("a", None)]);
    assert!(matches!(resolve(p), Err(SemanticError::DeclaredTwice(n)) if n == "a"));
}

#[test]
fn undeclared_variable() {
    let p = main_with(vec![stmt(CStatement::Return(var("b")))]);
    assert!(matches!(resolve(p), Err(SemanticError::UndeclaredVariable(n)) if n == "b"));
}

#[test]
fn undeclared_function() {
    let call = CExpression::Factor(Box::new(CFactor::FunctionCall("g".to_string(), vec![])));
    let p = main_with(vec![stmt(CStatement::Return(call))]);
    assert!(matches!(resolve(p), Err(SemanticError::UndeclaredFunction(n)) if n == "g"));
}

#[test]
fn assignment_to_a_constant() {
    let p = main_with(vec![stmt(CStatement::Expression(CExpression::Assign(Box::new(num(1)), Box::new(num(2)))))]);
    match resolve(p) {
        Err(SemanticError::InvalidLvalue(e)) => assert_eq!(e, num(1)),
        other => panic!("unexpected result {:?}", other),
    }
}

#[test]
fn nested_function_definition() {
    let inner = CFnDecl { name: "inner".to_string(), params: vec![], body: Some(CBlock(vec![])) };
    let p = main_with(vec![CBlockItem::Declaration(CDeclaration::FnDecl(inner))]);
    assert!(matches!(resolve(p), Err(SemanticError::NestedFunctionDefinition(n)) if n == "inner"));
}

#[test]
fn function_declared_over_a_variable() {
    let f = CFnDecl { name: "f".to_string(), params: vec![], body: None };
    let p = main_with(vec![decl("f", None), CBlockItem::Declaration(CDeclaration::FnDecl(f))]);
    assert!(matches!(resolve(p), Err(SemanticError::FunctionDeclaredTwice(n)) if n == "f"));
}

#[test]
fn loops_are_labelled_innermost_first() {
    let p = main_with(vec![
        stmt(CStatement::While {
            cond: num(1),
            body: Box::new(CStatement::DoWhile { body: Box::new(CStatement::Break(None)), cond: num(0), label: None }),
            label: None,
        }),
        stmt(CStatement::While { cond: num(1), body: Box::new(CStatement::Continue(None)), label: None }),
    ]);
    let mut analyzer = SemanticAnalyzer::new();
    let mut q = p;
    analyzer.label_loops(&mut q).unwrap();
    assert_eq!(analyzer.get_next_label_id(), 3);
    assert_eq!(analyzer.get_next_var_id(), 1);
    let start = |id: u32| Some(Label { kind: LabelKind::LoopStart, id });
    let expected = main_with(vec![
        stmt(CStatement::While {
            cond: num(1),
            body: Box::new(CStatement::DoWhile {
                body: Box::new(CStatement::Break(Some(Label { kind: LabelKind::Break, id: 1 }))),
                cond: num(0),
                label: start(1),
            }),
            label: start(0),
        }),
        stmt(CStatement::While {
            cond: num(1),
            body: Box::new(CStatement::Continue(Some(Label { kind: LabelKind::Continue, id: 2 }))),
            label: start(2),
        }),
    ]);
    assert_eq!(q, expected);
}

#[test]
fn break_outside_a_loop() {
    let p = main_with(vec![stmt(CStatement::Break(None))]);
    assert!(matches!(label(p), Err(SemanticError::BreakOutsideLoop)));
}

#[test]
fn continue_outside_a_loop() {
    let p = main_with(vec![stmt(CStatement::If {
        cond: num(1),
        then: Box::new(CStatement::Continue(None)),
        else_: None,
    })]);
    assert!(matches!(label(p), Err(SemanticError::ContinueOutsideLoop)));
}

#[test]
fn analyzer_counters_start_at_one_and_zero() {
    let a = SemanticAnalyzer::default();
    assert_eq!(a.get_next_var_id(), 1);
    assert_eq!(a.get_next_label_id(), 0);
    let _ = BinaryOp::Add;
}

fn ids_in_stmt(s: &CStatement, out: &mut Vec<u32>) {
    match s {
        CStatement::If { then, else_, .. } => {
            ids_in_stmt(then, out);
            if let Some(e) = else_ {
                ids_in_stmt(e, out);
            }
        },
        CStatement::Compound(b) => ids_in_items(&b.0, out),
        CStatement::While { body, .. } | CStatement::DoWhile { body, .. } => ids_in_stmt(body, out),
        CStatement::For { init, body, .. } => {
            if let tricc::parser::c_ast::CForInit::InitDecl(d) = init {
                out.push(d.var.id.unwrap().0);
            }
            ids_in_stmt(body, out);
        },
        _ => {},
    }
}

fn ids_in_items(items: &[CBlockItem], out: &mut Vec<u32>) {
    for it in items {
        match it {
            CBlockItem::Declaration(CDeclaration::VarDecl(d)) => out.push(d.var.id.unwrap().0),
            CBlockItem::Declaration(CDeclaration::FnDecl(f)) => {
                for p in &f.params {
                    out.push(p.id.unwrap().0);
                }
            },
            CBlockItem::Statement(s) => ids_in_stmt(s, out),
        }
    }
}

#[test]
fn declarations_are_numbered_in_program_order() {
    let param = |n: &str| CParam { keyword: Keyword::Int, name: Some(n.to_string()), id: None };
    let f = CFnDecl {
        name: "f".to_string(),
        params: vec![param("x"), param("y")],
        body: Some(CBlock(vec![
            decl("a", Some(var("x"))),
            stmt(CStatement::If {
                cond: var("y"),
                then: Box::new(CStatement::Compound(CBlock(vec![decl("a", None), decl("b", Some(var("a")))]))),
                else_: Some(Box::new(CStatement::Compound(CBlock(vec![decl("x", None)])))),
            }),
            stmt(CStatement::For {
                init: tricc::parser::c_ast::CForInit::InitDecl(CVarDecl { var: CVar { name: "i".to_string(), id: None }, init: Some(num(0)) }),
                cond: Some(CExpression::Binary(BinaryOp::Less, Box::new(var("i")), Box::new(var("a")))),
                post: None,
                body: Box::new(CStatement::Compound(CBlock(vec![
                    CBlockItem::Declaration(CDeclaration::FnDecl(CFnDecl { name: "g".to_string(), params: vec![param("z")], body: None })),
                    decl("i", Some(var("i"))),
                ]))),
                label: None,
            }),
            stmt(CStatement::Return(var("a"))),
        ])),
    };
    let main = CFnDecl { name: "main".to_string(), params: vec![], body: Some(CBlock(vec![decl("a", Some(num(3)))])) };
    let mut p = CProgram { functions: vec![f, main] };
    let mut analyzer = SemanticAnalyzer::new();
    analyzer.resolve_variables(&mut p).unwrap();
    let mut ids = Vec::new();
    for func in &p.functions {
        for q in &func.params {
            ids.push(q.id.unwrap().0);
        }
        ids_in_items(&func.body.as_ref().unwrap().0, &mut ids);
    }
    let expected: Vec<u32> = (1..=10).collect();
    assert_eq!(ids, expected);
    assert_eq!(analyzer.get_next_var_id(), 11);
}

#[test]
fn semantic_error_messages() {
    assert_eq!(SemanticError::BreakOutsideLoop.message(), Some("Break statement outside of loop".to_string()));
    assert_eq!(SemanticError::ContinueOutsideLoop.message(), Some("Continue statement outside of loop".to_string()));
    assert_eq!(SemanticError::DeclaredTwice("a".to_string()).message(), Some("`a` is declared twice".to_string()));
    assert_eq!(
        SemanticError::FunctionDeclaredTwice("f".to_string()).message(),
        Some("Function `f` is declared twice.".to_string())
    );
    assert_eq!(
        SemanticError::NestedFunctionDefinition("g".to_string()).message(),
        Some("Nested function definition: `g`".to_string())
    );
    assert_eq!(SemanticError::UndeclaredVariable("x".to_string()).message(), Some("Undeclared variable `x`".to_string()));
    assert_eq!(SemanticError::UndeclaredFunction("h".to_string()).message(), Some("Undeclared function `h`".to_string()));
    assert_eq!(SemanticError::InvalidLvalue(num(1)).message(), None);
}

#[test]
fn counters_are_checked_before_resolution_and_labelling() {
    let p = main_with(vec![
        decl("a", Some(num(1))),
        stmt(CStatement::While { cond: var("a"), body: Box::new(CStatement::Null), label: None }),
    ]);
    let analyzer = SemanticAnalyzer::new();
    assert!(analyzer.resolution_fits(&p));
    assert!(analyzer.labelling_fits(&p));
}
