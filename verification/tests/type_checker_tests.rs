use tricc::common::{Keyword, TempId};
use tricc::parser::c_ast::{
    CBlock, CBlockItem, CDeclaration, CExpression, CFactor, CFnDecl, CParam, CProgram, CStatement,
    CVar, CVarDecl,
};
use tricc::parser::type_checker::{SymbolEntry, SymbolKind, Type, TypeChecker, TypeError};

fn rvar(name: &str, id: Option<u32>) -> CExpression {
    CExpression::Factor(Box::new(CFactor::Var(CVar { name: name.to_string(), id: id.map(TempId) })))
}

fn call(name: &str, args: Vec<CExpression>) -> CExpression {
    CExpression::Factor(Box::new(CFactor::FunctionCall(name.to_string(), args)))
}

fn num(i: i32) -> CExpression {
    CExpression::Factor(Box::new(CFactor::Constant(i)))
}

fn func(name: &str, params: &[&str], body: Option<Vec<CBlockItem>>) -> CFnDecl {
    CFnDecl {
        name: name.to_string(),
        params: params.iter().map(|p| CParam { keyword: Keyword::Int, name: Some(p.to_string()), id: None }).collect(),
        body: body.map(CBlock),
    }
}

fn ret(e: CExpression) -> CBlockItem {
    CBlockItem::Statement(CStatement::Return(e))
}

fn check(functions: Vec<CFnDecl>) -> (Result<(), TypeError>, TypeChecker) {
    let mut checker = TypeChecker::new();
    let r = checker.type_check(&CProgram { functions });
    (r, checker)
}

#[test]
fn consistent_program_records_its_symbols() {
    let body = vec![
        CBlockItem::Declaration(CDeclaration::VarDecl(CVarDecl {
            var: CVar { name: "a".to_string(), id: Some(TempId(2)) },
            init: Some(call("f.0", vec![num(1)])),
        })),
        ret(rvar("a", Some(2))),
    ];
    let (r, checker) = check(vec![
        func("f", &["x.1"], Some(vec![ret(rvar("x", Some(1)))])),
        func("main", &[], Some(body)),
    ]);
    assert!(r.is_ok());
    let keys: Vec<&str> = checker.symbols.iter().map(|(k, _)| k.as_str()).collect();
    assert_eq!(keys, vec!["f.0", "x.1", "main.0", "a.2"]);
    assert_eq!(
        checker.symbols[0].1,
        SymbolEntry { kind: SymbolKind::Fn { defined: true }, type_: Type::FnType { param_count: 1 } }
    );
    assert_eq!(checker.symbols[3].1, SymbolEntry { kind: SymbolKind::Var, type_: Type::Int });
}

#[test]
fn declarations_with_different_arity() {
    let (r, _) = check(vec![func("f", &[], None), func("f", &["a.1"], None)]);
    match r {
        Err(TypeError::IncompatibleDeclarations { name, previous, found }) => {
            assert_eq!(name, "f");
            assert_eq!(previous, Type::FnType { param_count: 0 });
            assert_eq!(found, Type::FnType { param_count: 1 });
        }
        other => panic!("unexpected result {:?}", other),
    }
}

#[test]
fn function_defined_twice() {
    let (r, _) = check(vec![func("f", &[], Some(vec![])), func("f", &[], None), func("f", &[], Some(vec![]))]);
    assert!(matches!(r, Err(TypeError::DefinedTwice(n)) if n == "f"));
}

#[test]
fn call_of_an_unknown_function() {
    let (r, _) = check(vec![func("main", &[], Some(vec![ret(call("g", vec![]))]))]);
    assert!(matches!(r, Err(TypeError::UndeclaredFunction(n)) if n == "g"));
}

#[test]
fn call_with_too_many_arguments() {
    let (r, _) = check(vec![func("main", &[], Some(vec![ret(call("main.0", vec![num(1)]))]))]);
    assert!(matches!(r, Err(TypeError::WrongArgumentCount(n)) if n == "main.0"));
}

#[test]
fn variable_called_as_a_function() {
    let (r, _) = check(vec![func("main", &["p.1"], Some(vec![ret(call("p.1", vec![]))]))]);
    assert!(matches!(r, Err(TypeError::VariableUsedAsFunction)));
}

#[test]
fn function_read_as_a_variable() {
    let (r, _) = check(vec![func("main", &[], Some(vec![ret(rvar("main", Some(0)))]))]);
    assert!(matches!(r, Err(TypeError::FunctionUsedAsVariable)));
}

#[test]
fn unresolved_variable_is_undeclared() {
    let (r, _) = check(vec![func("main", &[], Some(vec![ret(rvar("q", None))]))]);
    assert!(matches!(r, Err(TypeError::UndeclaredVariable(n)) if n == "q.?"));
}

#[test]
fn for_loop_body_is_not_checked() {
    let body = vec![CBlockItem::Statement(CStatement::For {
        init: tricc::parser::c_ast::CForInit::InitExp(None),
        cond: Some(num(1)),
        post: None,
        body: Box::new(CStatement::Return(rvar("nowhere", None))),
        label: None,
    })];
    let (r, _) = check(vec![func("main", &[], Some(body))]);
    assert!(r.is_ok());
}

#[test]
fn default_checker_is_empty() {
    let c = TypeChecker::default();
    assert!(c.symbols.is_empty());
}

#[test]
fn type_error_messages() {
    assert_eq!(
        TypeError::WrongArgumentCount("f.0".to_string()).message(),
        "Function `f.0()` called with the wrong number of arguments"
    );
    assert_eq!(TypeError::DefinedTwice("g".to_string()).message(), "Function `g()` is defined more than once");
    assert_eq!(TypeError::VariableUsedAsFunction.message(), "Variable used as function name");
    assert_eq!(TypeError::FunctionUsedAsVariable.message(), "Function name used as variable");
    assert_eq!(
        TypeError::UndeclaredVariable("a.3".to_string()).message(),
        "Variable `a.3` is called before it is declared; This should have been taken care of during identifier resolution."
    );
    assert_eq!(
        TypeError::UndeclaredFunction("h".to_string()).message(),
        "`h()` is called before it is declared; This should have been taken care of during identifier resolution"
    );
    assert_eq!(
        TypeError::IncompatibleDeclarations {
            name: "f".to_string(),
            previous: Type::FnType { param_count: 1 },
            found: Type::FnType { param_count: 0 },
        }
        .message(),
        "Found incompatible function declarations for `f`: "
    );
}

#[test]
fn incompatible_definition_message_names_the_function() {
    let (r, _) = check(vec![func("f", &["a.1"], None), func("f", &[], Some(vec![]))]);
    match r {
        Err(e) => assert!(e.message().starts_with("Found incompatible function declarations for `f`")),
        Ok(()) => panic!("accepted incompatible declarations"),
    }
}
