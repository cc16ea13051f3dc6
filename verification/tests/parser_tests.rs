use tricc::common::UnaryOp;
use tricc::lexer::Lexer;
use tricc::parser::c_ast::{CBlock, CBlockItem, CExpression, CFactor, CFnDecl, CProgram, CStatement};
use tricc::parser::Parser;

fn parse(code: &[u8]) -> CProgram {
    let mut lexer = Lexer::new(code, "test.c".to_string());
    let tokens = lexer.get_tokens();
    let mut parser = Parser::new(tokens);
    parser.parse_program().unwrap()
}

fn main_returning(exp: CExpression) -> CProgram {
    CProgram {
        functions: vec![CFnDecl {
            name: "main".to_string(),
            params: vec![],
            body: Some(CBlock(vec![CBlockItem::Statement(CStatement::Return(exp))])),
        }],
    }
}

fn constant(i: i32) -> CFactor {
    CFactor::Constant(i)
}

#[test]
fn return_2() {
    let code = b"int main(void) {
        return 2;
        }";

    let program = parse(code);

    let ref_program = main_returning(CExpression::Factor(Box::new(constant(2))));

    assert_eq!(program, ref_program)
}

#[test]
fn return_neg_2() {
    let code = b"int main(void) {
        return -2;
        }";

    let program = parse(code);

    let ref_program = main_returning(CExpression::Factor(Box::new(CFactor::Unary(
        UnaryOp::Negation,
        Box::new(constant(2)),
    ))));

    assert_eq!(program, ref_program)
}

#[test]
fn return_not_2() {
    let code = b"int main(void) {
        return ~2;
        }";

    let program = parse(code);

    let ref_program = main_returning(CExpression::Factor(Box::new(CFactor::Unary(
        UnaryOp::BitwiseNot,
        Box::new(constant(2)),
    ))));

    assert_eq!(program, ref_program)
}

#[test]
fn return_not_neg_2() {
    let code = b"int main(void) {
        return (~((-2)));
        }";

    let program = parse(code);

    let ref_program = main_returning(CExpression::Factor(Box::new(CFactor::Expression(
        CExpression::Factor(Box::new(CFactor::Unary(
            UnaryOp::BitwiseNot,
            Box::new(CFactor::Expression(CExpression::Factor(Box::new(CFactor::Expression(
                CExpression::Factor(Box::new(CFactor::Unary(UnaryOp::Negation, Box::new(constant(2))))),
            ))))),
        ))),
    ))));

    assert_eq!(program, ref_program)
}

use tricc::common::{BinaryOp, Keyword, Operator};
use tricc::lexer::Token;
use tricc::parser::c_ast::{CDeclaration, CForInit, CParam, CVar, CVarDecl};
use tricc::parser::grammar::ParseError;

fn parse_tokens(tokens: Vec<Token>) -> Result<CProgram, ParseError> {
    let mut parser = Parser::new(tokens);
    parser.try_parse_program()
}

fn ident(s: &str) -> Token {
    Token::Identifier(s.to_string())
}

fn kw(k: Keyword) -> Token {
    Token::Keyword(k)
}

fn op(o: Operator) -> Token {
    Token::Operator(o)
}

fn main_header() -> Vec<Token> {
    vec![kw(Keyword::Int), ident("main"), Token::OpenParenthesis, kw(Keyword::Void), Token::CloseParenthesis, Token::OpenBrace]
}

fn with_body(body: Vec<Token>) -> Vec<Token> {
    let mut t = main_header();
    t.extend(body);
    t.push(Token::CloseBrace);
    t
}

fn var(name: &str) -> CExpression {
    CExpression::Factor(Box::new(CFactor::Var(CVar { name: name.to_string(), id: None })))
}

fn num(i: i32) -> CExpression {
    CExpression::Factor(Box::new(CFactor::Constant(i)))
}

fn bin(o: BinaryOp, a: CExpression, b: CExpression) -> CExpression {
    CExpression::Binary(o, Box::new(a), Box::new(b))
}

#[test]
fn tokens_after_the_last_function_are_left_over() {
    let mut t = with_body(vec![kw(Keyword::Return), Token::Constant(2), Token::Semicolon]);
    t.push(Token::Constant(5));
    assert!(matches!(parse_tokens(t), Err(ParseError::LeftoverTokens)));
}

#[test]
fn missing_semicolon_is_expected() {
    let t = with_body(vec![kw(Keyword::Return), Token::Constant(2)]);
    match parse_tokens(t) {
        Err(ParseError::Expected { expected, found }) => {
            assert_eq!(expected, Token::Semicolon);
            assert_eq!(found, Some(Token::CloseBrace));
        }
        other => panic!("unexpected result {:?}", other),
    }
}

#[test]
fn function_without_a_name() {
    let t = vec![kw(Keyword::Int), Token::OpenParenthesis, kw(Keyword::Void), Token::CloseParenthesis, Token::Semicolon];
    match parse_tokens(t) {
        Err(ParseError::ExpectedIdentifier { found }) => assert_eq!(found, Some(Token::OpenParenthesis)),
        other => panic!("unexpected result {:?}", other),
    }
}

#[test]
fn parameter_without_a_name() {
    let t = vec![kw(Keyword::Int), ident("f"), Token::OpenParenthesis, kw(Keyword::Int), Token::CloseParenthesis, Token::Semicolon];
    assert!(matches!(parse_tokens(t), Err(ParseError::MissingParameterName)));
}

#[test]
fn missing_expression() {
    let t = with_body(vec![kw(Keyword::Return), Token::Semicolon]);
    match parse_tokens(t) {
        Err(ParseError::ExpectedExpression { found }) => assert_eq!(found, Some(Token::Semicolon)),
        other => panic!("unexpected result {:?}", other),
    }
}

#[test]
fn declaration_of_a_constant() {
    let t = with_body(vec![kw(Keyword::Int), Token::Constant(3), Token::Semicolon]);
    match parse_tokens(t) {
        Err(ParseError::InvalidVariableName { found }) => assert_eq!(found.unwrap(), CFactor::Constant(3)),
        other => panic!("unexpected result {:?}", other),
    }
}

#[test]
fn prefix_decrement_is_refused() {
    let mut lexer = Lexer::new(b"int main(void) { return --2; }", "d.c".to_string());
    let tokens = lexer.get_tokens();
    assert!(matches!(parse_tokens(tokens), Err(ParseError::DecrementUnsupported)));
}

#[test]
fn precedence_and_assignment() {
    // int a = 1 + 2 * 3; a = a - 1 - 1; return a < 2 ? 1 : 2;
    let t = with_body(vec![
        kw(Keyword::Int), ident("a"), op(Operator::Assign), Token::Constant(1), op(Operator::Plus), Token::Constant(2),
        op(Operator::Mul), Token::Constant(3), Token::Semicolon,
        ident("a"), op(Operator::Assign), ident("a"), op(Operator::Minus), Token::Constant(1), op(Operator::Minus),
        Token::Constant(1), Token::Semicolon,
        kw(Keyword::Return), ident("a"), op(Operator::Less), Token::Constant(2), op(Operator::Conditional),
        Token::Constant(1), Token::Colon, Token::Constant(2), Token::Semicolon,
    ]);
    let program = parse_tokens(t).unwrap();
    let expected = CProgram {
        functions: vec![CFnDecl {
            name: "main".to_string(),
            params: vec![],
            body: Some(CBlock(vec![
                CBlockItem::Declaration(CDeclaration::VarDecl(CVarDecl {
                    var: CVar { name: "a".to_string(), id: None },
                    init: Some(bin(BinaryOp::Add, num(1), bin(BinaryOp::Mul, num(2), num(3)))),
                })),
                CBlockItem::Statement(CStatement::Expression(CExpression::Assign(
                    Box::new(var("a")),
                    Box::new(bin(BinaryOp::Sub, bin(BinaryOp::Sub, var("a"), num(1)), num(1))),
                ))),
                CBlockItem::Statement(CStatement::Return(CExpression::Conditional {
                    cond: Box::new(bin(BinaryOp::Less, var("a"), num(2))),
                    then: Box::new(num(1)),
                    else_: Box::new(num(2)),
                })),
            ])),
        }],
    };
    assert_eq!(program, expected);
}

#[test]
fn calls_parameters_and_loops() {
    // int f(int x, int y); int main(void) { for (;;) { while (1) break; } return f(1, 2); }
    let mut t = vec![
        kw(Keyword::Int), ident("f"), Token::OpenParenthesis, kw(Keyword::Int), ident("x"), Token::Comma,
        kw(Keyword::Int), ident("y"), Token::CloseParenthesis, Token::Semicolon,
    ];
    t.extend(with_body(vec![
        kw(Keyword::For), Token::OpenParenthesis, Token::Semicolon, Token::Semicolon, Token::CloseParenthesis,
        Token::OpenBrace, kw(Keyword::While), Token::OpenParenthesis, Token::Constant(1), Token::CloseParenthesis,
        kw(Keyword::Break), Token::Semicolon, Token::CloseBrace,
        kw(Keyword::Return), ident("f"), Token::OpenParenthesis, Token::Constant(1), Token::Comma, Token::Constant(2),
        Token::CloseParenthesis, Token::Semicolon,
    ]));
    let program = parse_tokens(t).unwrap();
    let param = |n: &str| CParam { keyword: Keyword::Int, name: Some(n.to_string()), id: None };
    let expected = CProgram {
        functions: vec![
            CFnDecl { name: "f".to_string(), params: vec![param("x"), param("y")], body: None },
            CFnDecl {
                name: "main".to_string(),
                params: vec![],
                body: Some(CBlock(vec![
                    CBlockItem::Statement(CStatement::For {
                        init: CForInit::InitExp(None),
                        cond: None,
                        post: None,
                        body: Box::new(CStatement::Compound(CBlock(vec![CBlockItem::Statement(CStatement::While {
                            cond: num(1),
                            body: Box::new(CStatement::Break(None)),
                            label: None,
                        })]))),
                        label: None,
                    }),
                    CBlockItem::Statement(CStatement::Return(CExpression::Factor(Box::new(CFactor::FunctionCall(
                        "f".to_string(),
                        vec![num(1), num(2)],
                    ))))),
                ])),
            },
        ],
    };
    assert_eq!(program, expected);
}

#[test]
fn parse_error_messages() {
    assert_eq!(ParseError::LeftoverTokens.message(), Some("leftover tokens after program".to_string()));
    assert_eq!(ParseError::MissingParameterName.message(), Some("Parameter without identifier".to_string()));
    assert_eq!(ParseError::ExpectedExpression { found: None }.message(), None);
}
