use tricc::common::{Keyword, Operator};
use tricc::errors::{CompilerError, ErrorKind};
use tricc::lexer::{LexFailure, Lexer, Token};

fn lex(code: &str) -> Result<Vec<Token>, LexFailure> {
    let mut lexer = Lexer::new(code.as_bytes(), "in.c".to_string());
    lexer.tokenize()
}

#[test]
fn lexes_a_function() {
    let tokens = lex("int main(void) {\n  return 42;\n}").unwrap();
    assert_eq!(
        tokens,
        vec![
            Token::Keyword(Keyword::Int),
            Token::Identifier("main".to_string()),
            Token::OpenParenthesis,
            Token::Keyword(Keyword::Void),
            Token::CloseParenthesis,
            Token::OpenBrace,
            Token::Keyword(Keyword::Return),
            Token::Constant(42),
            Token::Semicolon,
            Token::CloseBrace,
        ]
    );
}

#[test]
fn lexes_operators_longest_first() {
    let tokens = lex("- -- ~ ! != && || == < <= > >= + * / %").unwrap();
    let ops: Vec<Operator> = vec![
        Operator::Minus,
        Operator::Decrement,
        Operator::BitwiseNot,
        Operator::LogicalNot,
        Operator::Neq,
        Operator::LogicalAnd,
        Operator::LogicalOr,
        Operator::Eq,
        Operator::Less,
        Operator::Leq,
        Operator::Greater,
        Operator::Geq,
        Operator::Plus,
        Operator::Mul,
        Operator::Div,
        Operator::Mod,
    ];
    let expected: Vec<Token> = ops.into_iter().map(Token::Operator).collect();
    assert_eq!(tokens, expected);
}

#[test]
fn words_that_are_not_keywords_are_identifiers() {
    let tokens = lex("whilst returns _x1 int").unwrap();
    assert_eq!(
        tokens,
        vec![
            Token::Identifier("whilst".to_string()),
            Token::Identifier("returns".to_string()),
            Token::Identifier("_x1".to_string()),
            Token::Keyword(Keyword::Int),
        ]
    );
}

#[test]
fn empty_input_has_no_tokens() {
    assert_eq!(lex(" \t\r\n").unwrap(), vec![]);
}

#[test]
fn invalid_character_is_located() {
    match lex("int a;\n  x @ y") {
        Err(LexFailure::Error(CompilerError { kind, filename, line_string, line_num, col })) => {
            assert!(matches!(kind, ErrorKind::InvalidCharacter(b'@')));
            assert_eq!(filename, "in.c");
            assert_eq!(line_string, "  x @ y");
            assert_eq!(line_num, 2);
            assert_eq!(col, 5);
        }
        other => panic!("unexpected result {:?}", other),
    }
}

#[test]
fn letters_after_digits_are_an_invalid_suffix() {
    match lex("return 12ab;") {
        Err(LexFailure::Error(e)) => {
            assert!(matches!(e.kind, ErrorKind::InvalidIntSuffix));
            assert_eq!(e.line_num, 1);
            assert_eq!(e.col, 10);
        }
        other => panic!("unexpected result {:?}", other),
    }
}

#[test]
fn single_equals_is_assignment() {
    assert_eq!(
        lex("a = 3").unwrap(),
        vec![Token::Identifier("a".to_string()), Token::Operator(Operator::Assign), Token::Constant(3)]
    );
    assert_eq!(
        lex("a==b").unwrap(),
        vec![Token::Identifier("a".to_string()), Token::Operator(Operator::Eq), Token::Identifier("b".to_string())]
    );
    assert_eq!(lex("= 1").unwrap(), vec![Token::Operator(Operator::Assign), Token::Constant(1)]);
}

#[test]
fn lone_ampersand_is_not_handled() {
    match lex("a & b") {
        Err(LexFailure::Unfinished(pos)) => assert_eq!(pos, 2),
        other => panic!("unexpected result {:?}", other),
    }
}

#[test]
fn commas_and_conditionals_lex() {
    let mut lexer = Lexer::new(b"f(a, b ? 1 : 2)", "c.c".to_string());
    let id = |s: &str| Token::Identifier(s.to_string());
    assert_eq!(
        lexer.get_tokens(),
        vec![
            id("f"),
            Token::OpenParenthesis,
            id("a"),
            Token::Comma,
            id("b"),
            Token::Operator(Operator::Conditional),
            Token::Constant(1),
            Token::Colon,
            Token::Constant(2),
            Token::CloseParenthesis,
        ]
    );
}

#[test]
fn loop_keywords_lex() {
    let tokens = lex("while do for break continue whiles").unwrap();
    assert_eq!(
        tokens,
        vec![
            Token::Keyword(Keyword::While),
            Token::Keyword(Keyword::Do),
            Token::Keyword(Keyword::For),
            Token::Keyword(Keyword::Break),
            Token::Keyword(Keyword::Continue),
            Token::Identifier("whiles".to_string()),
        ]
    );
}

#[test]
fn constant_beyond_i32_is_not_handled() {
    match lex("2147483648") {
        Err(LexFailure::Unfinished(pos)) => assert_eq!(pos, 0),
        other => panic!("unexpected result {:?}", other),
    }
    assert_eq!(lex("2147483647").unwrap(), vec![Token::Constant(2147483647)]);
}

#[test]
fn get_tokens_resets_the_position() {
    let code = b"int x;";
    let mut lexer = Lexer::new(code, "r.c".to_string());
    let first = lexer.get_tokens();
    let second = lexer.get_tokens();
    assert_eq!(first, second);
    lexer.reset();
    assert_eq!(lexer.get_tokens(), first);
}

#[test]
fn keywords_from_bytes() {
    assert_eq!(Keyword::from_u8(b"int"), Some(Keyword::Int));
    assert_eq!(Keyword::from_u8(b"void"), Some(Keyword::Void));
    assert_eq!(Keyword::from_u8(b"if"), Some(Keyword::If));
    assert_eq!(Keyword::from_u8(b"else"), Some(Keyword::Else));
    assert_eq!(Keyword::from_u8(b"return"), Some(Keyword::Return));
    assert_eq!(Keyword::from_u8(b"while"), Some(Keyword::While));
    assert_eq!(Keyword::from_u8(b"do"), Some(Keyword::Do));
    assert_eq!(Keyword::from_u8(b"for"), Some(Keyword::For));
    assert_eq!(Keyword::from_u8(b"break"), Some(Keyword::Break));
    assert_eq!(Keyword::from_u8(b"continue"), Some(Keyword::Continue));
    assert_eq!(Keyword::from_u8(b"Int"), None);
    assert_eq!(Keyword::from_u8(b"in"), None);
}

#[test]
fn compiler_error_finds_line_and_column() {
    let source = b"first\nsecond line\nthird";
    let e = CompilerError::new(ErrorKind::LeftoverTokens, "f.c".to_string(), source, 13);
    assert_eq!(e.line_num, 2);
    assert_eq!(e.col, 8);
    assert_eq!(e.line_string, "second line");
    let at_end = CompilerError::new(ErrorKind::LeftoverTokens, "f.c".to_string(), source, source.len());
    assert_eq!(at_end.line_num, 3);
    assert_eq!(at_end.col, 6);
    assert_eq!(at_end.line_string, "third");
}

#[test]
fn compiler_error_line_with_invalid_utf8() {
    let source: &[u8] = b"ok\nbad \xff byte\nend";
    let e = CompilerError::new(ErrorKind::InvalidCharacter(0xff), "f.c".to_string(), source, 7);
    assert_eq!(e.line_num, 2);
    assert_eq!(e.col, 5);
    assert_eq!(e.line_string, "bad \u{FFFD} byte");
}

#[test]
fn error_kind_messages() {
    assert_eq!(ErrorKind::InvalidCharacter(64).message(), Some("Invalid character: `64`".to_string()));
    assert_eq!(ErrorKind::InvalidIntSuffix.message(), Some("Invalid suffix on integer constant".to_string()));
    assert_eq!(ErrorKind::LeftoverTokens.message(), Some("Remaining tokens after the end of program".to_string()));
    assert_eq!(
        ErrorKind::Expected { expected: Token::Semicolon, actual: Token::Comma }.message(),
        None
    );
}
