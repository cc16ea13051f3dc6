use vstd::prelude::*;

use crate::common::{BinaryOp, Keyword, Operator};
use crate::lexer::{SpecToken, Token};
use crate::parser::c_ast::{CFactor, SpecBlockItem, SpecDeclaration, SpecExpression, SpecFactor, SpecFnDecl, SpecForInit, SpecParam, SpecProgram, SpecStatement, SpecVar, SpecVarDecl};

verus! {

/// Why parsing stopped.
#[derive(Debug)]
pub enum ParseError {
    /// A token other than the one the grammar requires here.
    Expected { expected: Token, found: Option<Token> },
    /// Tokens remain after the last function.
    LeftoverTokens,
    /// A function name is missing.
    ExpectedIdentifier { found: Option<Token> },
    /// An expression is missing.
    ExpectedExpression { found: Option<Token> },
    /// A parameter has a type but no name.
    MissingParameterName,
    /// A declaration that does not name a variable: what was parsed in its place.
    InvalidVariableName { found: Result<CFactor, Box<ParseError>> },
    /// A prefix decrement, which the parser does not handle yet.
    DecrementUnsupported,
}

/// [`ParseError`] with its tokens and trees taken by their views.
pub enum SpecParseError {
    Expected { expected: SpecToken, found: Option<SpecToken> },
    LeftoverTokens,
    ExpectedIdentifier { found: Option<SpecToken> },
    ExpectedExpression { found: Option<SpecToken> },
    MissingParameterName,
    InvalidVariableName { found: Result<SpecFactor, Box<SpecParseError>> },
    DecrementUnsupported,
}

pub open spec fn opt_token_view(t: Option<Token>) -> Option<SpecToken> {
    match t {
        Some(x) => Some(x@),
        None => None,
    }
}

impl ParseError {
    pub open spec fn view_of(&self) -> SpecParseError
        decreases self,
    {
        match self {
            ParseError::Expected { expected, found } => SpecParseError::Expected {
                expected: expected@,
                found: opt_token_view(*found),
            },
            ParseError::LeftoverTokens => SpecParseError::LeftoverTokens,
            ParseError::ExpectedIdentifier { found } => SpecParseError::ExpectedIdentifier {
                found: opt_token_view(*found),
            },
            ParseError::ExpectedExpression { found } => SpecParseError::ExpectedExpression {
                found: opt_token_view(*found),
            },
            ParseError::MissingParameterName => SpecParseError::MissingParameterName,
            ParseError::InvalidVariableName { found } => SpecParseError::InvalidVariableName {
                found: match found {
                    Ok(f) => Ok(f.view_of()),
                    Err(e) => Err(Box::new(e.view_of())),
                },
            },
            ParseError::DecrementUnsupported => SpecParseError::DecrementUnsupported,
        }
    }
}

/// The message for a parse error; `None` for the errors whose message shows
/// tokens or a parsed factor in their derived `Debug` form.
pub open spec fn parse_message(e: SpecParseError) -> Option<Seq<char>> {
    match e {
        SpecParseError::LeftoverTokens => Some("leftover tokens after program"@),
        SpecParseError::MissingParameterName => Some("Parameter without identifier"@),
        SpecParseError::DecrementUnsupported => Some("not implemented"@),
        _ => None,
    }
}

impl ParseError {
    /// The message that describes this error, where it shows no token.
    pub fn message(&self) -> (r: Option<String>)
        ensures
            r matches Some(s) ==> parse_message(self.view_of()) == Some(s@),
            r is None ==> parse_message(self.view_of()) is None,
    {
        match self {
            ParseError::LeftoverTokens => Some(String::from_str("leftover tokens after program")),
            ParseError::MissingParameterName => Some(String::from_str("Parameter without identifier")),
            ParseError::DecrementUnsupported => Some(String::from_str("not implemented")),
            _ => None,
        }
    }
}

impl View for ParseError {
    type V = SpecParseError;

    open spec fn view(&self) -> SpecParseError {
        self.view_of()
    }
}

/// A parse of a `X` that ends just before the given index.
pub type Parsed<X> = Result<(X, int), SpecParseError>;

/// The token at index `p`, if any.
pub open spec fn tok_at(t: Seq<SpecToken>, p: int) -> Option<SpecToken> {
    if 0 <= p < t.len() {
        Some(t[p])
    } else {
        None
    }
}

/// Consumes the token `e` at index `p`.
pub open spec fn expect_at(t: Seq<SpecToken>, p: int, e: SpecToken) -> Result<int, SpecParseError> {
    if tok_at(t, p) == Some(e) {
        Ok(p + 1)
    } else {
        Err(SpecParseError::Expected { expected: e, found: tok_at(t, p) })
    }
}

/// `q` lies past `p` and within the tokens.
pub open spec fn ahead(t: Seq<SpecToken>, p: int, q: int) -> bool {
    p < q <= t.len()
}

/// A position where a parse would not make progress; never produced.
pub open spec fn stalled<X>() -> Parsed<X> {
    Err(SpecParseError::LeftoverTokens)
}

/// factor := constant | unop factor | '(' expression ')' | identifier [ '(' args ')' ]
pub open spec fn spec_factor(t: Seq<SpecToken>, p: int) -> Parsed<SpecFactor>
    decreases t.len() - p, 1int,
{
    match tok_at(t, p) {
        Some(SpecToken::Constant(i)) => Ok((SpecFactor::Constant(i), p + 1)),
        Some(SpecToken::Operator(op)) => {
            if op == Operator::Decrement {
                Err(SpecParseError::DecrementUnsupported)
            } else if op.spec_to_unop() is Some {
                match spec_factor(t, p + 1) {
                    Ok((f, q)) => Ok((SpecFactor::Unary(op.spec_to_unop().unwrap(), Box::new(f)), q)),
                    Err(x) => Err(x),
                }
            } else {
                Err(SpecParseError::ExpectedExpression { found: Some(SpecToken::Operator(op)) })
            }
        },
        Some(SpecToken::OpenParenthesis) => match spec_expression(t, p + 1, 0) {
            Ok((e, q)) => match expect_at(t, q, SpecToken::CloseParenthesis) {
                Ok(q2) => Ok((SpecFactor::Expression(e), q2)),
                Err(x) => Err(x),
            },
            Err(x) => Err(x),
        },
        Some(SpecToken::Identifier(name)) => spec_var_or_call(t, p + 1, name),
        other => Err(SpecParseError::ExpectedExpression { found: other }),
    }
}

/// After an identifier: a call with its arguments, or a variable.
pub open spec fn spec_var_or_call(t: Seq<SpecToken>, p: int, name: Seq<char>) -> Parsed<SpecFactor>
    decreases t.len() - p, 0int,
{
    if tok_at(t, p) == Some(SpecToken::OpenParenthesis) {
        match spec_args(t, p + 1) {
            Ok((a, q)) => match expect_at(t, q, SpecToken::CloseParenthesis) {
                Ok(q2) => Ok((SpecFactor::FunctionCall(name, a), q2)),
                Err(x) => Err(x),
            },
            Err(SpecParseError::DecrementUnsupported) => Err(SpecParseError::DecrementUnsupported),
            Err(_) => match expect_at(t, p + 1, SpecToken::CloseParenthesis) {
                Ok(q2) => Ok((SpecFactor::FunctionCall(name, seq![]), q2)),
                Err(x) => Err(x),
            },
        }
    } else {
        Ok((SpecFactor::Var(SpecVar { name, id: None }), p))
    }
}

/// args := expression { ',' expression }, up to a closing parenthesis that is not consumed.
pub open spec fn spec_args(t: Seq<SpecToken>, p: int) -> Parsed<Seq<SpecExpression>>
    decreases t.len() - p, 3int,
{
    match spec_expression(t, p, 0) {
        Ok((e, q)) => {
            if tok_at(t, q) == Some(SpecToken::CloseParenthesis) {
                Ok((seq![e], q))
            } else {
                match expect_at(t, q, SpecToken::Comma) {
                    Ok(q2) => if ahead(t, p, q2) {
                        match spec_args(t, q2) {
                            Ok((rest, r)) => Ok((seq![e] + rest, r)),
                            Err(x) => Err(x),
                        }
                    } else {
                        stalled()
                    },
                    Err(x) => Err(x),
                }
            }
        },
        Err(x) => Err(x),
    }
}

/// An expression whose binary operators all bind at least as tightly as `min`.
pub open spec fn spec_expression(t: Seq<SpecToken>, p: int, min: u32) -> Parsed<SpecExpression>
    decreases t.len() - p, 2int,
{
    match spec_factor(t, p) {
        Ok((f, q)) => if ahead(t, p, q) {
            spec_expression_rest(t, SpecExpression::Factor(Box::new(f)), q, min)
        } else {
            stalled()
        },
        Err(x) => Err(x),
    }
}

/// Precedence climbing: extends `left` with the operators from index `p` that bind at least as tightly as `min`.
pub open spec fn spec_expression_rest(t: Seq<SpecToken>, left: SpecExpression, p: int, min: u32) -> Parsed<SpecExpression>
    decreases t.len() - p, 2int,
{
    match tok_at(t, p) {
        Some(SpecToken::Operator(op)) => {
            if op.spec_to_binop() is Some && op.spec_precedence() >= min {
                let b = op.spec_to_binop().unwrap();
                if b == BinaryOp::Assign {
                    match spec_expression(t, p + 1, b.spec_precedence()) {
                        Ok((right, r)) => if ahead(t, p, r) {
                            spec_expression_rest(t, SpecExpression::Assign(Box::new(left), Box::new(right)), r, min)
                        } else {
                            stalled()
                        },
                        Err(x) => Err(x),
                    }
                } else if b == BinaryOp::Conditional {
                    match spec_expression(t, p + 1, 0) {
                        Ok((middle, r)) => match expect_at(t, r, SpecToken::Colon) {
                            Ok(r2) => if ahead(t, p, r2) {
                                match spec_expression(t, r2, b.spec_precedence()) {
                                    Ok((right, r3)) => if ahead(t, p, r3) {
                                        spec_expression_rest(
                                            t,
                                            SpecExpression::Conditional {
                                                cond: Box::new(left),
                                                then: Box::new(middle),
                                                else_: Box::new(right),
                                            },
                                            r3,
                                            min,
                                        )
                                    } else {
                                        stalled()
                                    },
                                    Err(x) => Err(x),
                                }
                            } else {
                                stalled()
                            },
                            Err(x) => Err(x),
                        },
                        Err(x) => Err(x),
                    }
                } else {
                    match spec_expression(t, p + 1, (b.spec_precedence() + 1) as u32) {
                        Ok((right, r)) => if ahead(t, p, r) {
                            spec_expression_rest(t, SpecExpression::Binary(b, Box::new(left), Box::new(right)), r, min)
                        } else {
                            stalled()
                        },
                        Err(x) => Err(x),
                    }
                }
            } else {
                Ok((left, p))
            }
        },
        _ => Ok((left, p)),
    }
}

/// An expression that may be absent, then the token `end`.
pub open spec fn spec_optional_expression(t: Seq<SpecToken>, p: int, end: SpecToken) -> Parsed<Option<SpecExpression>>
    decreases t.len() - p, 3int,
{
    match spec_expression(t, p, 0) {
        Ok((e, q)) => match expect_at(t, q, end) {
            Ok(q2) => Ok((Some(e), q2)),
            Err(x) => Err(x),
        },
        Err(SpecParseError::DecrementUnsupported) => Err(SpecParseError::DecrementUnsupported),
        Err(_) => match expect_at(t, p, end) {
            Ok(q2) => Ok((None, q2)),
            Err(x) => Err(x),
        },
    }
}

/// var-declaration := variable [ '=' expression ] ';' (after `int`)
pub open spec fn spec_var_declaration(t: Seq<SpecToken>, p: int) -> Parsed<SpecVarDecl>
    decreases t.len() - p, 3int,
{
    match spec_factor(t, p) {
        Ok((SpecFactor::Var(v), q)) => {
            if tok_at(t, q) == Some(SpecToken::Operator(Operator::Assign)) {
                if p <= q {
                    match spec_expression(t, q + 1, 0) {
                        Ok((e, r)) => match expect_at(t, r, SpecToken::Semicolon) {
                            Ok(r2) => Ok((SpecVarDecl { var: v, init: Some(e) }, r2)),
                            Err(x) => Err(x),
                        },
                        Err(x) => Err(x),
                    }
                } else {
                    stalled()
                }
            } else {
                match expect_at(t, q, SpecToken::Semicolon) {
                    Ok(r2) => Ok((SpecVarDecl { var: v, init: None }, r2)),
                    Err(x) => Err(x),
                }
            }
        },
        Ok((f, _)) => Err(SpecParseError::InvalidVariableName { found: Ok(f) }),
        Err(SpecParseError::DecrementUnsupported) => Err(SpecParseError::DecrementUnsupported),
        Err(x) => Err(SpecParseError::InvalidVariableName { found: Err(Box::new(x)) }),
    }
}

/// A statement starting at index `p`.
pub open spec fn spec_statement(t: Seq<SpecToken>, p: int) -> Parsed<SpecStatement>
    decreases t.len() - p, 4int,
{
    match tok_at(t, p) {
        Some(SpecToken::Keyword(Keyword::Return)) => spec_return_rest(t, p + 1),
        Some(SpecToken::Keyword(Keyword::If)) => spec_if_rest(t, p + 1),
        Some(SpecToken::Keyword(Keyword::Break)) => match expect_at(t, p + 1, SpecToken::Semicolon) {
            Ok(q) => Ok((SpecStatement::Break(None), q)),
            Err(x) => Err(x),
        },
        Some(SpecToken::Keyword(Keyword::Continue)) => match expect_at(t, p + 1, SpecToken::Semicolon) {
            Ok(q) => Ok((SpecStatement::Continue(None), q)),
            Err(x) => Err(x),
        },
        Some(SpecToken::Keyword(Keyword::While)) => spec_while_rest(t, p + 1),
        Some(SpecToken::Keyword(Keyword::Do)) => spec_do_rest(t, p + 1),
        Some(SpecToken::Keyword(Keyword::For)) => spec_for_rest(t, p + 1),
        Some(SpecToken::OpenBrace) => match spec_block(t, p + 1) {
            Ok((b, q)) => Ok((SpecStatement::Compound(b), q)),
            Err(x) => Err(x),
        },
        Some(SpecToken::Semicolon) => Ok((SpecStatement::Null, p + 1)),
        _ => match spec_expression(t, p, 0) {
            Ok((e, q)) => match expect_at(t, q, SpecToken::Semicolon) {
                Ok(q2) => Ok((SpecStatement::Expression(e), q2)),
                Err(x) => Err(x),
            },
            Err(x) => Err(x),
        },
    }
}

/// `return` expression ';' (after `return`)
pub open spec fn spec_return_rest(t: Seq<SpecToken>, q: int) -> Parsed<SpecStatement>
    decreases t.len() - q, 5int,
{
    match spec_expression(t, q, 0) {
        Ok((e, r)) => match expect_at(t, r, SpecToken::Semicolon) {
            Ok(r2) => Ok((SpecStatement::Return(e), r2)),
            Err(x) => Err(x),
        },
        Err(x) => Err(x),
    }
}

/// `if` '(' expression ')' statement [ `else` statement ] (after `if`)
pub open spec fn spec_if_rest(t: Seq<SpecToken>, q: int) -> Parsed<SpecStatement>
    decreases t.len() - q, 5int,
{
    match expect_at(t, q, SpecToken::OpenParenthesis) {
        Ok(q1) => if ahead(t, q, q1) {
            match spec_expression(t, q1, 0) {
                Ok((cond, q2)) => match expect_at(t, q2, SpecToken::CloseParenthesis) {
                    Ok(q3) => if ahead(t, q, q3) {
                        match spec_statement(t, q3) {
                            Ok((then, q4)) => if tok_at(t, q4) == Some(SpecToken::Keyword(Keyword::Else)) {
                                if q <= q4 {
                                    match spec_statement(t, q4 + 1) {
                                        Ok((els, q5)) => Ok((SpecStatement::If {
                                            cond,
                                            then: Box::new(then),
                                            else_: Some(Box::new(els)),
                                        }, q5)),
                                        Err(x) => Err(x),
                                    }
                                } else {
                                    stalled()
                                }
                            } else {
                                Ok((SpecStatement::If { cond, then: Box::new(then), else_: None }, q4))
                            },
                            Err(x) => Err(x),
                        }
                    } else {
                        stalled()
                    },
                    Err(x) => Err(x),
                },
                Err(x) => Err(x),
            }
        } else {
            stalled()
        },
        Err(x) => Err(x),
    }
}

/// `while` '(' expression ')' statement (after `while`)
pub open spec fn spec_while_rest(t: Seq<SpecToken>, q: int) -> Parsed<SpecStatement>
    decreases t.len() - q, 5int,
{
    match expect_at(t, q, SpecToken::OpenParenthesis) {
        Ok(q1) => if ahead(t, q, q1) {
            match spec_expression(t, q1, 0) {
                Ok((cond, q2)) => match expect_at(t, q2, SpecToken::CloseParenthesis) {
                    Ok(q3) => if ahead(t, q, q3) {
                        match spec_statement(t, q3) {
                            Ok((body, q4)) => Ok((SpecStatement::While { cond, body: Box::new(body), label: None }, q4)),
                            Err(x) => Err(x),
                        }
                    } else {
                        stalled()
                    },
                    Err(x) => Err(x),
                },
                Err(x) => Err(x),
            }
        } else {
            stalled()
        },
        Err(x) => Err(x),
    }
}

/// `do` statement `while` '(' expression ')' ';' (after `do`)
pub open spec fn spec_do_rest(t: Seq<SpecToken>, q: int) -> Parsed<SpecStatement>
    decreases t.len() - q, 5int,
{
    match spec_statement(t, q) {
        Ok((body, q1)) => match expect_at(t, q1, SpecToken::Keyword(Keyword::While)) {
            Ok(q2) => match expect_at(t, q2, SpecToken::OpenParenthesis) {
                Ok(q3) => if ahead(t, q, q3) {
                    match spec_expression(t, q3, 0) {
                        Ok((cond, q4)) => match expect_at(t, q4, SpecToken::CloseParenthesis) {
                            Ok(q5) => match expect_at(t, q5, SpecToken::Semicolon) {
                                Ok(q6) => Ok((SpecStatement::DoWhile { body: Box::new(body), cond, label: None }, q6)),
                                Err(x) => Err(x),
                            },
                            Err(x) => Err(x),
                        },
                        Err(x) => Err(x),
                    }
                } else {
                    stalled()
                },
                Err(x) => Err(x),
            },
            Err(x) => Err(x),
        },
        Err(x) => Err(x),
    }
}

/// The first clause of a `for` loop, with its ';'.
pub open spec fn spec_for_init(t: Seq<SpecToken>, q: int) -> Parsed<SpecForInit>
    decreases t.len() - q, 5int,
{
    if tok_at(t, q) == Some(SpecToken::Keyword(Keyword::Int)) {
        match spec_var_declaration(t, q + 1) {
            Ok((d, r)) => Ok((SpecForInit::InitDecl(d), r)),
            Err(x) => Err(x),
        }
    } else {
        match spec_optional_expression(t, q, SpecToken::Semicolon) {
            Ok((e, r)) => Ok((SpecForInit::InitExp(e), r)),
            Err(x) => Err(x),
        }
    }
}

/// `for` '(' init [expression] ';' [expression] ')' statement (after `for`)
pub open spec fn spec_for_rest(t: Seq<SpecToken>, q: int) -> Parsed<SpecStatement>
    decreases t.len() - q, 5int,
{
    match expect_at(t, q, SpecToken::OpenParenthesis) {
        Ok(q1) => if ahead(t, q, q1) {
            match spec_for_init(t, q1) {
                Ok((init, q2)) => if ahead(t, q, q2) {
                    match spec_optional_expression(t, q2, SpecToken::Semicolon) {
                        Ok((cond, q3)) => if ahead(t, q, q3) {
                            match spec_optional_expression(t, q3, SpecToken::CloseParenthesis) {
                                Ok((post, q4)) => if ahead(t, q, q4) {
                                    match spec_statement(t, q4) {
                                        Ok((body, q5)) => Ok((SpecStatement::For {
                                            init,
                                            cond,
                                            post,
                                            body: Box::new(body),
                                            label: None,
                                        }, q5)),
                                        Err(x) => Err(x),
                                    }
                                } else {
                                    stalled()
                                },
                                Err(x) => Err(x),
                            }
                        } else {
                            stalled()
                        },
                        Err(x) => Err(x),
                    }
                } else {
                    stalled()
                },
                Err(x) => Err(x),
            }
        } else {
            stalled()
        },
        Err(x) => Err(x),
    }
}

/// The items of a block up to and including its '}'.
pub open spec fn spec_block(t: Seq<SpecToken>, p: int) -> Parsed<Seq<SpecBlockItem>>
    decreases t.len() - p, 6int,
{
    match tok_at(t, p) {
        Some(tk) => if tk == SpecToken::CloseBrace {
            Ok((seq![], p + 1))
        } else {
            match spec_block_item(t, p) {
                Ok((it, q)) => if ahead(t, p, q) {
                    match spec_block(t, q) {
                        Ok((rest, r)) => Ok((seq![it] + rest, r)),
                        Err(x) => Err(x),
                    }
                } else {
                    stalled()
                },
                Err(x) => Err(x),
            }
        },
        None => Err(SpecParseError::Expected { expected: SpecToken::CloseBrace, found: None }),
    }
}

/// A declaration when the item starts with `int`, a statement otherwise.
pub open spec fn spec_block_item(t: Seq<SpecToken>, p: int) -> Parsed<SpecBlockItem>
    decreases t.len() - p, 5int,
{
    if tok_at(t, p) == Some(SpecToken::Keyword(Keyword::Int)) {
        match spec_declaration(t, p) {
            Ok((d, q)) => Ok((SpecBlockItem::Declaration(d), q)),
            Err(x) => Err(x),
        }
    } else {
        match spec_statement(t, p) {
            Ok((s, q)) => Ok((SpecBlockItem::Statement(s), q)),
            Err(x) => Err(x),
        }
    }
}

/// `int` then a function declaration when a '(' follows the name, a variable declaration otherwise.
pub open spec fn spec_declaration(t: Seq<SpecToken>, p: int) -> Parsed<SpecDeclaration>
    decreases t.len() - p, 4int,
{
    match expect_at(t, p, SpecToken::Keyword(Keyword::Int)) {
        Ok(q) => if tok_at(t, q + 1) == Some(SpecToken::OpenParenthesis) {
            match spec_fn_declaration(t, q) {
                Ok((f, r)) => Ok((SpecDeclaration::FnDecl(f), r)),
                Err(x) => Err(x),
            }
        } else {
            match spec_var_declaration(t, q) {
                Ok((v, r)) => Ok((SpecDeclaration::VarDecl(v), r)),
                Err(x) => Err(x),
            }
        },
        Err(x) => Err(x),
    }
}

/// name '(' params ')' ( block | ';' ) (after `int`)
pub open spec fn spec_fn_declaration(t: Seq<SpecToken>, p: int) -> Parsed<SpecFnDecl>
    decreases t.len() - p, 9int,
{
    match tok_at(t, p) {
        Some(SpecToken::Identifier(name)) => match expect_at(t, p + 1, SpecToken::OpenParenthesis) {
            Ok(q1) => if ahead(t, p, q1) {
                match spec_params(t, q1) {
                    Ok((ps, q2)) => match expect_at(t, q2, SpecToken::CloseParenthesis) {
                        Ok(q3) => if tok_at(t, q3) == Some(SpecToken::OpenBrace) {
                            if p <= q3 {
                                match spec_block(t, q3 + 1) {
                                    Ok((b, q4)) => Ok((SpecFnDecl { name, params: ps, body: Some(b) }, q4)),
                                    Err(x) => Err(x),
                                }
                            } else {
                                stalled()
                            }
                        } else {
                            match expect_at(t, q3, SpecToken::Semicolon) {
                                Ok(q4) => Ok((SpecFnDecl { name, params: ps, body: None }, q4)),
                                Err(x) => Err(x),
                            }
                        },
                        Err(x) => Err(x),
                    },
                    Err(x) => Err(x),
                }
            } else {
                stalled()
            },
            Err(x) => Err(x),
        },
        other => Err(SpecParseError::ExpectedIdentifier { found: other }),
    }
}

/// `void`, or a list of `int` name separated by ','; the ')' is not consumed.
pub open spec fn spec_params(t: Seq<SpecToken>, p: int) -> Parsed<Seq<SpecParam>>
    decreases t.len() - p, 8int,
{
    if tok_at(t, p) == Some(SpecToken::Keyword(Keyword::Void)) {
        Ok((seq![], p + 1))
    } else {
        spec_param_list(t, p)
    }
}

pub open spec fn spec_param_list(t: Seq<SpecToken>, p: int) -> Parsed<Seq<SpecParam>>
    decreases t.len() - p, 7int,
{
    match expect_at(t, p, SpecToken::Keyword(Keyword::Int)) {
        Ok(q) => match tok_at(t, q) {
            Some(SpecToken::Identifier(name)) => {
                let prm = SpecParam { keyword: Keyword::Int, name: Some(name), id: None };
                if tok_at(t, q + 1) == Some(SpecToken::CloseParenthesis) {
                    Ok((seq![prm], q + 1))
                } else {
                    match expect_at(t, q + 1, SpecToken::Comma) {
                        Ok(r) => if ahead(t, p, r) {
                            match spec_param_list(t, r) {
                                Ok((rest, s)) => Ok((seq![prm] + rest, s)),
                                Err(x) => Err(x),
                            }
                        } else {
                            stalled()
                        },
                        Err(x) => Err(x),
                    }
                }
            },
            _ => Err(SpecParseError::MissingParameterName),
        },
        Err(x) => Err(x),
    }
}

/// Functions, each introduced by `int`, until a token other than `int`.
pub open spec fn spec_functions(t: Seq<SpecToken>, p: int) -> Parsed<Seq<SpecFnDecl>>
    decreases t.len() - p, 10int,
{
    if tok_at(t, p) == Some(SpecToken::Keyword(Keyword::Int)) {
        match spec_fn_declaration(t, p + 1) {
            Ok((f, q)) => if ahead(t, p, q) {
                match spec_functions(t, q) {
                    Ok((fs, r)) => Ok((seq![f] + fs, r)),
                    Err(x) => Err(x),
                }
            } else {
                stalled()
            },
            Err(x) => Err(x),
        }
    } else {
        Ok((seq![], p))
    }
}

/// The program that the tokens from index `p` spell: functions, and nothing after them.
pub open spec fn spec_program(t: Seq<SpecToken>, p: int) -> Result<SpecProgram, SpecParseError> {
    match spec_functions(t, p) {
        Ok((fs, q)) => if q < t.len() {
            Err(SpecParseError::LeftoverTokens)
        } else {
            Ok(SpecProgram { functions: fs })
        },
        Err(x) => Err(x),
    }
}

} // verus!
