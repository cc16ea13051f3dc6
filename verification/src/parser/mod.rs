pub mod accepted;
pub mod c_ast;
pub mod grammar;
pub mod limits;
pub mod numbering;
pub mod semantic_analysis;
pub mod type_checker;

use vstd::prelude::*;

use crate::common::{BinaryOp, Keyword, Operator};
use crate::lexer::{SpecToken, Token};
use c_ast::{
    exprs_view, items_view, opt_expr_view, params_view, fns_view, CBlock, CBlockItem, CDeclaration,
    CExpression, CFactor, CFnDecl, CForInit, CParam, CProgram, CStatement, CVar, CVarDecl,
};
use grammar::{
    expect_at, spec_args, spec_block, spec_block_item, spec_declaration, spec_do_rest,
    spec_expression, spec_expression_rest, spec_factor, spec_fn_declaration, spec_for_init,
    spec_for_rest, spec_functions, spec_if_rest, spec_optional_expression, spec_param_list,
    spec_params, spec_program, spec_return_rest, spec_statement, spec_var_declaration,
    spec_var_or_call, spec_while_rest, tok_at, opt_token_view, ParseError, Parsed, SpecParseError,
};

verus! {

/// Puts `front` before the list that `r` parsed.
pub open spec fn prepend_parsed<X>(front: Seq<X>, r: Parsed<Seq<X>>) -> Parsed<Seq<X>> {
    match r {
        Ok((s, q)) => Ok((front + s, q)),
        Err(x) => Err(x),
    }
}

/// A recursive-descent parser over a token list.
pub struct Parser {
    tokens: Vec<Token>,
    pos: usize,
}

impl Parser {
    /// The tokens, by their views.
    pub closed spec fn toks(&self) -> Seq<SpecToken> {
        self.tokens.deep_view()
    }

    /// The index of the next token to read.
    pub closed spec fn position(&self) -> int {
        self.pos as int
    }

    pub closed spec fn wf(&self) -> bool {
        &&& self.pos <= self.tokens@.len() + 1
        &&& self.tokens@.len() < usize::MAX - 1
    }

    spec fn ready(&self) -> bool {
        &&& self.pos <= self.tokens@.len()
        &&& self.tokens@.len() < usize::MAX - 1
    }

    pub fn new(tokens: Vec<Token>) -> (p: Self)
        requires
            tokens@.len() < usize::MAX - 1,
        ensures
            p.toks() == tokens.deep_view(),
            p.position() == 0,
            p.wf(),
    {
        Parser { tokens, pos: 0 }
    }

    /// Parses the whole token list into a program.
    ///
    /// The tokens must not hold a prefix decrement where an expression is
    /// parsed: see [`Parser::try_parse_program`] for the checked form.
    pub fn parse_program(&mut self) -> (r: Result<CProgram, ParseError>)
        requires
            old(self).wf(),
            spec_program(old(self).toks(), old(self).position()) != Err::<c_ast::SpecProgram, SpecParseError>(SpecParseError::DecrementUnsupported),
        ensures
            final(self).wf(),
            final(self).toks() == old(self).toks(),
            match r {
                Ok(prog) => spec_program(old(self).toks(), old(self).position()) == Ok::<c_ast::SpecProgram, SpecParseError>(prog@),
                Err(e) => spec_program(old(self).toks(), old(self).position()) == Err::<c_ast::SpecProgram, SpecParseError>(e@),
            },
            r is Ok ==> final(self).position() == (if old(self).position() > old(self).toks().len() {
                old(self).position()
            } else {
                old(self).toks().len() as int
            }),
    {
        self.try_parse_program()
    }

    /// Parses the whole token list into a program; a prefix decrement in
    /// expression position gives [`ParseError::DecrementUnsupported`].
    pub fn try_parse_program(&mut self) -> (r: Result<CProgram, ParseError>)
        requires
            old(self).wf(),
        ensures
            final(self).wf(),
            final(self).toks() == old(self).toks(),
            match r {
                Ok(prog) => spec_program(old(self).toks(), old(self).position()) == Ok::<c_ast::SpecProgram, SpecParseError>(prog@),
                Err(e) => spec_program(old(self).toks(), old(self).position()) == Err::<c_ast::SpecProgram, SpecParseError>(e@),
            },
            r is Ok ==> final(self).position() == (if old(self).position() > old(self).toks().len() {
                old(self).position()
            } else {
                old(self).toks().len() as int
            }),
    {
        let ghost t = self.tokens.deep_view();
        let ghost p0 = self.pos as int;
        let mut functions: Vec<CFnDecl> = Vec::new();
        if self.pos > self.tokens.len() {
            assert(functions@ =~= Seq::<CFnDecl>::empty());
            assert(fns_view(functions@) =~= Seq::<c_ast::SpecFnDecl>::empty());
            return Ok(CProgram { functions });
        }
        loop
            invariant
                self.tokens.deep_view() == t,
                self.tokens == old(self).tokens,
                t == old(self).tokens.deep_view(),
                p0 == old(self).pos,
                self.tokens@.len() < usize::MAX - 1,
                self.pos <= self.tokens@.len(),
                spec_functions(t, p0) == prepend_parsed(fns_view(functions@), spec_functions(t, self.pos as int)),
            ensures
                self.tokens == old(self).tokens,
                self.pos <= self.tokens@.len(),
                spec_functions(t, p0) == Ok::<(Seq<c_ast::SpecFnDecl>, int), SpecParseError>((fns_view(functions@), self.pos as int)),
            decreases self.tokens@.len() - self.pos,
        {
            if !self.peek_is(&Token::Keyword(Keyword::Int)) {
                assert(spec_functions(t, self.pos as int) == Ok::<(Seq<c_ast::SpecFnDecl>, int), SpecParseError>((seq![], self.pos as int)));
                assert(fns_view(functions@) + seq![] =~= fns_view(functions@));
                break;
            }
            let ghost p = self.pos as int;
            let ghost prev = functions@;
            self.advance();
            match self.parse_fn_decl() {
                Ok(f) => {
                    functions.push(f);
                    proof {
                        assert(fns_view(functions@) =~= fns_view(prev) + seq![functions@.last().view_of()]);
                        let rest = spec_functions(t, self.pos as int);
                        match rest {
                            Ok((fs, r)) => {
                                assert(fns_view(prev) + (seq![functions@.last().view_of()] + fs) =~= fns_view(functions@) + fs);
                            },
                            Err(_) => {},
                        }
                    }
                },
                Err(e) => {
                    return Err(e);
                },
            }
        }
        if self.pos < self.tokens.len() {
            Err(ParseError::LeftoverTokens)
        } else {
            assert(fns_view(functions@) + seq![] =~= fns_view(functions@));
            Ok(CProgram { functions })
        }
    }

    /// Whether the next token is `t`.
    fn peek_is(&self, t: &Token) -> (r: bool)
        ensures
            r == (tok_at(self.tokens.deep_view(), self.pos as int) == Some(t@)),
    {
        if self.pos < self.tokens.len() {
            self.tokens[self.pos].same(t)
        } else {
            false
        }
    }

    /// Whether the token after the next one is `t`.
    fn peek_next_is(&self, t: &Token) -> (r: bool)
        requires
            self.pos < usize::MAX,
        ensures
            r == (tok_at(self.tokens.deep_view(), self.pos + 1) == Some(t@)),
    {
        if self.pos + 1 < self.tokens.len() {
            self.tokens[self.pos + 1].same(t)
        } else {
            false
        }
    }

    /// A copy of the next token, if any.
    fn peek_token(&self) -> (r: Option<Token>)
        ensures
            opt_token_view(r) == tok_at(self.tokens.deep_view(), self.pos as int),
    {
        if self.pos < self.tokens.len() {
            Some(self.tokens[self.pos].copy())
        } else {
            None
        }
    }

    fn advance(&mut self)
        requires
            old(self).pos < usize::MAX,
        ensures
            final(self).tokens == old(self).tokens,
            final(self).pos == old(self).pos + 1,
    {
        self.pos = self.pos + 1;
    }

    /// The next token, if any; the position moves on by one either way.
    fn take_token(&mut self) -> (r: Option<Token>)
        requires
            old(self).pos < usize::MAX,
        ensures
            final(self).tokens == old(self).tokens,
            final(self).pos == old(self).pos + 1,
            opt_token_view(r) == tok_at(old(self).tokens.deep_view(), old(self).pos as int),
    {
        let t = self.peek_token();
        self.pos = self.pos + 1;
        t
    }

    /// Consumes the next token, which must be `expected`.
    fn expect(&mut self, expected: Token) -> (r: Result<(), ParseError>)
        requires
            old(self).pos < usize::MAX,
        ensures
            final(self).tokens == old(self).tokens,
            final(self).pos == old(self).pos + 1,
            match r {
                Ok(()) => expect_at(old(self).tokens.deep_view(), old(self).pos as int, expected@) == Ok::<int, SpecParseError>(final(self).pos as int),
                Err(e) => expect_at(old(self).tokens.deep_view(), old(self).pos as int, expected@) == Err::<int, SpecParseError>(e@),
            },
    {
        let is = self.peek_is(&expected);
        let actual = self.take_token();
        if is {
            Ok(())
        } else {
            Err(ParseError::Expected { expected, found: actual })
        }
    }

    fn parse_fn_decl(&mut self) -> (r: Result<CFnDecl, ParseError>)
        requires
            old(self).ready(),
        ensures
            final(self).tokens == old(self).tokens,
            final(self).pos <= old(self).tokens@.len() + 1,
            match r {
                Ok(v) => spec_fn_declaration(old(self).tokens.deep_view(), old(self).pos as int) == Ok::<(c_ast::SpecFnDecl, int), SpecParseError>((v.view_of(), final(self).pos as int))
                    && old(self).pos < final(self).pos <= old(self).tokens@.len(),
                Err(e) => spec_fn_declaration(old(self).tokens.deep_view(), old(self).pos as int) == Err::<(c_ast::SpecFnDecl, int), SpecParseError>(e@),
            },
        decreases old(self).tokens@.len() - old(self).pos, 9int,
    {
        let name = match self.parse_identifier() {
            Ok(n) => n,
            Err(e) => return Err(e),
        };
        if let Err(e) = self.expect(Token::OpenParenthesis) {
            return Err(e);
        }
        let params = match self.parse_params() {
            Ok(ps) => ps,
            Err(e) => return Err(e),
        };
        if let Err(e) = self.expect(Token::CloseParenthesis) {
            return Err(e);
        }
        let body = if self.peek_is(&Token::OpenBrace) {
            self.advance();
            match self.parse_block() {
                Ok(b) => Some(b),
                Err(e) => return Err(e),
            }
        } else {
            if let Err(e) = self.expect(Token::Semicolon) {
                return Err(e);
            }
            None
        };
        Ok(CFnDecl { name, params, body })
    }

    fn parse_identifier(&mut self) -> (r: Result<String, ParseError>)
        requires
            old(self).ready(),
        ensures
            final(self).tokens == old(self).tokens,
            final(self).pos == old(self).pos + 1,
            match r {
                Ok(s) => tok_at(old(self).tokens.deep_view(), old(self).pos as int) == Some(SpecToken::Identifier(s@)),
                Err(e) => e@ == (SpecParseError::ExpectedIdentifier { found: tok_at(old(self).tokens.deep_view(), old(self).pos as int) })
                    && !(tok_at(old(self).tokens.deep_view(), old(self).pos as int) matches Some(SpecToken::Identifier(_))),
            },
    {
        match self.take_token() {
            Some(Token::Identifier(s)) => Ok(s),
            other => Err(ParseError::ExpectedIdentifier { found: other }),
        }
    }

    fn parse_params(&mut self) -> (r: Result<Vec<CParam>, ParseError>)
        requires
            old(self).ready(),
        ensures
            final(self).tokens == old(self).tokens,
            final(self).pos <= old(self).tokens@.len() + 1,
            match r {
                Ok(v) => spec_params(old(self).tokens.deep_view(), old(self).pos as int) == Ok::<(Seq<c_ast::SpecParam>, int), SpecParseError>((params_view(v@), final(self).pos as int))
                    && old(self).pos < final(self).pos <= old(self).tokens@.len(),
                Err(e) => spec_params(old(self).tokens.deep_view(), old(self).pos as int) == Err::<(Seq<c_ast::SpecParam>, int), SpecParseError>(e@),
            },
    {
        if self.peek_is(&Token::Keyword(Keyword::Void)) {
            self.advance();
            let v: Vec<CParam> = Vec::new();
            assert(params_view(v@) =~= Seq::<c_ast::SpecParam>::empty());
            return Ok(v);
        }
        let ghost t = self.tokens.deep_view();
        let ghost p0 = self.pos as int;
        let mut params: Vec<CParam> = Vec::new();
        loop
            invariant
                self.tokens == old(self).tokens,
                t == old(self).tokens.deep_view(),
                p0 == old(self).pos,
                self.tokens@.len() < usize::MAX - 1,
                p0 <= self.pos <= self.tokens@.len(),
                params@.len() > 0 ==> p0 < self.pos,
                spec_params(t, p0) == prepend_parsed(params_view(params@), spec_param_list(t, self.pos as int)),
            decreases self.tokens@.len() - self.pos,
        {
            let ghost p = self.pos as int;
            let ghost prev = params@;
            if let Err(e) = self.expect(Token::Keyword(Keyword::Int)) {
                return Err(e);
            }
            match self.take_token() {
                Some(Token::Identifier(name)) => {
                    let prm = CParam { keyword: Keyword::Int, name: Some(name), id: None };
                    params.push(prm);
                    assert(params_view(params@) =~= params_view(prev).push(params@.last().view_of()));
                    if self.peek_is(&Token::CloseParenthesis) {
                        assert(params_view(prev) + seq![params@.last().view_of()] =~= params_view(params@));
                        return Ok(params);
                    }
                    match self.expect(Token::Comma) {
                        Ok(()) => {
                            proof {
                                match spec_param_list(t, self.pos as int) {
                                    Ok((rest, s)) => {
                                        assert(params_view(prev) + (seq![params@.last().view_of()] + rest) =~= params_view(params@) + rest);
                                    },
                                    Err(_) => {},
                                }
                            }
                        },
                        Err(e) => return Err(e),
                    }
                },
                _ => return Err(ParseError::MissingParameterName),
            }
        }
    }

    fn parse_block(&mut self) -> (r: Result<CBlock, ParseError>)
        requires
            old(self).ready(),
        ensures
            final(self).tokens == old(self).tokens,
            final(self).pos <= old(self).tokens@.len() + 1,
            match r {
                Ok(v) => spec_block(old(self).tokens.deep_view(), old(self).pos as int) == Ok::<(Seq<c_ast::SpecBlockItem>, int), SpecParseError>((v@, final(self).pos as int))
                    && old(self).pos < final(self).pos <= old(self).tokens@.len(),
                Err(e) => spec_block(old(self).tokens.deep_view(), old(self).pos as int) == Err::<(Seq<c_ast::SpecBlockItem>, int), SpecParseError>(e@),
            },
        decreases old(self).tokens@.len() - old(self).pos, 6int,
    {
        let ghost t = self.tokens.deep_view();
        let ghost p0 = self.pos as int;
        let mut body: Vec<CBlockItem> = Vec::new();
        loop
            invariant
                self.tokens == old(self).tokens,
                t == old(self).tokens.deep_view(),
                p0 == old(self).pos,
                self.tokens@.len() < usize::MAX - 1,
                p0 <= self.pos <= self.tokens@.len(),
                spec_block(t, p0) == prepend_parsed(items_view(body@), spec_block(t, self.pos as int)),
            ensures
                self.tokens == old(self).tokens,
                p0 <= self.pos <= self.tokens@.len(),
                spec_block(t, p0) == prepend_parsed(items_view(body@), spec_block(t, self.pos as int)),
                spec_block(t, self.pos as int) == match expect_at(t, self.pos as int, SpecToken::CloseBrace) {
                    Ok(q) => Ok::<(Seq<c_ast::SpecBlockItem>, int), SpecParseError>((seq![], q)),
                    Err(x) => Err(x),
                },
            decreases self.tokens@.len() - self.pos,
        {
            if self.pos >= self.tokens.len() || self.peek_is(&Token::CloseBrace) {
                assert(spec_block(t, self.pos as int) == match expect_at(t, self.pos as int, SpecToken::CloseBrace) {
                    Ok(q) => Ok::<(Seq<c_ast::SpecBlockItem>, int), SpecParseError>((seq![], q)),
                    Err(x) => Err(x),
                });
                break;
            }
            let ghost prev = body@;
            match self.parse_block_item() {
                Ok(item) => {
                    body.push(item);
                    proof {
                        assert(items_view(body@) =~= items_view(prev) + seq![body@.last().view_of()]);
                        match spec_block(t, self.pos as int) {
                            Ok((rest, r)) => {
                                assert(items_view(prev) + (seq![body@.last().view_of()] + rest) =~= items_view(body@) + rest);
                            },
                            Err(_) => {},
                        }
                    }
                },
                Err(e) => return Err(e),
            }
        }
        match self.expect(Token::CloseBrace) {
            Ok(()) => {
                assert(items_view(body@) + seq![] =~= items_view(body@));
                Ok(CBlock(body))
            },
            Err(e) => Err(e),
        }
    }

    fn parse_block_item(&mut self) -> (r: Result<CBlockItem, ParseError>)
        requires
            old(self).ready(),
        ensures
            final(self).tokens == old(self).tokens,
            final(self).pos <= old(self).tokens@.len() + 1,
            match r {
                Ok(v) => spec_block_item(old(self).tokens.deep_view(), old(self).pos as int) == Ok::<(c_ast::SpecBlockItem, int), SpecParseError>((v.view_of(), final(self).pos as int))
                    && old(self).pos < final(self).pos <= old(self).tokens@.len(),
                Err(e) => spec_block_item(old(self).tokens.deep_view(), old(self).pos as int) == Err::<(c_ast::SpecBlockItem, int), SpecParseError>(e@),
            },
        decreases old(self).tokens@.len() - old(self).pos, 5int,
    {
        if self.peek_is(&Token::Keyword(Keyword::Int)) {
            match self.parse_declaration() {
                Ok(d) => Ok(CBlockItem::Declaration(d)),
                Err(e) => Err(e),
            }
        } else {
            match self.parse_statement() {
                Ok(s) => Ok(CBlockItem::Statement(s)),
                Err(e) => Err(e),
            }
        }
    }

    fn parse_declaration(&mut self) -> (r: Result<CDeclaration, ParseError>)
        requires
            old(self).ready(),
        ensures
            final(self).tokens == old(self).tokens,
            final(self).pos <= old(self).tokens@.len() + 1,
            match r {
                Ok(v) => spec_declaration(old(self).tokens.deep_view(), old(self).pos as int) == Ok::<(c_ast::SpecDeclaration, int), SpecParseError>((v.view_of(), final(self).pos as int))
                    && old(self).pos < final(self).pos <= old(self).tokens@.len(),
                Err(e) => spec_declaration(old(self).tokens.deep_view(), old(self).pos as int) == Err::<(c_ast::SpecDeclaration, int), SpecParseError>(e@),
            },
        decreases old(self).tokens@.len() - old(self).pos, 4int,
    {
        if let Err(e) = self.expect(Token::Keyword(Keyword::Int)) {
            return Err(e);
        }
        if self.peek_next_is(&Token::OpenParenthesis) {
            match self.parse_fn_decl() {
                Ok(f) => Ok(CDeclaration::FnDecl(f)),
                Err(e) => Err(e),
            }
        } else {
            match self.parse_var_declaration() {
                Ok(v) => Ok(CDeclaration::VarDecl(v)),
                Err(e) => Err(e),
            }
        }
    }

    fn parse_var_declaration(&mut self) -> (r: Result<CVarDecl, ParseError>)
        requires
            old(self).ready(),
        ensures
            final(self).tokens == old(self).tokens,
            final(self).pos <= old(self).tokens@.len() + 1,
            match r {
                Ok(v) => spec_var_declaration(old(self).tokens.deep_view(), old(self).pos as int) == Ok::<(c_ast::SpecVarDecl, int), SpecParseError>((v.view_of(), final(self).pos as int))
                    && old(self).pos < final(self).pos <= old(self).tokens@.len(),
                Err(e) => spec_var_declaration(old(self).tokens.deep_view(), old(self).pos as int) == Err::<(c_ast::SpecVarDecl, int), SpecParseError>(e@),
            },
        decreases old(self).tokens@.len() - old(self).pos, 3int,
    {
        match self.parse_factor() {
            Ok(CFactor::Var(var)) => {
                let init = if self.peek_is(&Token::Operator(Operator::Assign)) {
                    self.advance();
                    match self.parse_expression(0) {
                        Ok(e) => Some(e),
                        Err(e) => return Err(e),
                    }
                } else {
                    None
                };
                match self.expect(Token::Semicolon) {
                    Ok(()) => Ok(CVarDecl { var, init }),
                    Err(e) => Err(e),
                }
            },
            Ok(other) => Err(ParseError::InvalidVariableName { found: Ok(other) }),
            Err(ParseError::DecrementUnsupported) => Err(ParseError::DecrementUnsupported),
            Err(e) => Err(ParseError::InvalidVariableName { found: Err(Box::new(e)) }),
        }
    }

    fn parse_statement(&mut self) -> (r: Result<CStatement, ParseError>)
        requires
            old(self).ready(),
        ensures
            final(self).tokens == old(self).tokens,
            final(self).pos <= old(self).tokens@.len() + 1,
            match r {
                Ok(v) => spec_statement(old(self).tokens.deep_view(), old(self).pos as int) == Ok::<(c_ast::SpecStatement, int), SpecParseError>((v.view_of(), final(self).pos as int))
                    && old(self).pos < final(self).pos <= old(self).tokens@.len(),
                Err(e) => spec_statement(old(self).tokens.deep_view(), old(self).pos as int) == Err::<(c_ast::SpecStatement, int), SpecParseError>(e@),
            },
        decreases old(self).tokens@.len() - old(self).pos, 4int,
    {
        if self.peek_is(&Token::Keyword(Keyword::Return)) {
            self.advance();
            self.parse_return_rest()
        } else if self.peek_is(&Token::Keyword(Keyword::If)) {
            self.advance();
            self.parse_if_rest()
        } else if self.peek_is(&Token::Keyword(Keyword::Break)) {
            self.advance();
            match self.expect(Token::Semicolon) {
                Ok(()) => Ok(CStatement::Break(None)),
                Err(e) => Err(e),
            }
        } else if self.peek_is(&Token::Keyword(Keyword::Continue)) {
            self.advance();
            match self.expect(Token::Semicolon) {
                Ok(()) => Ok(CStatement::Continue(None)),
                Err(e) => Err(e),
            }
        } else if self.peek_is(&Token::Keyword(Keyword::While)) {
            self.advance();
            self.parse_while_rest()
        } else if self.peek_is(&Token::Keyword(Keyword::Do)) {
            self.advance();
            self.parse_do_rest()
        } else if self.peek_is(&Token::Keyword(Keyword::For)) {
            self.advance();
            self.parse_for_rest()
        } else if self.peek_is(&Token::OpenBrace) {
            self.advance();
            match self.parse_block() {
                Ok(b) => Ok(CStatement::Compound(b)),
                Err(e) => Err(e),
            }
        } else if self.peek_is(&Token::Semicolon) {
            self.advance();
            Ok(CStatement::Null)
        } else {
            let expression = match self.parse_expression(0) {
                Ok(e) => e,
                Err(e) => return Err(e),
            };
            match self.expect(Token::Semicolon) {
                Ok(()) => Ok(CStatement::Expression(expression)),
                Err(e) => Err(e),
            }
        }
    }

    fn parse_return_rest(&mut self) -> (r: Result<CStatement, ParseError>)
        requires
            old(self).ready(),
        ensures
            final(self).tokens == old(self).tokens,
            final(self).pos <= old(self).tokens@.len() + 1,
            match r {
                Ok(v) => spec_return_rest(old(self).tokens.deep_view(), old(self).pos as int) == Ok::<(c_ast::SpecStatement, int), SpecParseError>((v.view_of(), final(self).pos as int))
                    && old(self).pos < final(self).pos <= old(self).tokens@.len(),
                Err(e) => spec_return_rest(old(self).tokens.deep_view(), old(self).pos as int) == Err::<(c_ast::SpecStatement, int), SpecParseError>(e@),
            },
        decreases old(self).tokens@.len() - old(self).pos, 5int,
    {
        let expression = match self.parse_expression(0) {
            Ok(e) => e,
            Err(e) => return Err(e),
        };
        match self.expect(Token::Semicolon) {
            Ok(()) => Ok(CStatement::Return(expression)),
            Err(e) => Err(e),
        }
    }

    fn parse_if_rest(&mut self) -> (r: Result<CStatement, ParseError>)
        requires
            old(self).ready(),
        ensures
            final(self).tokens == old(self).tokens,
            final(self).pos <= old(self).tokens@.len() + 1,
            match r {
                Ok(v) => spec_if_rest(old(self).tokens.deep_view(), old(self).pos as int) == Ok::<(c_ast::SpecStatement, int), SpecParseError>((v.view_of(), final(self).pos as int))
                    && old(self).pos < final(self).pos <= old(self).tokens@.len(),
                Err(e) => spec_if_rest(old(self).tokens.deep_view(), old(self).pos as int) == Err::<(c_ast::SpecStatement, int), SpecParseError>(e@),
            },
        decreases old(self).tokens@.len() - old(self).pos, 5int,
    {
        if let Err(e) = self.expect(Token::OpenParenthesis) {
            return Err(e);
        }
        let cond = match self.parse_expression(0) {
            Ok(e) => e,
            Err(e) => return Err(e),
        };
        if let Err(e) = self.expect(Token::CloseParenthesis) {
            return Err(e);
        }
        let then = match self.parse_statement() {
            Ok(s) => s,
            Err(e) => return Err(e),
        };
        if self.peek_is(&Token::Keyword(Keyword::Else)) {
            self.advance();
            match self.parse_statement() {
                Ok(s) => Ok(CStatement::If { cond, then: Box::new(then), else_: Some(Box::new(s)) }),
                Err(e) => Err(e),
            }
        } else {
            Ok(CStatement::If { cond, then: Box::new(then), else_: None })
        }
    }

    fn parse_while_rest(&mut self) -> (r: Result<CStatement, ParseError>)
        requires
            old(self).ready(),
        ensures
            final(self).tokens == old(self).tokens,
            final(self).pos <= old(self).tokens@.len() + 1,
            match r {
                Ok(v) => spec_while_rest(old(self).tokens.deep_view(), old(self).pos as int) == Ok::<(c_ast::SpecStatement, int), SpecParseError>((v.view_of(), final(self).pos as int))
                    && old(self).pos < final(self).pos <= old(self).tokens@.len(),
                Err(e) => spec_while_rest(old(self).tokens.deep_view(), old(self).pos as int) == Err::<(c_ast::SpecStatement, int), SpecParseError>(e@),
            },
        decreases old(self).tokens@.len() - old(self).pos, 5int,
    {
        if let Err(e) = self.expect(Token::OpenParenthesis) {
            return Err(e);
        }
        let cond = match self.parse_expression(0) {
            Ok(e) => e,
            Err(e) => return Err(e),
        };
        if let Err(e) = self.expect(Token::CloseParenthesis) {
            return Err(e);
        }
        match self.parse_statement() {
            Ok(body) => Ok(CStatement::While { cond, body: Box::new(body), label: None }),
            Err(e) => Err(e),
        }
    }

    fn parse_do_rest(&mut self) -> (r: Result<CStatement, ParseError>)
        requires
            old(self).ready(),
        ensures
            final(self).tokens == old(self).tokens,
            final(self).pos <= old(self).tokens@.len() + 1,
            match r {
                Ok(v) => spec_do_rest(old(self).tokens.deep_view(), old(self).pos as int) == Ok::<(c_ast::SpecStatement, int), SpecParseError>((v.view_of(), final(self).pos as int))
                    && old(self).pos < final(self).pos <= old(self).tokens@.len(),
                Err(e) => spec_do_rest(old(self).tokens.deep_view(), old(self).pos as int) == Err::<(c_ast::SpecStatement, int), SpecParseError>(e@),
            },
        decreases old(self).tokens@.len() - old(self).pos, 5int,
    {
        let body = match self.parse_statement() {
            Ok(s) => s,
            Err(e) => return Err(e),
        };
        if let Err(e) = self.expect(Token::Keyword(Keyword::While)) {
            return Err(e);
        }
        if let Err(e) = self.expect(Token::OpenParenthesis) {
            return Err(e);
        }
        let cond = match self.parse_expression(0) {
            Ok(e) => e,
            Err(e) => return Err(e),
        };
        if let Err(e) = self.expect(Token::CloseParenthesis) {
            return Err(e);
        }
        match self.expect(Token::Semicolon) {
            Ok(()) => Ok(CStatement::DoWhile { body: Box::new(body), cond, label: None }),
            Err(e) => Err(e),
        }
    }

    fn parse_for_init(&mut self) -> (r: Result<CForInit, ParseError>)
        requires
            old(self).ready(),
        ensures
            final(self).tokens == old(self).tokens,
            final(self).pos <= old(self).tokens@.len() + 1,
            match r {
                Ok(v) => spec_for_init(old(self).tokens.deep_view(), old(self).pos as int) == Ok::<(c_ast::SpecForInit, int), SpecParseError>((v.view_of(), final(self).pos as int))
                    && old(self).pos < final(self).pos <= old(self).tokens@.len(),
                Err(e) => spec_for_init(old(self).tokens.deep_view(), old(self).pos as int) == Err::<(c_ast::SpecForInit, int), SpecParseError>(e@),
            },
        decreases old(self).tokens@.len() - old(self).pos, 5int,
    {
        if self.peek_is(&Token::Keyword(Keyword::Int)) {
            self.advance();
            match self.parse_var_declaration() {
                Ok(d) => Ok(CForInit::InitDecl(d)),
                Err(e) => Err(e),
            }
        } else {
            match self.parse_optional_expression(Token::Semicolon) {
                Ok(e) => Ok(CForInit::InitExp(e)),
                Err(e) => Err(e),
            }
        }
    }

    fn parse_for_rest(&mut self) -> (r: Result<CStatement, ParseError>)
        requires
            old(self).ready(),
        ensures
            final(self).tokens == old(self).tokens,
            final(self).pos <= old(self).tokens@.len() + 1,
            match r {
                Ok(v) => spec_for_rest(old(self).tokens.deep_view(), old(self).pos as int) == Ok::<(c_ast::SpecStatement, int), SpecParseError>((v.view_of(), final(self).pos as int))
                    && old(self).pos < final(self).pos <= old(self).tokens@.len(),
                Err(e) => spec_for_rest(old(self).tokens.deep_view(), old(self).pos as int) == Err::<(c_ast::SpecStatement, int), SpecParseError>(e@),
            },
        decreases old(self).tokens@.len() - old(self).pos, 5int,
    {
        if let Err(e) = self.expect(Token::OpenParenthesis) {
            return Err(e);
        }
        let init = match self.parse_for_init() {
            Ok(i) => i,
            Err(e) => return Err(e),
        };
        let cond = match self.parse_optional_expression(Token::Semicolon) {
            Ok(c) => c,
            Err(e) => return Err(e),
        };
        let post = match self.parse_optional_expression(Token::CloseParenthesis) {
            Ok(p) => p,
            Err(e) => return Err(e),
        };
        match self.parse_statement() {
            Ok(body) => Ok(CStatement::For { init, cond, post, body: Box::new(body), label: None }),
            Err(e) => Err(e),
        }
    }

    fn parse_expression(&mut self, min_precedence: u32) -> (r: Result<CExpression, ParseError>)
        requires
            old(self).ready(),
        ensures
            final(self).tokens == old(self).tokens,
            final(self).pos <= old(self).tokens@.len() + 1,
            match r {
                Ok(v) => spec_expression(old(self).tokens.deep_view(), old(self).pos as int, min_precedence) == Ok::<(c_ast::SpecExpression, int), SpecParseError>((v.view_of(), final(self).pos as int))
                    && old(self).pos < final(self).pos <= old(self).tokens@.len(),
                Err(e) => spec_expression(old(self).tokens.deep_view(), old(self).pos as int, min_precedence) == Err::<(c_ast::SpecExpression, int), SpecParseError>(e@),
            },
        decreases old(self).tokens@.len() - old(self).pos, 2int,
    {
        let ghost t = self.tokens.deep_view();
        let ghost p0 = self.pos as int;
        let first = match self.parse_factor() {
            Ok(f) => f,
            Err(e) => return Err(e),
        };
        let mut left = CExpression::Factor(Box::new(first));
        loop
            invariant
                self.tokens == old(self).tokens,
                t == old(self).tokens.deep_view(),
                p0 == old(self).pos,
                self.tokens@.len() < usize::MAX - 1,
                p0 < self.pos <= self.tokens@.len(),
                spec_expression(t, p0, min_precedence) == spec_expression_rest(t, left.view_of(), self.pos as int, min_precedence),
            ensures
                self.tokens == old(self).tokens,
                p0 < self.pos <= self.tokens@.len(),
                spec_expression(t, p0, min_precedence) == Ok::<(c_ast::SpecExpression, int), SpecParseError>((left.view_of(), self.pos as int)),
            decreases self.tokens@.len() - self.pos,
        {
            let op = match self.peek_operator() {
                Some(op) => op,
                None => {
                    assert(spec_expression_rest(t, left.view_of(), self.pos as int, min_precedence)
                        == Ok::<(c_ast::SpecExpression, int), SpecParseError>((left.view_of(), self.pos as int)));
                    break;
                },
            };
            if !(op.is_binary() && op.precedence() >= min_precedence) {
                assert(spec_expression_rest(t, left.view_of(), self.pos as int, min_precedence)
                    == Ok::<(c_ast::SpecExpression, int), SpecParseError>((left.view_of(), self.pos as int)));
                break;
            }
            let binop = op.to_binop().unwrap();
            self.advance();
            match binop {
                BinaryOp::Assign => {
                    let right = match self.parse_expression(binop.precedence()) {
                        Ok(e) => e,
                        Err(e) => return Err(e),
                    };
                    left = CExpression::Assign(Box::new(left), Box::new(right));
                },
                BinaryOp::Conditional => {
                    let middle = match self.parse_expression(0) {
                        Ok(e) => e,
                        Err(e) => return Err(e),
                    };
                    if let Err(e) = self.expect(Token::Colon) {
                        return Err(e);
                    }
                    let right = match self.parse_expression(binop.precedence()) {
                        Ok(e) => e,
                        Err(e) => return Err(e),
                    };
                    left = CExpression::Conditional {
                        cond: Box::new(left),
                        then: Box::new(middle),
                        else_: Box::new(right),
                    };
                },
                _ => {
                    let right = match self.parse_expression(binop.precedence() + 1) {
                        Ok(e) => e,
                        Err(e) => return Err(e),
                    };
                    left = CExpression::Binary(binop, Box::new(left), Box::new(right));
                },
            }
        }
        Ok(left)
    }

    /// The next token, when it is an operator.
    fn peek_operator(&self) -> (r: Option<Operator>)
        ensures
            match tok_at(self.tokens.deep_view(), self.pos as int) {
                Some(SpecToken::Operator(op)) => r == Some(op),
                _ => r is None,
            },
    {
        if self.pos < self.tokens.len() {
            match &self.tokens[self.pos] {
                Token::Operator(op) => Some(*op),
                _ => None,
            }
        } else {
            None
        }
    }

    fn parse_optional_expression(&mut self, end_token: Token) -> (r: Result<Option<CExpression>, ParseError>)
        requires
            old(self).ready(),
        ensures
            final(self).tokens == old(self).tokens,
            final(self).pos <= old(self).tokens@.len() + 1,
            match r {
                Ok(v) => spec_optional_expression(old(self).tokens.deep_view(), old(self).pos as int, end_token@) == Ok::<(Option<c_ast::SpecExpression>, int), SpecParseError>((opt_expr_view(v), final(self).pos as int))
                    && old(self).pos < final(self).pos <= old(self).tokens@.len(),
                Err(e) => spec_optional_expression(old(self).tokens.deep_view(), old(self).pos as int, end_token@) == Err::<(Option<c_ast::SpecExpression>, int), SpecParseError>(e@),
            },
        decreases old(self).tokens@.len() - old(self).pos, 3int,
    {
        let curr_pos = self.pos;
        let exp = match self.parse_expression(0) {
            Ok(exp) => Some(exp),
            Err(ParseError::DecrementUnsupported) => return Err(ParseError::DecrementUnsupported),
            Err(_) => {
                self.pos = curr_pos;
                None
            },
        };
        match self.expect(end_token) {
            Ok(()) => Ok(exp),
            Err(e) => Err(e),
        }
    }

    fn parse_factor(&mut self) -> (r: Result<CFactor, ParseError>)
        requires
            old(self).ready(),
        ensures
            final(self).tokens == old(self).tokens,
            final(self).pos <= old(self).tokens@.len() + 1,
            match r {
                Ok(v) => spec_factor(old(self).tokens.deep_view(), old(self).pos as int) == Ok::<(c_ast::SpecFactor, int), SpecParseError>((v.view_of(), final(self).pos as int))
                    && old(self).pos < final(self).pos <= old(self).tokens@.len(),
                Err(e) => spec_factor(old(self).tokens.deep_view(), old(self).pos as int) == Err::<(c_ast::SpecFactor, int), SpecParseError>(e@),
            },
        decreases old(self).tokens@.len() - old(self).pos, 1int,
    {
        match self.take_token() {
            Some(Token::Constant(i)) => Ok(CFactor::Constant(i)),
            Some(Token::Operator(op)) => {
                if op == Operator::Decrement {
                    Err(ParseError::DecrementUnsupported)
                } else if op.is_unary() {
                    match self.parse_factor() {
                        Ok(f) => Ok(CFactor::Unary(op.to_unop().unwrap(), Box::new(f))),
                        Err(e) => Err(e),
                    }
                } else {
                    Err(ParseError::ExpectedExpression { found: Some(Token::Operator(op)) })
                }
            },
            Some(Token::OpenParenthesis) => {
                let inner_exp = match self.parse_expression(0) {
                    Ok(e) => e,
                    Err(e) => return Err(e),
                };
                match self.expect(Token::CloseParenthesis) {
                    Ok(()) => Ok(CFactor::Expression(inner_exp)),
                    Err(e) => Err(e),
                }
            },
            Some(Token::Identifier(name)) => self.parse_var_or_fn_call(name),
            other => Err(ParseError::ExpectedExpression { found: other }),
        }
    }

    fn parse_var_or_fn_call(&mut self, name: String) -> (r: Result<CFactor, ParseError>)
        requires
            old(self).ready(),
        ensures
            final(self).tokens == old(self).tokens,
            final(self).pos <= old(self).tokens@.len() + 1,
            match r {
                Ok(v) => spec_var_or_call(old(self).tokens.deep_view(), old(self).pos as int, name@) == Ok::<(c_ast::SpecFactor, int), SpecParseError>((v.view_of(), final(self).pos as int))
                    && old(self).pos <= final(self).pos <= old(self).tokens@.len(),
                Err(e) => spec_var_or_call(old(self).tokens.deep_view(), old(self).pos as int, name@) == Err::<(c_ast::SpecFactor, int), SpecParseError>(e@),
            },
        decreases old(self).tokens@.len() - old(self).pos, 0int,
    {
        if self.peek_is(&Token::OpenParenthesis) {
            self.advance();
            let curr_pos = self.pos;
            let args = match self.parse_args() {
                Ok(args) => args,
                Err(ParseError::DecrementUnsupported) => return Err(ParseError::DecrementUnsupported),
                Err(_) => {
                    self.pos = curr_pos;
                    let v: Vec<CExpression> = Vec::new();
                    assert(exprs_view(v@) =~= Seq::<c_ast::SpecExpression>::empty());
                    v
                },
            };
            match self.expect(Token::CloseParenthesis) {
                Ok(()) => Ok(CFactor::FunctionCall(name, args)),
                Err(e) => Err(e),
            }
        } else {
            Ok(CFactor::Var(CVar { name, id: None }))
        }
    }

    fn parse_args(&mut self) -> (r: Result<Vec<CExpression>, ParseError>)
        requires
            old(self).ready(),
        ensures
            final(self).tokens == old(self).tokens,
            final(self).pos <= old(self).tokens@.len() + 1,
            match r {
                Ok(v) => spec_args(old(self).tokens.deep_view(), old(self).pos as int) == Ok::<(Seq<c_ast::SpecExpression>, int), SpecParseError>((exprs_view(v@), final(self).pos as int))
                    && old(self).pos < final(self).pos <= old(self).tokens@.len(),
                Err(e) => spec_args(old(self).tokens.deep_view(), old(self).pos as int) == Err::<(Seq<c_ast::SpecExpression>, int), SpecParseError>(e@),
            },
        decreases old(self).tokens@.len() - old(self).pos, 3int,
    {
        let ghost t = self.tokens.deep_view();
        let ghost p0 = self.pos as int;
        let mut args: Vec<CExpression> = Vec::new();
        loop
            invariant
                self.tokens == old(self).tokens,
                t == old(self).tokens.deep_view(),
                p0 == old(self).pos,
                self.tokens@.len() < usize::MAX - 1,
                p0 <= self.pos <= self.tokens@.len(),
                args@.len() > 0 ==> p0 < self.pos,
                spec_args(t, p0) == prepend_parsed(exprs_view(args@), spec_args(t, self.pos as int)),
            decreases self.tokens@.len() - self.pos,
        {
            let ghost prev = args@;
            match self.parse_expression(0) {
                Ok(e) => args.push(e),
                Err(e) => return Err(e),
            }
            assert(exprs_view(args@) =~= exprs_view(prev) + seq![args@.last().view_of()]);
            if self.peek_is(&Token::CloseParenthesis) {
                return Ok(args);
            }
            match self.expect(Token::Comma) {
                Ok(()) => {
                    proof {
                        match spec_args(t, self.pos as int) {
                            Ok((rest, s)) => {
                                assert(exprs_view(prev) + (seq![args@.last().view_of()] + rest) =~= exprs_view(args@) + rest);
                            },
                            Err(_) => {},
                        }
                    }
                },
                Err(e) => return Err(e),
            }
        }
    }
}

} // verus!
