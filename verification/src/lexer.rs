use vstd::prelude::*;

use crate::common::{keyword_of, Keyword, Operator};
use crate::errors::{locates, CompilerError, ErrorKind};
use crate::text::{all_ascii, ascii_text, text_from_bytes};

verus! {

/// A lexical unit of the source text.
#[derive(Debug, PartialEq)]
pub enum Token {
    Identifier(String),
    Constant(i32),
    Keyword(Keyword),
    Operator(Operator),
    OpenParenthesis,
    CloseParenthesis,
    OpenBrace,
    CloseBrace,
    Semicolon,
    Comma,
    Colon,
    Eof,
}

/// [`Token`] with the identifier's text as a sequence of characters.
pub enum SpecToken {
    Identifier(Seq<char>),
    Constant(i32),
    Keyword(Keyword),
    Operator(Operator),
    OpenParenthesis,
    CloseParenthesis,
    OpenBrace,
    CloseBrace,
    Semicolon,
    Comma,
    Colon,
    Eof,
}

impl View for Token {
    type V = SpecToken;

    open spec fn view(&self) -> SpecToken {
        match self {
            Token::Identifier(s) => SpecToken::Identifier(s@),
            Token::Constant(i) => SpecToken::Constant(*i),
            Token::Keyword(k) => SpecToken::Keyword(*k),
            Token::Operator(o) => SpecToken::Operator(*o),
            Token::OpenParenthesis => SpecToken::OpenParenthesis,
            Token::CloseParenthesis => SpecToken::CloseParenthesis,
            Token::OpenBrace => SpecToken::OpenBrace,
            Token::CloseBrace => SpecToken::CloseBrace,
            Token::Semicolon => SpecToken::Semicolon,
            Token::Comma => SpecToken::Comma,
            Token::Colon => SpecToken::Colon,
            Token::Eof => SpecToken::Eof,
        }
    }
}

impl DeepView for Token {
    type V = SpecToken;

    open spec fn deep_view(&self) -> SpecToken {
        self@
    }
}

impl Token {
    /// A copy of the token.
    pub fn copy(&self) -> (r: Token)
        ensures
            r@ == self@,
    {
        match self {
            Token::Identifier(s) => Token::Identifier(s.clone()),
            Token::Constant(i) => Token::Constant(*i),
            Token::Keyword(k) => Token::Keyword(*k),
            Token::Operator(o) => Token::Operator(*o),
            Token::OpenParenthesis => Token::OpenParenthesis,
            Token::CloseParenthesis => Token::CloseParenthesis,
            Token::OpenBrace => Token::OpenBrace,
            Token::CloseBrace => Token::CloseBrace,
            Token::Semicolon => Token::Semicolon,
            Token::Comma => Token::Comma,
            Token::Colon => Token::Colon,
            Token::Eof => Token::Eof,
        }
    }

    /// Whether the two tokens are the same.
    pub fn same(&self, other: &Token) -> (r: bool)
        ensures
            r == (self@ == other@),
    {
        match self {
            Token::Identifier(a) => match other {
                Token::Identifier(b) => a.eq(b),
                _ => false,
            },
            Token::Constant(a) => match other {
                Token::Constant(b) => *a == *b,
                _ => false,
            },
            Token::Keyword(a) => match other {
                Token::Keyword(b) => *a == *b,
                _ => false,
            },
            Token::Operator(a) => match other {
                Token::Operator(b) => *a == *b,
                _ => false,
            },
            Token::OpenParenthesis => matches!(other, Token::OpenParenthesis),
            Token::CloseParenthesis => matches!(other, Token::CloseParenthesis),
            Token::OpenBrace => matches!(other, Token::OpenBrace),
            Token::CloseBrace => matches!(other, Token::CloseBrace),
            Token::Semicolon => matches!(other, Token::Semicolon),
            Token::Comma => matches!(other, Token::Comma),
            Token::Colon => matches!(other, Token::Colon),
            Token::Eof => matches!(other, Token::Eof),
        }
    }
}

pub open spec fn is_space(b: u8) -> bool {
    b == 32 || b == 9 || b == 10 || b == 13
}

pub open spec fn is_word_start(b: u8) -> bool {
    (97 <= b <= 122) || (65 <= b <= 90) || b == 95
}

pub open spec fn is_digit(b: u8) -> bool {
    48 <= b <= 57
}

pub open spec fn is_word_char(b: u8) -> bool {
    is_word_start(b) || is_digit(b)
}

/// First index at or after `pos` that does not hold whitespace.
pub open spec fn skip_space(input: Seq<u8>, pos: int) -> int
    decreases input.len() - pos,
{
    if 0 <= pos < input.len() && is_space(input[pos]) {
        skip_space(input, pos + 1)
    } else {
        pos
    }
}

/// First index at or after `pos` that does not hold a letter, digit or underscore.
pub open spec fn word_end(input: Seq<u8>, pos: int) -> int
    decreases input.len() - pos,
{
    if 0 <= pos < input.len() && is_word_char(input[pos]) {
        word_end(input, pos + 1)
    } else {
        pos
    }
}

/// First index at or after `pos` that does not hold a digit.
pub open spec fn digits_end(input: Seq<u8>, pos: int) -> int
    decreases input.len() - pos,
{
    if 0 <= pos < input.len() && is_digit(input[pos]) {
        digits_end(input, pos + 1)
    } else {
        pos
    }
}

/// The number written by the decimal digits `d`.
pub open spec fn digits_value(d: Seq<u8>) -> nat
    decreases d.len(),
{
    if d.len() == 0 {
        0
    } else {
        digits_value(d.drop_last()) * 10 + (d.last() - 48) as nat
    }
}

proof fn lemma_skip_space_ge(input: Seq<u8>, pos: int)
    ensures
        skip_space(input, pos) >= pos,
    decreases input.len() - pos,
{
    if 0 <= pos < input.len() && is_space(input[pos]) {
        lemma_skip_space_ge(input, pos + 1);
    }
}

proof fn lemma_word_end_ge(input: Seq<u8>, pos: int)
    ensures
        word_end(input, pos) >= pos,
    decreases input.len() - pos,
{
    if 0 <= pos < input.len() && is_word_char(input[pos]) {
        lemma_word_end_ge(input, pos + 1);
    }
}

proof fn lemma_digits_end_ge(input: Seq<u8>, pos: int)
    ensures
        digits_end(input, pos) >= pos,
    decreases input.len() - pos,
{
    if 0 <= pos < input.len() && is_digit(input[pos]) {
        lemma_digits_end_ge(input, pos + 1);
    }
}

/// The token for the word `w`: a keyword or an identifier.
pub open spec fn word_token(w: Seq<u8>) -> SpecToken {
    match keyword_of(w) {
        Some(k) => SpecToken::Keyword(k),
        None => SpecToken::Identifier(ascii_text(w)),
    }
}

/// One step of the lexer.
pub enum LexStep {
    /// A token, and the index just past it.
    Token(SpecToken, int),
    /// A malformed input at the given index.
    Error(ErrorKind, int),
    /// An input the lexer does not handle (a lone `&` or `|`, the bitwise
    /// operators being unsupported, or a constant beyond `i32`), at the given index.
    Unfinished(int),
}

pub open spec fn byte_is(input: Seq<u8>, i: int, c: char) -> bool {
    0 <= i < input.len() && input[i] == c as u8
}

pub open spec fn one_or_two(input: Seq<u8>, s: int, second: char, two: Operator, one: Operator) -> LexStep {
    if byte_is(input, s + 1, second) {
        LexStep::Token(SpecToken::Operator(two), s + 2)
    } else {
        LexStep::Token(SpecToken::Operator(one), s + 1)
    }
}

pub open spec fn two_or_unfinished(input: Seq<u8>, s: int, second: char, two: Operator) -> LexStep {
    if byte_is(input, s + 1, second) {
        LexStep::Token(SpecToken::Operator(two), s + 2)
    } else {
        LexStep::Unfinished(s)
    }
}

/// The token that starts at index `s`, which holds no whitespace.
pub open spec fn scan_at(input: Seq<u8>, s: int) -> LexStep {
    if s < 0 || s >= input.len() {
        LexStep::Token(SpecToken::Eof, s)
    } else {
        let b = input[s];
        if is_word_start(b) {
            let e = word_end(input, s);
            LexStep::Token(word_token(input.subrange(s, e)), e)
        } else if is_digit(b) {
            let e = digits_end(input, s);
            if e < input.len() && is_word_start(input[e]) {
                LexStep::Error(ErrorKind::InvalidIntSuffix, e)
            } else if digits_value(input.subrange(s, e)) > i32::MAX {
                LexStep::Unfinished(s)
            } else {
                LexStep::Token(SpecToken::Constant(digits_value(input.subrange(s, e)) as i32), e)
            }
        } else if b == '+' as u8 {
            LexStep::Token(SpecToken::Operator(Operator::Plus), s + 1)
        } else if b == '-' as u8 {
            one_or_two(input, s, '-', Operator::Decrement, Operator::Minus)
        } else if b == '*' as u8 {
            LexStep::Token(SpecToken::Operator(Operator::Mul), s + 1)
        } else if b == '/' as u8 {
            LexStep::Token(SpecToken::Operator(Operator::Div), s + 1)
        } else if b == '%' as u8 {
            LexStep::Token(SpecToken::Operator(Operator::Mod), s + 1)
        } else if b == '~' as u8 {
            LexStep::Token(SpecToken::Operator(Operator::BitwiseNot), s + 1)
        } else if b == '!' as u8 {
            one_or_two(input, s, '=', Operator::Neq, Operator::LogicalNot)
        } else if b == '&' as u8 {
            two_or_unfinished(input, s, '&', Operator::LogicalAnd)
        } else if b == '|' as u8 {
            two_or_unfinished(input, s, '|', Operator::LogicalOr)
        } else if b == '=' as u8 {
            one_or_two(input, s, '=', Operator::Eq, Operator::Assign)
        } else if b == '<' as u8 {
            one_or_two(input, s, '=', Operator::Leq, Operator::Less)
        } else if b == '>' as u8 {
            one_or_two(input, s, '=', Operator::Geq, Operator::Greater)
        } else if b == '(' as u8 {
            LexStep::Token(SpecToken::OpenParenthesis, s + 1)
        } else if b == ')' as u8 {
            LexStep::Token(SpecToken::CloseParenthesis, s + 1)
        } else if b == '{' as u8 {
            LexStep::Token(SpecToken::OpenBrace, s + 1)
        } else if b == '}' as u8 {
            LexStep::Token(SpecToken::CloseBrace, s + 1)
        } else if b == ';' as u8 {
            LexStep::Token(SpecToken::Semicolon, s + 1)
        } else if b == ',' as u8 {
            LexStep::Token(SpecToken::Comma, s + 1)
        } else if b == '?' as u8 {
            LexStep::Token(SpecToken::Operator(Operator::Conditional), s + 1)
        } else if b == ':' as u8 {
            LexStep::Token(SpecToken::Colon, s + 1)
        } else {
            LexStep::Error(ErrorKind::InvalidCharacter(b), s)
        }
    }
}

/// The lexer's step from index `pos`: skip whitespace, then scan one token.
pub open spec fn next_step(input: Seq<u8>, pos: int) -> LexStep {
    scan_at(input, skip_space(input, pos))
}

/// The outcome of lexing a whole input.
pub enum LexOutcome {
    Tokens(Seq<SpecToken>),
    Error(ErrorKind, int),
    Unfinished(int),
}

/// Lexes from index `pos` up to the end of the input; the end token is not listed.
pub open spec fn lex_from(input: Seq<u8>, pos: int) -> LexOutcome
    decreases input.len() - pos,
{
    match next_step(input, pos) {
        LexStep::Token(SpecToken::Eof, _) => LexOutcome::Tokens(seq![]),
        LexStep::Token(t, p) => {
            if pos < p <= input.len() {
                match lex_from(input, p) {
                    LexOutcome::Tokens(ts) => LexOutcome::Tokens(seq![t] + ts),
                    other => other,
                }
            } else {
                LexOutcome::Unfinished(pos)
            }
        },
        LexStep::Error(k, p) => LexOutcome::Error(k, p),
        LexStep::Unfinished(p) => LexOutcome::Unfinished(p),
    }
}

/// The end token never appears among the tokens that lexing lists.
pub proof fn lemma_lexed_tokens_have_no_eof(input: Seq<u8>, pos: int)
    ensures
        lex_from(input, pos) matches LexOutcome::Tokens(ts) ==> forall|i: int| 0 <= i < ts.len() ==> ts[i] != SpecToken::Eof,
    decreases input.len() - pos,
{
    match next_step(input, pos) {
        LexStep::Token(SpecToken::Eof, _) => {},
        LexStep::Token(t, p) => {
            if pos < p <= input.len() {
                lemma_lexed_tokens_have_no_eof(input, p);
                if let LexOutcome::Tokens(rest) = lex_from(input, p) {
                    let ts = seq![t] + rest;
                    assert forall|i: int| 0 <= i < ts.len() implies ts[i] != SpecToken::Eof by {
                        if i > 0 {
                            assert(ts[i] == rest[i - 1]);
                        }
                    }
                }
            }
        },
        _ => {},
    }
}

pub open spec fn prepend(ts: Seq<SpecToken>, o: LexOutcome) -> LexOutcome {
    match o {
        LexOutcome::Tokens(rest) => LexOutcome::Tokens(ts + rest),
        other => other,
    }
}

/// Why lexing stopped.
#[derive(Debug)]
pub enum LexFailure {
    /// A malformed input.
    Error(CompilerError),
    /// An input the lexer does not handle yet, at the given index.
    Unfinished(usize),
}

/// `r` is what lexing `input` (the contents of `file`) from `pos` gives.
pub open spec fn lexes_to(r: Result<Vec<Token>, LexFailure>, input: Seq<u8>, file: Seq<char>, pos: int) -> bool {
    match r {
        Ok(ts) => lex_from(input, pos) == LexOutcome::Tokens(ts.deep_view()),
        Err(LexFailure::Error(e)) => match lex_from(input, pos) {
            LexOutcome::Error(k, p) => e.kind == k && e.filename@ == file && locates(e, input, p),
            _ => false,
        },
        Err(LexFailure::Unfinished(p)) => lex_from(input, pos) == LexOutcome::Unfinished(p as int),
    }
}

/// Turns the bytes of a source file into tokens.
pub struct Lexer<'a> {
    input: &'a [u8],
    filename: String,
    pos: usize,
}

impl<'a> Lexer<'a> {
    pub closed spec fn input_bytes(&self) -> Seq<u8> {
        self.input@
    }

    pub closed spec fn file_name(&self) -> Seq<char> {
        self.filename@
    }

    pub closed spec fn position(&self) -> int {
        self.pos as int
    }

    pub closed spec fn wf(&self) -> bool {
        &&& self.pos <= self.input@.len()
        &&& self.input@.len() < usize::MAX
    }

    pub fn new(input: &'a [u8], filename: String) -> (l: Self)
        requires
            input@.len() < usize::MAX,
        ensures
            l.input_bytes() == input@,
            l.file_name() == filename@,
            l.position() == 0,
            l.wf(),
    {
        Lexer { input, filename, pos: 0 }
    }

    /// Moves back to the start of the input.
    pub fn reset(&mut self)
        requires
            old(self).wf(),
        ensures
            final(self).input_bytes() == old(self).input_bytes(),
            final(self).file_name() == old(self).file_name(),
            final(self).position() == 0,
            final(self).wf(),
    {
        self.pos = 0;
    }

    /// All tokens of the input from the current position, and back to the start.
    ///
    /// Lexing must succeed: see [`Lexer::tokenize`] for the checked form.
    pub fn get_tokens(&mut self) -> (tokens: Vec<Token>)
        requires
            old(self).wf(),
            lex_from(old(self).input_bytes(), old(self).position()) is Tokens,
        ensures
            lex_from(old(self).input_bytes(), old(self).position())
                == LexOutcome::Tokens(tokens.deep_view()),
            forall|i: int| 0 <= i < tokens.len() ==> tokens[i]@ != SpecToken::Eof,
            final(self).input_bytes() == old(self).input_bytes(),
            final(self).file_name() == old(self).file_name(),
            final(self).position() == 0,
            final(self).wf(),
    {
        proof {
            lemma_lexed_tokens_have_no_eof(self.input@, self.pos as int);
        }
        match self.tokenize() {
            Ok(tokens) => {
                assert forall|i: int| 0 <= i < tokens.len() implies tokens[i]@ != SpecToken::Eof by {
                    assert(tokens.deep_view()[i] == tokens[i]@);
                }
                tokens
            },
            Err(_) => Vec::new(),
        }
    }

    /// All tokens of the input from the current position, or why lexing
    /// stopped; and back to the start.
    pub fn tokenize(&mut self) -> (r: Result<Vec<Token>, LexFailure>)
        requires
            old(self).wf(),
        ensures
            lexes_to(r, old(self).input_bytes(), old(self).file_name(), old(self).position()),
            final(self).input_bytes() == old(self).input_bytes(),
            final(self).file_name() == old(self).file_name(),
            final(self).position() == 0,
            final(self).wf(),
    {
        let ghost start = self.pos as int;
        let ghost input = self.input@;
        let mut tokens: Vec<Token> = Vec::new();
        loop
            invariant
                self.input@ == input,
                self.filename@ == old(self).filename@,
                self.pos <= input.len(),
                input.len() < usize::MAX,
                input == old(self).input@,
                start == old(self).pos,
                lex_from(input, start) == prepend(tokens.deep_view(), lex_from(input, self.pos as int)),
            decreases input.len() - self.pos,
        {
            let ghost before = self.pos as int;
            match self.next_token() {
                Ok(Token::Eof) => {
                    assert(tokens.deep_view() + seq![] =~= tokens.deep_view());
                    self.reset();
                    return Ok(tokens);
                },
                Ok(t) => {
                    let ghost tv = t@;
                    let ghost prev = tokens.deep_view();
                    tokens.push(t);
                    assert(tokens.deep_view() =~= prev.push(tv));
                    assert(lex_from(input, before) == prepend(seq![tv], lex_from(input, self.pos as int)));
                    assert forall|rest: Seq<SpecToken>| prev + (seq![tv] + rest) =~= prev.push(tv) + rest by {}
                },
                Err(e) => {
                    self.reset();
                    return Err(e);
                },
            }
        }
    }

    fn peek(&self) -> (r: Option<u8>)
        ensures
            r == (if self.pos < self.input@.len() { Some(self.input@[self.pos as int]) } else { None::<u8> }),
    {
        if self.pos < self.input.len() {
            Some(self.input[self.pos])
        } else {
            None
        }
    }

    fn skip_whitespace(&mut self)
        requires
            old(self).wf(),
        ensures
            final(self).input == old(self).input,
            final(self).filename == old(self).filename,
            final(self).pos == skip_space(old(self).input@, old(self).pos as int),
            final(self).wf(),
    {
        while self.pos < self.input.len() && is_space_byte(self.input[self.pos])
            invariant
                self.input == old(self).input,
                self.filename == old(self).filename,
                self.pos <= self.input@.len(),
                skip_space(self.input@, self.pos as int) == skip_space(old(self).input@, old(self).pos as int),
            decreases self.input@.len() - self.pos,
        {
            self.pos = self.pos + 1;
        }
    }

    fn error_here(&self, kind: ErrorKind) -> (e: LexFailure)
        requires
            self.wf(),
        ensures
            e matches LexFailure::Error(ce) && ce.kind == kind && ce.filename@ == self.filename@
                && locates(ce, self.input@, self.pos as int),
    {
        LexFailure::Error(CompilerError::new(kind, self.filename.clone(), self.input, self.pos))
    }

    /// The next token after whitespace; the position moves past it.
    fn next_token(&mut self) -> (r: Result<Token, LexFailure>)
        requires
            old(self).wf(),
        ensures
            final(self).input == old(self).input,
            final(self).filename == old(self).filename,
            final(self).wf(),
            match next_step(old(self).input@, old(self).pos as int) {
                LexStep::Token(t, p) => r matches Ok(tok) && tok@ == t && final(self).pos == p,
                LexStep::Error(k, p) => r matches Err(LexFailure::Error(e)) && e.kind == k
                    && e.filename@ == old(self).filename@ && locates(e, old(self).input@, p),
                LexStep::Unfinished(p) => r matches Err(LexFailure::Unfinished(q)) && q == p,
            },
            r matches Ok(tok) && tok@ != SpecToken::Eof ==> final(self).pos > old(self).pos,
    {
        proof {
            lemma_skip_space_ge(self.input@, self.pos as int);
        }
        self.skip_whitespace();
        let s = self.pos;
        match self.peek() {
            None => Ok(Token::Eof),
            Some(b) => {
                if is_word_start_byte(b) {
                    Ok(self.lex_identifier())
                } else if is_digit_byte(b) {
                    self.lex_constant()
                } else if b == '+' as u8 {
                    self.pos = s + 1;
                    Ok(Token::Operator(Operator::Plus))
                } else if b == '-' as u8 {
                    self.one_or_two(s, '-' as u8, Operator::Decrement, Operator::Minus)
                } else if b == '*' as u8 {
                    self.pos = s + 1;
                    Ok(Token::Operator(Operator::Mul))
                } else if b == '/' as u8 {
                    self.pos = s + 1;
                    Ok(Token::Operator(Operator::Div))
                } else if b == '%' as u8 {
                    self.pos = s + 1;
                    Ok(Token::Operator(Operator::Mod))
                } else if b == '~' as u8 {
                    self.pos = s + 1;
                    Ok(Token::Operator(Operator::BitwiseNot))
                } else if b == '!' as u8 {
                    self.one_or_two(s, '=' as u8, Operator::Neq, Operator::LogicalNot)
                } else if b == '&' as u8 {
                    self.two_or_unfinished(s, '&' as u8, Operator::LogicalAnd)
                } else if b == '|' as u8 {
                    self.two_or_unfinished(s, '|' as u8, Operator::LogicalOr)
                } else if b == '=' as u8 {
                    self.one_or_two(s, '=' as u8, Operator::Eq, Operator::Assign)
                } else if b == '<' as u8 {
                    self.one_or_two(s, '=' as u8, Operator::Leq, Operator::Less)
                } else if b == '>' as u8 {
                    self.one_or_two(s, '=' as u8, Operator::Geq, Operator::Greater)
                } else if b == '(' as u8 {
                    self.pos = s + 1;
                    Ok(Token::OpenParenthesis)
                } else if b == ')' as u8 {
                    self.pos = s + 1;
                    Ok(Token::CloseParenthesis)
                } else if b == '{' as u8 {
                    self.pos = s + 1;
                    Ok(Token::OpenBrace)
                } else if b == '}' as u8 {
                    self.pos = s + 1;
                    Ok(Token::CloseBrace)
                } else if b == ';' as u8 {
                    self.pos = s + 1;
                    Ok(Token::Semicolon)
                } else if b == ',' as u8 {
                    self.pos = s + 1;
                    Ok(Token::Comma)
                } else if b == '?' as u8 {
                    self.pos = s + 1;
                    Ok(Token::Operator(Operator::Conditional))
                } else if b == ':' as u8 {
                    self.pos = s + 1;
                    Ok(Token::Colon)
                } else {
                    Err(self.error_here(ErrorKind::InvalidCharacter(b)))
                }
            },
        }
    }

    fn one_or_two(&mut self, s: usize, second: u8, two: Operator, one: Operator) -> (r: Result<Token, LexFailure>)
        requires
            old(self).wf(),
            s == old(self).pos,
            s < old(self).input@.len(),
        ensures
            final(self).input == old(self).input,
            final(self).filename == old(self).filename,
            final(self).wf(),
            if s + 1 < old(self).input@.len() && old(self).input@[s + 1] == second {
                r matches Ok(t) && t@ == SpecToken::Operator(two) && final(self).pos == s + 2
            } else {
                r matches Ok(t) && t@ == SpecToken::Operator(one) && final(self).pos == s + 1
            },
    {
        let n = self.input.len();
        if s + 1 < n && self.input[s + 1] == second {
            self.pos = s + 2;
            Ok(Token::Operator(two))
        } else {
            self.pos = s + 1;
            Ok(Token::Operator(one))
        }
    }

    fn two_or_unfinished(&mut self, s: usize, second: u8, two: Operator) -> (r: Result<Token, LexFailure>)
        requires
            old(self).wf(),
            s == old(self).pos,
            s < old(self).input@.len(),
        ensures
            final(self).input == old(self).input,
            final(self).filename == old(self).filename,
            final(self).wf(),
            if s + 1 < old(self).input@.len() && old(self).input@[s + 1] == second {
                r matches Ok(t) && t@ == SpecToken::Operator(two) && final(self).pos == s + 2
            } else {
                r matches Err(LexFailure::Unfinished(q)) && q == s
            },
    {
        let n = self.input.len();
        if s + 1 < n && self.input[s + 1] == second {
            self.pos = s + 2;
            Ok(Token::Operator(two))
        } else {
            self.pos = s + 1;
            Err(LexFailure::Unfinished(s))
        }
    }

    fn lex_identifier(&mut self) -> (t: Token)
        requires
            old(self).wf(),
            old(self).pos < old(self).input@.len(),
            is_word_start(old(self).input@[old(self).pos as int]),
        ensures
            final(self).input == old(self).input,
            final(self).filename == old(self).filename,
            final(self).wf(),
            final(self).pos == word_end(old(self).input@, old(self).pos as int),
            final(self).pos > old(self).pos,
            t@ == word_token(old(self).input@.subrange(old(self).pos as int, final(self).pos as int)),
    {
        proof {
            lemma_word_end_ge(self.input@, self.pos + 1);
        }
        let start = self.pos;
        while self.pos < self.input.len() && is_word_char_byte(self.input[self.pos])
            invariant
                self.input == old(self).input,
                self.filename == old(self).filename,
                start == old(self).pos,
                start <= self.pos <= self.input@.len(),
                word_end(self.input@, self.pos as int) == word_end(self.input@, start as int),
                forall|j: int| start <= j < self.pos ==> is_word_char(#[trigger] self.input@[j]),
            decreases self.input@.len() - self.pos,
        {
            self.pos = self.pos + 1;
        }
        let word = &self.input[start..self.pos];
        assert(word@ =~= self.input@.subrange(start as int, self.pos as int));
        match Keyword::from_u8(word) {
            Some(keyword) => Token::Keyword(keyword),
            None => {
                assert(all_ascii(word@)) by {
                    assert forall|i: int| 0 <= i < word@.len() implies #[trigger] word@[i] < 128 by {
                        assert(is_word_char(self.input@[start + i]));
                    }
                }
                Token::Identifier(text_from_bytes(word))
            },
        }
    }

    fn lex_constant(&mut self) -> (r: Result<Token, LexFailure>)
        requires
            old(self).wf(),
            old(self).pos < old(self).input@.len(),
            is_digit(old(self).input@[old(self).pos as int]),
        ensures
            final(self).input == old(self).input,
            final(self).filename == old(self).filename,
            final(self).wf(),
            scan_at(old(self).input@, old(self).pos as int) matches LexStep::Token(tv, p) ==> r matches Ok(tok) && tok@ == tv && final(self).pos == p,
            scan_at(old(self).input@, old(self).pos as int) matches LexStep::Error(k, p) ==> r matches Err(LexFailure::Error(e)) && e.kind == k
                && e.filename@ == old(self).filename@ && locates(e, old(self).input@, p),
            scan_at(old(self).input@, old(self).pos as int) matches LexStep::Unfinished(p) ==> r matches Err(LexFailure::Unfinished(q)) && q == p,
            r is Ok ==> final(self).pos > old(self).pos,
    {
        proof {
            lemma_digits_end_ge(self.input@, self.pos + 1);
        }
        let start = self.pos;
        while self.pos < self.input.len() && is_digit_byte(self.input[self.pos])
            invariant
                self.input == old(self).input,
                self.filename == old(self).filename,
                start == old(self).pos,
                start <= self.pos <= self.input@.len(),
                digits_end(self.input@, self.pos as int) == digits_end(self.input@, start as int),
                forall|j: int| start <= j < self.pos ==> is_digit(#[trigger] self.input@[j]),
            decreases self.input@.len() - self.pos,
        {
            self.pos = self.pos + 1;
        }
        if self.pos < self.input.len() && is_word_start_byte(self.input[self.pos]) {
            return Err(self.error_here(ErrorKind::InvalidIntSuffix));
        }
        let ghost digits = self.input@.subrange(start as int, self.pos as int);
        let mut value: i64 = 0;
        let mut i: usize = start;
        while i < self.pos
            invariant
                start <= i <= self.pos <= self.input@.len(),
                digits == self.input@.subrange(start as int, self.pos as int),
                forall|j: int| start <= j < self.pos ==> is_digit(#[trigger] self.input@[j]),
                0 <= value <= 10 * (i32::MAX as int) + 9,
                value <= i32::MAX ==> value == digits_value(digits.take(i - start)),
                value > i32::MAX ==> digits_value(digits.take(i - start)) > i32::MAX,
            decreases self.pos - i,
        {
            let d = self.input[i];
            assert(is_digit(self.input@[i as int]));
            assert(digits.take(i + 1 - start).drop_last() =~= digits.take(i - start));
            assert(digits.take(i + 1 - start).last() == d);
            if value <= i32::MAX as i64 {
                value = value * 10 + (d - 48) as i64;
            }
            i = i + 1;
        }
        assert(digits.take(self.pos - start) =~= digits);
        if value > i32::MAX as i64 {
            Err(LexFailure::Unfinished(start))
        } else {
            Ok(Token::Constant(value as i32))
        }
    }
}

fn is_space_byte(b: u8) -> (r: bool)
    ensures
        r == is_space(b),
{
    b == 32 || b == 9 || b == 10 || b == 13
}

fn is_word_start_byte(b: u8) -> (r: bool)
    ensures
        r == is_word_start(b),
{
    (97 <= b && b <= 122) || (65 <= b && b <= 90) || b == 95
}

fn is_digit_byte(b: u8) -> (r: bool)
    ensures
        r == is_digit(b),
{
    48 <= b && b <= 57
}

fn is_word_char_byte(b: u8) -> (r: bool)
    ensures
        r == is_word_char(b),
{
    is_word_start_byte(b) || is_digit_byte(b)
}

/// Lexing again from the start gives the same tokens: two lexers over the
/// same input that stand at its start (a new one, one just reset, or one
/// that `get_tokens` has returned to the start) lex it alike, so
/// `get_tokens` after `reset` gives what a new lexer gives, whatever calls
/// came before.
pub proof fn lemma_relex_from_start(a: Lexer, b: Lexer)
    requires
        a.input_bytes() == b.input_bytes(),
        a.position() == 0,
        b.position() == 0,
    ensures
        lex_from(a.input_bytes(), a.position()) == lex_from(b.input_bytes(), b.position()),
{
}

} // verus!
