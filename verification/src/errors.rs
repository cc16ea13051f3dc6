use vstd::prelude::*;

use crate::lexer::{SpecToken, Token};
use crate::text::{decimal, framed, lossy_text, text_from_bytes, usize_text};

verus! {

/// A diagnostic that points at a byte of a source file.
#[derive(Debug)]
pub struct CompilerError {
    pub kind: ErrorKind,
    pub filename: String,
    pub line_string: String,
    pub line_num: usize,
    pub col: usize,
}

/// What went wrong.
#[derive(Debug)]
pub enum ErrorKind {
    InvalidCharacter(u8),
    InvalidIntSuffix,
    LeftoverTokens,
    Expected { expected: Token, actual: Token },
}

/// [`ErrorKind`] with its tokens taken by their views.
pub enum SpecErrorKind {
    InvalidCharacter(u8),
    InvalidIntSuffix,
    LeftoverTokens,
    Expected { expected: SpecToken, actual: SpecToken },
}

impl View for ErrorKind {
    type V = SpecErrorKind;

    open spec fn view(&self) -> SpecErrorKind {
        match self {
            ErrorKind::InvalidCharacter(c) => SpecErrorKind::InvalidCharacter(*c),
            ErrorKind::InvalidIntSuffix => SpecErrorKind::InvalidIntSuffix,
            ErrorKind::LeftoverTokens => SpecErrorKind::LeftoverTokens,
            ErrorKind::Expected { expected, actual } => SpecErrorKind::Expected {
                expected: expected@,
                actual: actual@,
            },
        }
    }
}

/// The message for an error of kind `k`; `None` for an unexpected token,
/// whose message shows the tokens in their derived `Debug` form.
pub open spec fn kind_message(k: SpecErrorKind) -> Option<Seq<char>> {
    match k {
        SpecErrorKind::InvalidCharacter(c) => Some("Invalid character: `"@ + decimal(c as int) + "`"@),
        SpecErrorKind::InvalidIntSuffix => Some("Invalid suffix on integer constant"@),
        SpecErrorKind::LeftoverTokens => Some("Remaining tokens after the end of program"@),
        SpecErrorKind::Expected { .. } => None,
    }
}

impl ErrorKind {
    /// The message that describes this error, where it shows no token.
    pub fn message(&self) -> (r: Option<String>)
        ensures
            r matches Some(s) ==> kind_message(self@) == Some(s@),
            r is None ==> kind_message(self@) is None,
    {
        match self {
            ErrorKind::InvalidCharacter(c) => {
                let d = usize_text(*c as usize);
                Some(framed("Invalid character: `", d.as_str(), "`"))
            },
            ErrorKind::InvalidIntSuffix => Some(String::from_str("Invalid suffix on integer constant")),
            ErrorKind::LeftoverTokens => Some(String::from_str("Remaining tokens after the end of program")),
            ErrorKind::Expected { .. } => None,
        }
    }
}

/// Number of line feeds in `s`.
pub open spec fn count_newlines(s: Seq<u8>) -> nat
    decreases s.len(),
{
    if s.len() == 0 {
        0
    } else {
        count_newlines(s.drop_last()) + if s.last() == 10 { 1nat } else { 0nat }
    }
}

/// Index of the first byte of the line that holds index `pos`.
pub open spec fn line_start(s: Seq<u8>, pos: int) -> int
    decreases pos,
{
    if pos <= 0 {
        0
    } else if s[pos - 1] == 10 {
        pos
    } else {
        line_start(s, pos - 1)
    }
}

/// Index of the line feed that ends the line holding index `pos`, or the length of `s`.
pub open spec fn line_end(s: Seq<u8>, pos: int) -> int
    decreases s.len() - pos,
{
    if pos >= s.len() || pos < 0 || s[pos] == 10 {
        pos
    } else {
        line_end(s, pos + 1)
    }
}

/// `e` locates byte `pos` of `source`: 1-based line and column, and the text of that line.
pub open spec fn locates(e: CompilerError, source: Seq<u8>, pos: int) -> bool {
    &&& e.line_num == count_newlines(source.take(pos)) + 1
    &&& e.col == pos - line_start(source, pos) + 1
    &&& e.line_string@ == lossy_text(source.subrange(line_start(source, pos), line_end(source, pos)))
}

impl CompilerError {
    /// An error of `kind` at byte `pos` of `source`, the contents of the file `filename`.
    pub fn new(kind: ErrorKind, filename: String, source: &[u8], pos: usize) -> (e: Self)
        requires
            pos <= source@.len(),
            pos < usize::MAX,
        ensures
            e.kind == kind,
            e.filename == filename,
            locates(e, source@, pos as int),
    {
        let mut line_num: usize = 1;
        let mut i: usize = 0;
        while i < pos
            invariant
                pos <= source@.len(),
                pos < usize::MAX,
                0 <= i <= pos,
                line_num == count_newlines(source@.take(i as int)) + 1,
                line_num <= i + 1,
            decreases pos - i,
        {
            assert(source@.take(i + 1).drop_last() =~= source@.take(i as int));
            if source[i] == 10 {
                line_num = line_num + 1;
            }
            i = i + 1;
        }
        let mut start: usize = pos;
        while start > 0 && source[start - 1] != 10
            invariant
                pos <= source@.len(),
                start <= pos,
                line_start(source@, start as int) == line_start(source@, pos as int),
            decreases start,
        {
            start = start - 1;
        }
        let mut end: usize = pos;
        while end < source.len() && source[end] != 10
            invariant
                pos <= end <= source@.len(),
                line_end(source@, end as int) == line_end(source@, pos as int),
            decreases source@.len() - end,
        {
            end = end + 1;
        }
        let line_string = text_from_bytes(&source[start..end]);
        assert(source@.subrange(start as int, end as int) =~= source@.subrange(
            line_start(source@, pos as int),
            line_end(source@, pos as int),
        ));
        CompilerError { kind, filename, line_string, line_num, col: pos - start + 1 }
    }
}

} // verus!
