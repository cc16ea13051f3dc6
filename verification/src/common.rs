use vstd::prelude::*;

verus! {

/// The reserved words of the supported C subset.
#[derive(Debug, PartialEq, Eq, Clone, Copy, Structural)]
pub enum Keyword {
    Int,
    Void,
    If,
    Else,
    Return,
    Break,
    Continue,
    While,
    Do,
    For,
}

/// The byte string of an ASCII text.
pub open spec fn ascii_bytes(s: Seq<char>) -> Seq<u8> {
    Seq::new(s.len(), |i: int| s[i] as u8)
}

/// The keyword spelled by `s`, if any.
pub open spec fn keyword_of(s: Seq<u8>) -> Option<Keyword> {
    if s == ascii_bytes(seq!['i', 'n', 't']) {
        Some(Keyword::Int)
    } else if s == ascii_bytes(seq!['v', 'o', 'i', 'd']) {
        Some(Keyword::Void)
    } else if s == ascii_bytes(seq!['i', 'f']) {
        Some(Keyword::If)
    } else if s == ascii_bytes(seq!['e', 'l', 's', 'e']) {
        Some(Keyword::Else)
    } else if s == ascii_bytes(seq!['r', 'e', 't', 'u', 'r', 'n']) {
        Some(Keyword::Return)
    } else if s == ascii_bytes(seq!['b', 'r', 'e', 'a', 'k']) {
        Some(Keyword::Break)
    } else if s == ascii_bytes(seq!['c', 'o', 'n', 't', 'i', 'n', 'u', 'e']) {
        Some(Keyword::Continue)
    } else if s == ascii_bytes(seq!['w', 'h', 'i', 'l', 'e']) {
        Some(Keyword::While)
    } else if s == ascii_bytes(seq!['d', 'o']) {
        Some(Keyword::Do)
    } else if s == ascii_bytes(seq!['f', 'o', 'r']) {
        Some(Keyword::For)
    } else {
        None
    }
}

/// Whether `s` holds exactly the ASCII characters of `w`.
fn bytes_are(s: &[u8], w: &[u8]) -> (r: bool)
    ensures
        r == (s@ == w@),
{
    if s.len() != w.len() {
        return false;
    }
    let mut i: usize = 0;
    while i < s.len()
        invariant
            s@.len() == w@.len(),
            0 <= i <= s@.len(),
            forall|j: int| 0 <= j < i ==> s@[j] == w@[j],
        decreases s@.len() - i,
    {
        if s[i] != w[i] {
            return false;
        }
        i = i + 1;
    }
    assert(s@ =~= w@);
    true
}

impl Keyword {
    /// The keyword spelled by the bytes `s`, or `None` for any other word.
    pub fn from_u8(s: &[u8]) -> (r: Option<Self>)
        ensures
            r == keyword_of(s@),
    {
        let int_word: [u8; 3] = [105, 110, 116];
        let void_word: [u8; 4] = [118, 111, 105, 100];
        let if_word: [u8; 2] = [105, 102];
        let else_word: [u8; 4] = [101, 108, 115, 101];
        let return_word: [u8; 6] = [114, 101, 116, 117, 114, 110];
        assert(int_word@ =~= ascii_bytes(seq!['i', 'n', 't']));
        assert(void_word@ =~= ascii_bytes(seq!['v', 'o', 'i', 'd']));
        assert(if_word@ =~= ascii_bytes(seq!['i', 'f']));
        assert(else_word@ =~= ascii_bytes(seq!['e', 'l', 's', 'e']));
        assert(return_word@ =~= ascii_bytes(seq!['r', 'e', 't', 'u', 'r', 'n']));
        let break_word: [u8; 5] = [98, 114, 101, 97, 107];
        let continue_word: [u8; 8] = [99, 111, 110, 116, 105, 110, 117, 101];
        let while_word: [u8; 5] = [119, 104, 105, 108, 101];
        let do_word: [u8; 2] = [100, 111];
        let for_word: [u8; 3] = [102, 111, 114];
        assert(break_word@ =~= ascii_bytes(seq!['b', 'r', 'e', 'a', 'k']));
        assert(continue_word@ =~= ascii_bytes(seq!['c', 'o', 'n', 't', 'i', 'n', 'u', 'e']));
        assert(while_word@ =~= ascii_bytes(seq!['w', 'h', 'i', 'l', 'e']));
        assert(do_word@ =~= ascii_bytes(seq!['d', 'o']));
        assert(for_word@ =~= ascii_bytes(seq!['f', 'o', 'r']));
        if bytes_are(s, &int_word) {
            Some(Keyword::Int)
        } else if bytes_are(s, &void_word) {
            Some(Keyword::Void)
        } else if bytes_are(s, &if_word) {
            Some(Keyword::If)
        } else if bytes_are(s, &else_word) {
            Some(Keyword::Else)
        } else if bytes_are(s, &return_word) {
            Some(Keyword::Return)
        } else if bytes_are(s, &break_word) {
            Some(Keyword::Break)
        } else if bytes_are(s, &continue_word) {
            Some(Keyword::Continue)
        } else if bytes_are(s, &while_word) {
            Some(Keyword::While)
        } else if bytes_are(s, &do_word) {
            Some(Keyword::Do)
        } else if bytes_are(s, &for_word) {
            Some(Keyword::For)
        } else {
            None
        }
    }
}

/// The operators that the lexer recognises.
#[derive(Debug, PartialEq, Eq, Clone, Copy, Structural)]
pub enum Operator {
    BitwiseNot,
    Plus,
    Minus,
    Mul,
    Div,
    Mod,
    Decrement,
    LogicalNot,
    LogicalAnd,
    LogicalOr,
    Eq,
    Neq,
    Less,
    Greater,
    Leq,
    Geq,
    Assign,
    Conditional,
}

impl Operator {
    /// The unary operation this operator denotes in prefix position.
    pub open spec fn spec_to_unop(self) -> Option<UnaryOp> {
        match self {
            Operator::BitwiseNot => Some(UnaryOp::BitwiseNot),
            Operator::Minus => Some(UnaryOp::Negation),
            Operator::Decrement => Some(UnaryOp::Decrement),
            Operator::LogicalNot => Some(UnaryOp::LogicalNot),
            _ => None,
        }
    }

    /// The binary operation this operator denotes in infix position.
    pub open spec fn spec_to_binop(self) -> Option<BinaryOp> {
        match self {
            Operator::Plus => Some(BinaryOp::Add),
            Operator::Minus => Some(BinaryOp::Sub),
            Operator::Mul => Some(BinaryOp::Mul),
            Operator::Div => Some(BinaryOp::Div),
            Operator::Mod => Some(BinaryOp::Mod),
            Operator::LogicalAnd => Some(BinaryOp::LogicalAnd),
            Operator::LogicalOr => Some(BinaryOp::LogicalOr),
            Operator::Eq => Some(BinaryOp::Eq),
            Operator::Neq => Some(BinaryOp::Neq),
            Operator::Less => Some(BinaryOp::Less),
            Operator::Greater => Some(BinaryOp::Greater),
            Operator::Leq => Some(BinaryOp::Leq),
            Operator::Geq => Some(BinaryOp::Geq),
            Operator::Assign => Some(BinaryOp::Assign),
            Operator::Conditional => Some(BinaryOp::Conditional),
            _ => None,
        }
    }

    /// Binding strength of the operator in infix position; 0 when it is not binary.
    pub open spec fn spec_precedence(self) -> u32 {
        match self.spec_to_binop() {
            Some(b) => b.spec_precedence(),
            None => 0,
        }
    }

    pub fn is_unary(&self) -> (r: bool)
        ensures
            r == self.spec_to_unop().is_some(),
    {
        self.to_unop().is_some()
    }

    pub fn is_binary(&self) -> (r: bool)
        ensures
            r == self.spec_to_binop().is_some(),
    {
        self.to_binop().is_some()
    }

    pub fn precedence(&self) -> (r: u32)
        ensures
            r == self.spec_precedence(),
    {
        match self.to_binop() {
            Some(binop) => binop.precedence(),
            None => 0,
        }
    }

    pub fn to_unop(&self) -> (r: Option<UnaryOp>)
        ensures
            r == self.spec_to_unop(),
    {
        match self {
            Operator::BitwiseNot => Some(UnaryOp::BitwiseNot),
            Operator::Minus => Some(UnaryOp::Negation),
            Operator::Decrement => Some(UnaryOp::Decrement),
            Operator::LogicalNot => Some(UnaryOp::LogicalNot),
            _ => None,
        }
    }

    pub fn to_binop(&self) -> (r: Option<BinaryOp>)
        ensures
            r == self.spec_to_binop(),
    {
        match self {
            Operator::Plus => Some(BinaryOp::Add),
            Operator::Minus => Some(BinaryOp::Sub),
            Operator::Mul => Some(BinaryOp::Mul),
            Operator::Div => Some(BinaryOp::Div),
            Operator::Mod => Some(BinaryOp::Mod),
            Operator::LogicalAnd => Some(BinaryOp::LogicalAnd),
            Operator::LogicalOr => Some(BinaryOp::LogicalOr),
            Operator::Eq => Some(BinaryOp::Eq),
            Operator::Neq => Some(BinaryOp::Neq),
            Operator::Less => Some(BinaryOp::Less),
            Operator::Greater => Some(BinaryOp::Greater),
            Operator::Leq => Some(BinaryOp::Leq),
            Operator::Geq => Some(BinaryOp::Geq),
            Operator::Assign => Some(BinaryOp::Assign),
            Operator::Conditional => Some(BinaryOp::Conditional),
            _ => None,
        }
    }

    /// The source spelling of the operator.
    pub open spec fn spec_symbol(self) -> Seq<char> {
        match self {
            Operator::BitwiseNot => "~"@,
            Operator::Plus => "+"@,
            Operator::Minus => "-"@,
            Operator::Mul => "*"@,
            Operator::Div => "/"@,
            Operator::Mod => "%"@,
            Operator::Decrement => "--"@,
            Operator::LogicalNot => "!"@,
            Operator::LogicalAnd => "&&"@,
            Operator::LogicalOr => "||"@,
            Operator::Eq => "=="@,
            Operator::Neq => "!="@,
            Operator::Less => "<"@,
            Operator::Greater => ">"@,
            Operator::Leq => "<="@,
            Operator::Geq => ">="@,
            Operator::Assign => "="@,
            Operator::Conditional => "?"@,
        }
    }

    /// The source spelling of the operator.
    pub fn symbol(&self) -> (r: &'static str)
        ensures
            r@ == self.spec_symbol(),
    {
        match self {
            Operator::BitwiseNot => "~",
            Operator::Plus => "+",
            Operator::Minus => "-",
            Operator::Mul => "*",
            Operator::Div => "/",
            Operator::Mod => "%",
            Operator::Decrement => "--",
            Operator::LogicalNot => "!",
            Operator::LogicalAnd => "&&",
            Operator::LogicalOr => "||",
            Operator::Eq => "==",
            Operator::Neq => "!=",
            Operator::Less => "<",
            Operator::Greater => ">",
            Operator::Leq => "<=",
            Operator::Geq => ">=",
            Operator::Assign => "=",
            Operator::Conditional => "?",
        }
    }
}

/// Prefix operations on integers.
#[derive(Debug, PartialEq, Eq, Clone, Copy, Structural)]
pub enum UnaryOp {
    BitwiseNot,
    Negation,
    Decrement,
    LogicalNot,
}

impl UnaryOp {
    pub open spec fn spec_symbol(self) -> Seq<char> {
        match self {
            UnaryOp::BitwiseNot => "~"@,
            UnaryOp::Negation => "-"@,
            UnaryOp::Decrement => "--"@,
            UnaryOp::LogicalNot => "!"@,
        }
    }

    /// The source spelling of the operation.
    pub fn symbol(&self) -> (r: &'static str)
        ensures
            r@ == self.spec_symbol(),
    {
        match self {
            UnaryOp::BitwiseNot => "~",
            UnaryOp::Negation => "-",
            UnaryOp::Decrement => "--",
            UnaryOp::LogicalNot => "!",
        }
    }
}

/// Infix operations on integers, with assignment and the conditional operator.
#[derive(Debug, PartialEq, Eq, Clone, Copy, Structural)]
pub enum BinaryOp {
    Add,
    Sub,
    Mul,
    Div,
    Mod,
    LogicalAnd,
    LogicalOr,
    Eq,
    Neq,
    Less,
    Greater,
    Leq,
    Geq,
    Assign,
    Conditional,
}

/// How the C operators bind, from most to least tightly: `*`, `/` and `%`
/// alike; then `+` and `-`; the relations `<`, `<=`, `>`, `>=`; `==` and
/// `!=`; `&&`; `||`; the conditional; assignment last.
pub proof fn lemma_precedence_levels()
    ensures
        BinaryOp::Div.spec_precedence() == BinaryOp::Mul.spec_precedence(),
        BinaryOp::Mod.spec_precedence() == BinaryOp::Mul.spec_precedence(),
        BinaryOp::Mul.spec_precedence() > BinaryOp::Add.spec_precedence(),
        BinaryOp::Sub.spec_precedence() == BinaryOp::Add.spec_precedence(),
        BinaryOp::Add.spec_precedence() > BinaryOp::Less.spec_precedence(),
        BinaryOp::Leq.spec_precedence() == BinaryOp::Less.spec_precedence(),
        BinaryOp::Greater.spec_precedence() == BinaryOp::Less.spec_precedence(),
        BinaryOp::Geq.spec_precedence() == BinaryOp::Less.spec_precedence(),
        BinaryOp::Less.spec_precedence() > BinaryOp::Eq.spec_precedence(),
        BinaryOp::Neq.spec_precedence() == BinaryOp::Eq.spec_precedence(),
        BinaryOp::Eq.spec_precedence() > BinaryOp::LogicalAnd.spec_precedence(),
        BinaryOp::LogicalAnd.spec_precedence() > BinaryOp::LogicalOr.spec_precedence(),
        BinaryOp::LogicalOr.spec_precedence() > BinaryOp::Conditional.spec_precedence(),
        BinaryOp::Conditional.spec_precedence() > BinaryOp::Assign.spec_precedence(),
        BinaryOp::Assign.spec_precedence() > 0,
{
}

impl BinaryOp {
    pub open spec fn spec_precedence(self) -> u32 {
        match self {
            BinaryOp::Mul => 50,
            BinaryOp::Div => 50,
            BinaryOp::Mod => 50,
            BinaryOp::Add => 45,
            BinaryOp::Sub => 45,
            BinaryOp::Less => 35,
            BinaryOp::Leq => 35,
            BinaryOp::Greater => 35,
            BinaryOp::Geq => 35,
            BinaryOp::Eq => 30,
            BinaryOp::Neq => 30,
            BinaryOp::LogicalAnd => 10,
            BinaryOp::LogicalOr => 5,
            BinaryOp::Conditional => 3,
            BinaryOp::Assign => 1,
        }
    }

    /// Binding strength: a larger number binds more tightly.
    pub fn precedence(&self) -> (r: u32)
        ensures
            r == self.spec_precedence(),
    {
        match self {
            BinaryOp::Mul => 50,
            BinaryOp::Div => 50,
            BinaryOp::Mod => 50,
            BinaryOp::Add => 45,
            BinaryOp::Sub => 45,
            BinaryOp::Less => 35,
            BinaryOp::Leq => 35,
            BinaryOp::Greater => 35,
            BinaryOp::Geq => 35,
            BinaryOp::Eq => 30,
            BinaryOp::Neq => 30,
            BinaryOp::LogicalAnd => 10,
            BinaryOp::LogicalOr => 5,
            BinaryOp::Conditional => 3,
            BinaryOp::Assign => 1,
        }
    }

    pub open spec fn spec_symbol(self) -> Seq<char> {
        match self {
            BinaryOp::Add => "+"@,
            BinaryOp::Sub => "-"@,
            BinaryOp::Mul => "*"@,
            BinaryOp::Div => "/"@,
            BinaryOp::Mod => "%"@,
            BinaryOp::LogicalAnd => "&&"@,
            BinaryOp::LogicalOr => "||"@,
            BinaryOp::Eq => "=="@,
            BinaryOp::Neq => "!="@,
            BinaryOp::Less => "<"@,
            BinaryOp::Greater => ">"@,
            BinaryOp::Leq => "<="@,
            BinaryOp::Geq => ">="@,
            BinaryOp::Assign => "="@,
            BinaryOp::Conditional => "?"@,
        }
    }

    /// The source spelling of the operation.
    pub fn symbol(&self) -> (r: &'static str)
        ensures
            r@ == self.spec_symbol(),
    {
        match self {
            BinaryOp::Add => "+",
            BinaryOp::Sub => "-",
            BinaryOp::Mul => "*",
            BinaryOp::Div => "/",
            BinaryOp::Mod => "%",
            BinaryOp::LogicalAnd => "&&",
            BinaryOp::LogicalOr => "||",
            BinaryOp::Eq => "==",
            BinaryOp::Neq => "!=",
            BinaryOp::Less => "<",
            BinaryOp::Greater => ">",
            BinaryOp::Leq => "<=",
            BinaryOp::Geq => ">=",
            BinaryOp::Assign => "=",
            BinaryOp::Conditional => "?",
        }
    }
}

/// A numbered storage location: a resolved variable or a compiler temporary.
#[derive(Debug, PartialEq, Eq, Hash, Clone, Copy, Structural)]
pub struct TempId(pub u32);

/// The name of a variable as written in the source.
#[derive(Debug, PartialEq, Eq, Hash, Clone)]
pub struct VarName(pub String);

impl VarName {
    /// The text of the name.
    pub fn as_str(&self) -> (r: &str)
        ensures
            r@ == self.0@,
    {
        self.0.as_str()
    }
}

impl From<String> for VarName {
    fn from(s: String) -> (r: VarName) {
        VarName(s)
    }
}

impl vstd::std_specs::convert::FromSpecImpl<String> for VarName {
    open spec fn obeys_from_spec() -> bool {
        true
    }

    open spec fn from_spec(s: String) -> VarName {
        VarName(s)
    }
}

} // verus!
