use vstd::prelude::*;

use crate::common::{BinaryOp, Keyword, TempId, UnaryOp};
use crate::ir::ir_ast::Label;
use crate::text::{decimal, usize_text};

verus! {

/// A translation unit: the functions in source order.
#[derive(Debug, PartialEq)]
pub struct CProgram {
    pub functions: Vec<CFnDecl>,
}

/// A function declaration; `body` is `None` for a declaration without definition.
#[derive(Debug, PartialEq)]
pub struct CFnDecl {
    pub name: String,
    pub params: Vec<CParam>,
    pub body: Option<CBlock>,
}

/// A parameter; `name` is `None` only for `void`, and `id` is set by variable resolution.
#[derive(Debug, PartialEq)]
pub struct CParam {
    pub keyword: Keyword,
    pub name: Option<String>,
    pub id: Option<TempId>,
}

/// A brace-delimited sequence of block items.
#[derive(Debug, PartialEq)]
pub struct CBlock(pub Vec<CBlockItem>);

#[derive(Debug, PartialEq)]
pub enum CBlockItem {
    Statement(CStatement),
    Declaration(CDeclaration),
}

/// The first clause of a `for` loop.
#[derive(Debug, PartialEq)]
pub enum CForInit {
    InitDecl(CVarDecl),
    InitExp(Option<CExpression>),
}

/// A statement; loop labels and the targets of `break` and `continue` are set by loop labelling.
#[derive(Debug, PartialEq)]
pub enum CStatement {
    Return(CExpression),
    Expression(CExpression),
    If { cond: CExpression, then: Box<CStatement>, else_: Option<Box<CStatement>> },
    Compound(CBlock),
    Break(Option<Label>),
    Continue(Option<Label>),
    While { cond: CExpression, body: Box<CStatement>, label: Option<Label> },
    DoWhile { body: Box<CStatement>, cond: CExpression, label: Option<Label> },
    For {
        init: CForInit,
        cond: Option<CExpression>,
        post: Option<CExpression>,
        body: Box<CStatement>,
        label: Option<Label>,
    },
    Null,
}

#[derive(Debug, PartialEq)]
pub enum CExpression {
    Factor(Box<CFactor>),
    Binary(BinaryOp, Box<CExpression>, Box<CExpression>),
    Assign(Box<CExpression>, Box<CExpression>),
    Conditional { cond: Box<CExpression>, then: Box<CExpression>, else_: Box<CExpression> },
}

#[derive(Debug, PartialEq)]
pub enum CFactor {
    Constant(i32),
    Unary(UnaryOp, Box<CFactor>),
    Expression(CExpression),
    Var(CVar),
    /// Callee name and arguments.
    FunctionCall(String, Vec<CExpression>),
}

#[derive(Debug, PartialEq)]
pub enum CDeclaration {
    FnDecl(CFnDecl),
    VarDecl(CVarDecl),
}

#[derive(Debug, PartialEq)]
pub struct CVarDecl {
    pub var: CVar,
    pub init: Option<CExpression>,
}

/// A use or declaration of a variable; `id` is set by variable resolution.
#[derive(Debug, PartialEq, Eq, Hash)]
pub struct CVar {
    pub name: String,
    pub id: Option<TempId>,
}

// The same trees with names as character sequences and lists as sequences.
pub struct SpecProgram {
    pub functions: Seq<SpecFnDecl>,
}

pub struct SpecFnDecl {
    pub name: Seq<char>,
    pub params: Seq<SpecParam>,
    pub body: Option<Seq<SpecBlockItem>>,
}

pub struct SpecParam {
    pub keyword: Keyword,
    pub name: Option<Seq<char>>,
    pub id: Option<TempId>,
}

pub enum SpecBlockItem {
    Statement(SpecStatement),
    Declaration(SpecDeclaration),
}

pub enum SpecForInit {
    InitDecl(SpecVarDecl),
    InitExp(Option<SpecExpression>),
}

pub enum SpecStatement {
    Return(SpecExpression),
    Expression(SpecExpression),
    If { cond: SpecExpression, then: Box<SpecStatement>, else_: Option<Box<SpecStatement>> },
    Compound(Seq<SpecBlockItem>),
    Break(Option<Label>),
    Continue(Option<Label>),
    While { cond: SpecExpression, body: Box<SpecStatement>, label: Option<Label> },
    DoWhile { body: Box<SpecStatement>, cond: SpecExpression, label: Option<Label> },
    For {
        init: SpecForInit,
        cond: Option<SpecExpression>,
        post: Option<SpecExpression>,
        body: Box<SpecStatement>,
        label: Option<Label>,
    },
    Null,
}

pub enum SpecExpression {
    Factor(Box<SpecFactor>),
    Binary(BinaryOp, Box<SpecExpression>, Box<SpecExpression>),
    Assign(Box<SpecExpression>, Box<SpecExpression>),
    Conditional { cond: Box<SpecExpression>, then: Box<SpecExpression>, else_: Box<SpecExpression> },
}

pub enum SpecFactor {
    Constant(i32),
    Unary(UnaryOp, Box<SpecFactor>),
    Expression(SpecExpression),
    Var(SpecVar),
    FunctionCall(Seq<char>, Seq<SpecExpression>),
}

pub enum SpecDeclaration {
    FnDecl(SpecFnDecl),
    VarDecl(SpecVarDecl),
}

pub struct SpecVarDecl {
    pub var: SpecVar,
    pub init: Option<SpecExpression>,
}

pub struct SpecVar {
    pub name: Seq<char>,
    pub id: Option<TempId>,
}

pub open spec fn exprs_view(v: Seq<CExpression>) -> Seq<SpecExpression>
    decreases v,
{
    Seq::new(v.len(), |i: int| if 0 <= i < v.len() { v[i].view_of() } else { SpecExpression::Factor(Box::new(SpecFactor::Constant(0))) })
}

pub open spec fn items_view(v: Seq<CBlockItem>) -> Seq<SpecBlockItem>
    decreases v,
{
    Seq::new(v.len(), |i: int| if 0 <= i < v.len() { v[i].view_of() } else { SpecBlockItem::Statement(SpecStatement::Null) })
}

pub open spec fn params_view(v: Seq<CParam>) -> Seq<SpecParam> {
    Seq::new(v.len(), |i: int| v[i].view_of())
}

pub open spec fn fns_view(v: Seq<CFnDecl>) -> Seq<SpecFnDecl>
    decreases v,
{
    Seq::new(v.len(), |i: int| if 0 <= i < v.len() { v[i].view_of() } else { SpecFnDecl { name: Seq::empty(), params: Seq::empty(), body: None } })
}

pub open spec fn opt_name_view(n: Option<String>) -> Option<Seq<char>> {
    match n {
        Some(s) => Some(s@),
        None => None,
    }
}

pub open spec fn opt_expr_view(e: Option<CExpression>) -> Option<SpecExpression> {
    match e {
        Some(x) => Some(x.view_of()),
        None => None,
    }
}

impl CFnDecl {
    pub open spec fn view_of(&self) -> SpecFnDecl
        decreases self,
    {
        SpecFnDecl {
            name: self.name@,
            params: params_view(self.params@),
            body: match &self.body {
                Some(b) => Some(items_view(b.0@)),
                None => None,
            },
        }
    }
}

impl CParam {
    pub open spec fn view_of(&self) -> SpecParam {
        SpecParam { keyword: self.keyword, name: opt_name_view(self.name), id: self.id }
    }
}

impl CBlockItem {
    pub open spec fn view_of(&self) -> SpecBlockItem
        decreases self,
    {
        match self {
            CBlockItem::Statement(s) => SpecBlockItem::Statement(s.view_of()),
            CBlockItem::Declaration(d) => SpecBlockItem::Declaration(d.view_of()),
        }
    }
}

impl CDeclaration {
    pub open spec fn view_of(&self) -> SpecDeclaration
        decreases self,
    {
        match self {
            CDeclaration::FnDecl(f) => SpecDeclaration::FnDecl(f.view_of()),
            CDeclaration::VarDecl(v) => SpecDeclaration::VarDecl(v.view_of()),
        }
    }
}

impl CVarDecl {
    pub open spec fn view_of(&self) -> SpecVarDecl
        decreases self,
    {
        SpecVarDecl {
            var: self.var.view_of(),
            init: match &self.init {
                Some(e) => Some(e.view_of()),
                None => None,
            },
        }
    }
}

impl CVar {
    pub open spec fn view_of(&self) -> SpecVar {
        SpecVar { name: self.name@, id: self.id }
    }

    /// `name.id`, or `name.?` before resolution.
    pub fn to_text(&self) -> (s: String)
        ensures
            s@ == var_text(self.view_of()),
    {
        let mut s = self.name.clone();
        match self.id {
            Some(id) => {
                s.append(".");
                let digits = usize_text(id.0 as usize);
                s.append(digits.as_str());
            },
            None => {
                s.append(".?");
            },
        }
        s
    }
}

/// How a variable is written: `name.id`, or `name.?` before resolution.
pub open spec fn var_text(v: SpecVar) -> Seq<char> {
    match v.id {
        Some(t) => v.name + "."@ + decimal(t.0 as int),
        None => v.name + ".?"@,
    }
}

impl CForInit {
    pub open spec fn view_of(&self) -> SpecForInit
        decreases self,
    {
        match self {
            CForInit::InitDecl(d) => SpecForInit::InitDecl(d.view_of()),
            CForInit::InitExp(e) => SpecForInit::InitExp(
                match e {
                    Some(x) => Some(x.view_of()),
                    None => None,
                },
            ),
        }
    }
}

impl CStatement {
    pub open spec fn view_of(&self) -> SpecStatement
        decreases self,
    {
        match self {
            CStatement::Return(e) => SpecStatement::Return(e.view_of()),
            CStatement::Expression(e) => SpecStatement::Expression(e.view_of()),
            CStatement::If { cond, then, else_ } => SpecStatement::If {
                cond: cond.view_of(),
                then: Box::new(then.view_of()),
                else_: match else_ {
                    Some(s) => Some(Box::new(s.view_of())),
                    None => None,
                },
            },
            CStatement::Compound(b) => SpecStatement::Compound(items_view(b.0@)),
            CStatement::Break(l) => SpecStatement::Break(*l),
            CStatement::Continue(l) => SpecStatement::Continue(*l),
            CStatement::While { cond, body, label } => SpecStatement::While {
                cond: cond.view_of(),
                body: Box::new(body.view_of()),
                label: *label,
            },
            CStatement::DoWhile { body, cond, label } => SpecStatement::DoWhile {
                body: Box::new(body.view_of()),
                cond: cond.view_of(),
                label: *label,
            },
            CStatement::For { init, cond, post, body, label } => SpecStatement::For {
                init: init.view_of(),
                cond: match cond {
                    Some(x) => Some(x.view_of()),
                    None => None,
                },
                post: match post {
                    Some(x) => Some(x.view_of()),
                    None => None,
                },
                body: Box::new(body.view_of()),
                label: *label,
            },
            CStatement::Null => SpecStatement::Null,
        }
    }
}

impl CExpression {
    pub open spec fn view_of(&self) -> SpecExpression
        decreases self,
    {
        match self {
            CExpression::Factor(f) => SpecExpression::Factor(Box::new(f.view_of())),
            CExpression::Binary(op, a, b) => SpecExpression::Binary(
                *op,
                Box::new(a.view_of()),
                Box::new(b.view_of()),
            ),
            CExpression::Assign(a, b) => SpecExpression::Assign(
                Box::new(a.view_of()),
                Box::new(b.view_of()),
            ),
            CExpression::Conditional { cond, then, else_ } => SpecExpression::Conditional {
                cond: Box::new(cond.view_of()),
                then: Box::new(then.view_of()),
                else_: Box::new(else_.view_of()),
            },
        }
    }
}

impl CFactor {
    pub open spec fn view_of(&self) -> SpecFactor
        decreases self,
    {
        match self {
            CFactor::Constant(i) => SpecFactor::Constant(*i),
            CFactor::Unary(op, f) => SpecFactor::Unary(*op, Box::new(f.view_of())),
            CFactor::Expression(e) => SpecFactor::Expression(e.view_of()),
            CFactor::Var(v) => SpecFactor::Var(v.view_of()),
            CFactor::FunctionCall(n, args) => SpecFactor::FunctionCall(n@, exprs_view(args@)),
        }
    }
}

impl View for CProgram {
    type V = SpecProgram;

    open spec fn view(&self) -> SpecProgram {
        SpecProgram { functions: fns_view(self.functions@) }
    }
}

impl View for CFnDecl {
    type V = SpecFnDecl;

    open spec fn view(&self) -> SpecFnDecl {
        self.view_of()
    }
}

impl View for CParam {
    type V = SpecParam;

    open spec fn view(&self) -> SpecParam {
        self.view_of()
    }
}

impl View for CBlock {
    type V = Seq<SpecBlockItem>;

    open spec fn view(&self) -> Seq<SpecBlockItem> {
        items_view(self.0@)
    }
}

impl View for CBlockItem {
    type V = SpecBlockItem;

    open spec fn view(&self) -> SpecBlockItem {
        self.view_of()
    }
}

impl View for CForInit {
    type V = SpecForInit;

    open spec fn view(&self) -> SpecForInit {
        self.view_of()
    }
}

impl View for CStatement {
    type V = SpecStatement;

    open spec fn view(&self) -> SpecStatement {
        self.view_of()
    }
}

impl View for CExpression {
    type V = SpecExpression;

    open spec fn view(&self) -> SpecExpression {
        self.view_of()
    }
}

impl View for CFactor {
    type V = SpecFactor;

    open spec fn view(&self) -> SpecFactor {
        self.view_of()
    }
}

impl View for CDeclaration {
    type V = SpecDeclaration;

    open spec fn view(&self) -> SpecDeclaration {
        self.view_of()
    }
}

impl View for CVarDecl {
    type V = SpecVarDecl;

    open spec fn view(&self) -> SpecVarDecl {
        self.view_of()
    }
}

impl View for CVar {
    type V = SpecVar;

    open spec fn view(&self) -> SpecVar {
        self.view_of()
    }
}

} // verus!
