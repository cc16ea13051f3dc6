use vstd::prelude::*;

use crate::common::TempId;
use crate::ir::ir_ast::{Label, LabelKind};
use crate::parser::c_ast::{
    exprs_view, items_view, fns_view, opt_expr_view, params_view, CBlock, CBlockItem, CDeclaration,
    CExpression, CFactor, CFnDecl, CForInit, CParam, CProgram, CStatement, CVar, CVarDecl,
    SpecBlockItem, SpecDeclaration, SpecExpression, SpecFactor, SpecFnDecl, SpecForInit, SpecParam,
    SpecProgram, SpecStatement, SpecVar, SpecVarDecl,
};
use crate::text::{decimal, framed, int_text};

verus! {

/// Why semantic analysis rejected a program.
#[derive(Debug)]
pub enum SemanticError {
    /// A `break` that is not inside a loop.
    BreakOutsideLoop,
    /// A `continue` that is not inside a loop.
    ContinueOutsideLoop,
    /// A function declared again in the same scope where a variable of that name lives.
    FunctionDeclaredTwice(String),
    /// A function defined inside another function.
    NestedFunctionDefinition(String),
    /// A variable or parameter declared twice in the same scope.
    DeclaredTwice(String),
    /// An assignment to something other than a variable.
    InvalidLvalue(CExpression),
    /// A variable that no enclosing scope declares.
    UndeclaredVariable(String),
    /// A call of a name that no enclosing scope declares.
    UndeclaredFunction(String),
}

/// [`SemanticError`] with its names and trees taken by their views.
pub enum SpecSemanticError {
    BreakOutsideLoop,
    ContinueOutsideLoop,
    FunctionDeclaredTwice(Seq<char>),
    NestedFunctionDefinition(Seq<char>),
    DeclaredTwice(Seq<char>),
    InvalidLvalue(SpecExpression),
    UndeclaredVariable(Seq<char>),
    UndeclaredFunction(Seq<char>),
}

impl View for SemanticError {
    type V = SpecSemanticError;

    open spec fn view(&self) -> SpecSemanticError {
        match self {
            SemanticError::BreakOutsideLoop => SpecSemanticError::BreakOutsideLoop,
            SemanticError::ContinueOutsideLoop => SpecSemanticError::ContinueOutsideLoop,
            SemanticError::FunctionDeclaredTwice(n) => SpecSemanticError::FunctionDeclaredTwice(n@),
            SemanticError::NestedFunctionDefinition(n) => SpecSemanticError::NestedFunctionDefinition(n@),
            SemanticError::DeclaredTwice(n) => SpecSemanticError::DeclaredTwice(n@),
            SemanticError::InvalidLvalue(e) => SpecSemanticError::InvalidLvalue(e.view_of()),
            SemanticError::UndeclaredVariable(n) => SpecSemanticError::UndeclaredVariable(n@),
            SemanticError::UndeclaredFunction(n) => SpecSemanticError::UndeclaredFunction(n@),
        }
    }
}

/// The message for a semantic error; `None` for an invalid left-hand side,
/// whose message shows the expression in a form that writes call arguments
/// in their derived `Debug` form.
pub open spec fn semantic_message(e: SpecSemanticError) -> Option<Seq<char>> {
    match e {
        SpecSemanticError::BreakOutsideLoop => Some("Break statement outside of loop"@),
        SpecSemanticError::ContinueOutsideLoop => Some("Continue statement outside of loop"@),
        SpecSemanticError::FunctionDeclaredTwice(n) => Some("Function `"@ + n + "` is declared twice."@),
        SpecSemanticError::NestedFunctionDefinition(n) => Some("Nested function definition: `"@ + n + "`"@),
        SpecSemanticError::DeclaredTwice(n) => Some("`"@ + n + "` is declared twice"@),
        SpecSemanticError::InvalidLvalue(_) => None,
        SpecSemanticError::UndeclaredVariable(n) => Some("Undeclared variable `"@ + n + "`"@),
        SpecSemanticError::UndeclaredFunction(n) => Some("Undeclared function `"@ + n + "`"@),
    }
}

impl SemanticError {
    /// The message that describes this error, where it shows no expression.
    pub fn message(&self) -> (r: Option<String>)
        ensures
            r matches Some(s) ==> semantic_message(self@) == Some(s@),
            r is None ==> semantic_message(self@) is None,
    {
        match self {
            SemanticError::BreakOutsideLoop => Some(String::from_str("Break statement outside of loop")),
            SemanticError::ContinueOutsideLoop => Some(String::from_str("Continue statement outside of loop")),
            SemanticError::FunctionDeclaredTwice(n) => Some(framed("Function `", n.as_str(), "` is declared twice.")),
            SemanticError::NestedFunctionDefinition(n) => Some(framed("Nested function definition: `", n.as_str(), "`")),
            SemanticError::DeclaredTwice(n) => Some(framed("`", n.as_str(), "` is declared twice")),
            SemanticError::InvalidLvalue(_) => None,
            SemanticError::UndeclaredVariable(n) => Some(framed("Undeclared variable `", n.as_str(), "`")),
            SemanticError::UndeclaredFunction(n) => Some(framed("Undeclared function `", n.as_str(), "`")),
        }
    }
}

/// A result, and how many fresh numbers were drawn to compute it.
pub type Counted<X> = (Result<X, SpecSemanticError>, nat);

/// `c` after `front`, with `used` more numbers drawn before it.
pub open spec fn after<X>(front: Seq<X>, used: int, c: Counted<Seq<X>>) -> Counted<Seq<X>> {
    (match c.0 {
        Ok(tail) => Ok(front + tail),
        Err(x) => Err(x),
    }, (used + c.1) as nat)
}

/// The loop label numbered `n`.
pub open spec fn loop_label(n: int) -> Label {
    Label { kind: LabelKind::LoopStart, id: n as u32 }
}

/// Labels the loops of `s` with fresh numbers from `next` on, and points each
/// `break` and `continue` at the innermost enclosing loop `cur`.
pub open spec fn label_stmt(s: SpecStatement, cur: Option<Label>, next: int) -> Counted<SpecStatement>
    decreases s,
{
    match s {
        SpecStatement::Break(_) => match cur {
            Some(l) => (Ok(SpecStatement::Break(Some(Label { kind: LabelKind::Break, id: l.id }))), 0),
            None => (Err(SpecSemanticError::BreakOutsideLoop), 0),
        },
        SpecStatement::Continue(_) => match cur {
            Some(l) => (Ok(SpecStatement::Continue(Some(Label { kind: LabelKind::Continue, id: l.id }))), 0),
            None => (Err(SpecSemanticError::ContinueOutsideLoop), 0),
        },
        SpecStatement::While { cond, body, label: _ } => {
            let l = loop_label(next);
            let (r, n) = label_stmt(*body, Some(l), next + 1);
            (match r {
                Ok(b) => Ok(SpecStatement::While { cond, body: Box::new(b), label: Some(l) }),
                Err(x) => Err(x),
            }, n + 1)
        },
        SpecStatement::DoWhile { body, cond, label: _ } => {
            let l = loop_label(next);
            let (r, n) = label_stmt(*body, Some(l), next + 1);
            (match r {
                Ok(b) => Ok(SpecStatement::DoWhile { body: Box::new(b), cond, label: Some(l) }),
                Err(x) => Err(x),
            }, n + 1)
        },
        SpecStatement::For { init, cond, post, body, label: _ } => {
            let l = loop_label(next);
            let (r, n) = label_stmt(*body, Some(l), next + 1);
            (match r {
                Ok(b) => Ok(SpecStatement::For { init, cond, post, body: Box::new(b), label: Some(l) }),
                Err(x) => Err(x),
            }, n + 1)
        },
        SpecStatement::If { cond, then, else_ } => {
            let (r1, n1) = label_stmt(*then, cur, next);
            match r1 {
                Err(x) => (Err(x), n1),
                Ok(t) => match else_ {
                    Some(e) => {
                        let (r2, n2) = label_stmt(*e, cur, next + n1);
                        (match r2 {
                            Ok(e2) => Ok(SpecStatement::If { cond, then: Box::new(t), else_: Some(Box::new(e2)) }),
                            Err(x) => Err(x),
                        }, n1 + n2)
                    },
                    None => (Ok(SpecStatement::If { cond, then: Box::new(t), else_: None }), n1),
                },
            }
        },
        SpecStatement::Compound(items) => {
            let (r, n) = label_items(items, cur, next);
            (match r {
                Ok(b) => Ok(SpecStatement::Compound(b)),
                Err(x) => Err(x),
            }, n)
        },
        other => (Ok(other), 0),
    }
}

/// [`label_stmt`] over the statements of a block, in order; declarations are left as they are.
pub open spec fn label_items(items: Seq<SpecBlockItem>, cur: Option<Label>, next: int) -> Counted<Seq<SpecBlockItem>>
    decreases items,
{
    if items.len() == 0 {
        (Ok(seq![]), 0)
    } else {
        let (r1, n1) = match items[0] {
            SpecBlockItem::Statement(s) => {
                let (r, n) = label_stmt(s, cur, next);
                (match r {
                    Ok(s2) => Ok(SpecBlockItem::Statement(s2)),
                    Err(x) => Err(x),
                }, n)
            },
            other => (Ok(other), 0nat),
        };
        match r1 {
            Err(x) => (Err(x), n1),
            Ok(it) => {
                let (r2, n2) = label_items(items.drop_first(), cur, next + n1);
                (match r2 {
                    Ok(rest) => Ok(seq![it] + rest),
                    Err(x) => Err(x),
                }, n1 + n2)
            },
        }
    }
}

/// [`label_items`] over the bodies of the functions, in order.
pub open spec fn label_functions(fs: Seq<SpecFnDecl>, next: int) -> Counted<Seq<SpecFnDecl>>
    decreases fs.len(),
{
    if fs.len() == 0 {
        (Ok(seq![]), 0)
    } else {
        let f = fs[0];
        let (r1, n1) = match f.body {
            Some(b) => {
                let (r, n) = label_items(b, None, next);
                (match r {
                    Ok(b2) => Ok(SpecFnDecl { name: f.name, params: f.params, body: Some(b2) }),
                    Err(x) => Err(x),
                }, n)
            },
            None => (Ok(f), 0nat),
        };
        match r1 {
            Err(x) => (Err(x), n1),
            Ok(f2) => {
                let (r2, n2) = label_functions(fs.drop_first(), next + n1);
                (match r2 {
                    Ok(rest) => Ok(seq![f2] + rest),
                    Err(x) => Err(x),
                }, n1 + n2)
            },
        }
    }
}

/// What a scope records for a name.
#[derive(Debug, Clone, Copy)]
pub struct IdentifierMapEntry {
    /// The number given to the variable; 0 for functions.
    pub id: TempId,
    /// Declared in the innermost scope rather than inherited from an enclosing one.
    pub is_from_current_scope: bool,
    /// A function name, visible across scopes.
    pub has_linkage: bool,
}

/// A scope as a list of declarations, oldest first; a later one hides an earlier one of the same name.
pub type SpecScope = Seq<(Seq<char>, IdentifierMapEntry)>;

/// The latest declaration of `k` in `m`.
pub open spec fn scope_lookup(m: SpecScope, k: Seq<char>) -> Option<IdentifierMapEntry>
    decreases m.len(),
{
    if m.len() == 0 {
        None
    } else if m.last().0 == k {
        Some(m.last().1)
    } else {
        scope_lookup(m.drop_last(), k)
    }
}

/// The scope that a nested block starts with: every name inherited, none from the current scope.
pub open spec fn scope_copy(m: SpecScope) -> SpecScope {
    Seq::new(m.len(), |i: int| (m[i].0, IdentifierMapEntry {
        id: m[i].1.id,
        is_from_current_scope: false,
        has_linkage: m[i].1.has_linkage,
    }))
}

/// The unique name that resolution gives to `name` numbered `id`.
pub open spec fn qualified(name: Seq<char>, id: int) -> Seq<char> {
    name + "."@ + decimal(id)
}

/// Declares the variable `name` with number `next`; it must not be declared in the current scope.
pub open spec fn declare(name: Seq<char>, m: SpecScope, next: int) -> Result<SpecScope, SpecSemanticError> {
    match scope_lookup(m, name) {
        Some(e) => if e.is_from_current_scope {
            Err(SpecSemanticError::DeclaredTwice(name))
        } else {
            Ok(m.push((name, IdentifierMapEntry { id: TempId(next as u32), is_from_current_scope: true, has_linkage: false })))
        },
        None => Ok(m.push((name, IdentifierMapEntry { id: TempId(next as u32), is_from_current_scope: true, has_linkage: false }))),
    }
}

/// An expression that is a plain variable.
pub open spec fn is_var_expr(e: SpecExpression) -> bool {
    e matches SpecExpression::Factor(f) && *f matches SpecFactor::Var(_)
}

/// Gives each variable of `e` the number its declaration in `m` has, and each
/// called name its qualified form.
pub open spec fn res_expr(e: SpecExpression, m: SpecScope) -> Result<SpecExpression, SpecSemanticError>
    decreases e,
{
    match e {
        SpecExpression::Assign(l, r) => if is_var_expr(*l) {
            match res_expr(*l, m) {
                Ok(l2) => match res_expr(*r, m) {
                    Ok(r2) => Ok(SpecExpression::Assign(Box::new(l2), Box::new(r2))),
                    Err(x) => Err(x),
                },
                Err(x) => Err(x),
            }
        } else {
            Err(SpecSemanticError::InvalidLvalue(*l))
        },
        SpecExpression::Binary(op, a, b) => match res_expr(*a, m) {
            Ok(a2) => match res_expr(*b, m) {
                Ok(b2) => Ok(SpecExpression::Binary(op, Box::new(a2), Box::new(b2))),
                Err(x) => Err(x),
            },
            Err(x) => Err(x),
        },
        SpecExpression::Factor(f) => match res_factor(*f, m) {
            Ok(f2) => Ok(SpecExpression::Factor(Box::new(f2))),
            Err(x) => Err(x),
        },
        SpecExpression::Conditional { cond, then, else_ } => match res_expr(*cond, m) {
            Ok(c2) => match res_expr(*then, m) {
                Ok(t2) => match res_expr(*else_, m) {
                    Ok(e2) => Ok(SpecExpression::Conditional { cond: Box::new(c2), then: Box::new(t2), else_: Box::new(e2) }),
                    Err(x) => Err(x),
                },
                Err(x) => Err(x),
            },
            Err(x) => Err(x),
        },
    }
}

pub open spec fn res_factor(f: SpecFactor, m: SpecScope) -> Result<SpecFactor, SpecSemanticError>
    decreases f,
{
    match f {
        SpecFactor::Var(v) => match scope_lookup(m, v.name) {
            Some(entry) => Ok(SpecFactor::Var(SpecVar { name: v.name, id: Some(entry.id) })),
            None => Err(SpecSemanticError::UndeclaredVariable(v.name)),
        },
        SpecFactor::FunctionCall(name, args) => match scope_lookup(m, name) {
            Some(entry) => match res_args(args, m) {
                Ok(a2) => Ok(SpecFactor::FunctionCall(qualified(name, entry.id.0 as int), a2)),
                Err(x) => Err(x),
            },
            None => Err(SpecSemanticError::UndeclaredFunction(name)),
        },
        SpecFactor::Unary(op, g) => match res_factor(*g, m) {
            Ok(g2) => Ok(SpecFactor::Unary(op, Box::new(g2))),
            Err(x) => Err(x),
        },
        SpecFactor::Expression(e) => match res_expr(e, m) {
            Ok(e2) => Ok(SpecFactor::Expression(e2)),
            Err(x) => Err(x),
        },
        SpecFactor::Constant(i) => Ok(SpecFactor::Constant(i)),
    }
}

pub open spec fn res_args(args: Seq<SpecExpression>, m: SpecScope) -> Result<Seq<SpecExpression>, SpecSemanticError>
    decreases args,
{
    if args.len() == 0 {
        Ok(seq![])
    } else {
        match res_expr(args[0], m) {
            Ok(a) => match res_args(args.drop_first(), m) {
                Ok(rest) => Ok(seq![a] + rest),
                Err(x) => Err(x),
            },
            Err(x) => Err(x),
        }
    }
}

pub open spec fn res_opt_expr(e: Option<SpecExpression>, m: SpecScope) -> Result<Option<SpecExpression>, SpecSemanticError> {
    match e {
        Some(x) => match res_expr(x, m) {
            Ok(y) => Ok(Some(y)),
            Err(z) => Err(z),
        },
        None => Ok(None),
    }
}

/// Declares the variable of `d` with number `next`, then resolves its initialiser.
pub open spec fn res_var_decl(d: SpecVarDecl, m: SpecScope, next: int) -> Counted<(SpecVarDecl, SpecScope)> {
    match declare(d.var.name, m, next) {
        Err(x) => (Err(x), 0),
        Ok(m2) => (match res_opt_expr(d.init, m2) {
            Ok(i2) => Ok((SpecVarDecl { var: SpecVar { name: d.var.name, id: Some(TempId(next as u32)) }, init: i2 }, m2)),
            Err(x) => Err(x),
        }, 1),
    }
}

/// Resolves the names of `s`; nested blocks and `for` loops get scopes of their own.
pub open spec fn res_stmt(s: SpecStatement, m: SpecScope, next: int) -> Counted<SpecStatement>
    decreases s,
{
    match s {
        SpecStatement::Return(e) => (match res_expr(e, m) {
            Ok(e2) => Ok(SpecStatement::Return(e2)),
            Err(x) => Err(x),
        }, 0),
        SpecStatement::Expression(e) => (match res_expr(e, m) {
            Ok(e2) => Ok(SpecStatement::Expression(e2)),
            Err(x) => Err(x),
        }, 0),
        SpecStatement::If { cond, then, else_ } => {
            let (r1, n1) = res_stmt(*then, m, next);
            match r1 {
                Err(x) => (Err(x), n1),
                Ok(t2) => match else_ {
                    Some(es) => {
                        let (r2, n2) = res_stmt(*es, m, next + n1);
                        (match r2 {
                            Err(x) => Err(x),
                            Ok(e2) => match res_expr(cond, m) {
                                Ok(c2) => Ok(SpecStatement::If { cond: c2, then: Box::new(t2), else_: Some(Box::new(e2)) }),
                                Err(x) => Err(x),
                            },
                        }, n1 + n2)
                    },
                    None => (match res_expr(cond, m) {
                        Ok(c2) => Ok(SpecStatement::If { cond: c2, then: Box::new(t2), else_: None }),
                        Err(x) => Err(x),
                    }, n1),
                },
            }
        },
        SpecStatement::Compound(items) => {
            let (r, n) = res_items(items, scope_copy(m), next);
            (match r {
                Ok((b, _)) => Ok(SpecStatement::Compound(b)),
                Err(x) => Err(x),
            }, n)
        },
        SpecStatement::While { cond, body, label } => match res_expr(cond, m) {
            Err(x) => (Err(x), 0),
            Ok(c2) => {
                let (r, n) = res_stmt(*body, m, next);
                (match r {
                    Ok(b2) => Ok(SpecStatement::While { cond: c2, body: Box::new(b2), label }),
                    Err(x) => Err(x),
                }, n)
            },
        },
        SpecStatement::DoWhile { body, cond, label } => match res_expr(cond, m) {
            Err(x) => (Err(x), 0),
            Ok(c2) => {
                let (r, n) = res_stmt(*body, m, next);
                (match r {
                    Ok(b2) => Ok(SpecStatement::DoWhile { body: Box::new(b2), cond: c2, label }),
                    Err(x) => Err(x),
                }, n)
            },
        },
        SpecStatement::For { init, cond, post, body, label } => {
            let m1 = scope_copy(m);
            let (ri, n1) = match init {
                SpecForInit::InitDecl(d) => {
                    let (r, n) = res_var_decl(d, m1, next);
                    (match r {
                        Ok((d2, m2)) => Ok((SpecForInit::InitDecl(d2), m2)),
                        Err(x) => Err(x),
                    }, n)
                },
                SpecForInit::InitExp(e) => (match res_opt_expr(e, m1) {
                    Ok(e2) => Ok((SpecForInit::InitExp(e2), m1)),
                    Err(x) => Err(x),
                }, 0nat),
            };
            match ri {
                Err(x) => (Err(x), n1),
                Ok((i2, m2)) => match res_opt_expr(cond, m2) {
                    Err(x) => (Err(x), n1),
                    Ok(c2) => match res_opt_expr(post, m2) {
                        Err(x) => (Err(x), n1),
                        Ok(p2) => {
                            let (rb, n2) = res_stmt(*body, m2, next + n1);
                            (match rb {
                                Ok(b2) => Ok(SpecStatement::For { init: i2, cond: c2, post: p2, body: Box::new(b2), label }),
                                Err(x) => Err(x),
                            }, n1 + n2)
                        },
                    },
                },
            }
        },
        other => (Ok(other), 0),
    }
}

/// Resolves one block item; declarations extend the scope.
pub open spec fn res_item(it: SpecBlockItem, m: SpecScope, next: int) -> Counted<(SpecBlockItem, SpecScope)>
    decreases it,
{
    match it {
        SpecBlockItem::Declaration(SpecDeclaration::VarDecl(d)) => {
            let (r, n) = res_var_decl(d, m, next);
            (match r {
                Ok((d2, m2)) => Ok((SpecBlockItem::Declaration(SpecDeclaration::VarDecl(d2)), m2)),
                Err(x) => Err(x),
            }, n)
        },
        SpecBlockItem::Declaration(SpecDeclaration::FnDecl(f)) => if f.body is None {
            let (r, n) = res_fn_decl(f, m, next);
            (match r {
                Ok((f2, m2)) => Ok((SpecBlockItem::Declaration(SpecDeclaration::FnDecl(f2)), m2)),
                Err(x) => Err(x),
            }, n)
        } else {
            (Err(SpecSemanticError::NestedFunctionDefinition(f.name)), 0)
        },
        SpecBlockItem::Statement(st) => {
            let (r, n) = res_stmt(st, m, next);
            (match r {
                Ok(s2) => Ok((SpecBlockItem::Statement(s2), m)),
                Err(x) => Err(x),
            }, n)
        },
    }
}

/// Resolves the items of a block in order, threading the scope through them.
pub open spec fn res_items(items: Seq<SpecBlockItem>, m: SpecScope, next: int) -> Counted<(Seq<SpecBlockItem>, SpecScope)>
    decreases items,
{
    if items.len() == 0 {
        (Ok((seq![], m)), 0)
    } else {
        let (r1, n1) = res_item(items[0], m, next);
        match r1 {
            Err(x) => (Err(x), n1),
            Ok((it, m2)) => {
                let (r2, n2) = res_items(items.drop_first(), m2, next + n1);
                (match r2 {
                    Ok((rest, m3)) => Ok((seq![it] + rest, m3)),
                    Err(x) => Err(x),
                }, n1 + n2)
            },
        }
    }
}

/// Declares a parameter with number `next` and gives it its qualified name.
pub open spec fn res_param(p: SpecParam, m: SpecScope, next: int) -> Counted<(SpecParam, SpecScope)> {
    match p.name {
        None => (Ok((p, m)), 0),
        Some(n) => match declare(n, m, next) {
            Err(x) => (Err(x), 0),
            Ok(m2) => (Ok((SpecParam { keyword: p.keyword, name: Some(qualified(n, next)), id: Some(TempId(next as u32)) }, m2)), 1),
        },
    }
}

pub open spec fn res_params(ps: Seq<SpecParam>, m: SpecScope, next: int) -> Counted<(Seq<SpecParam>, SpecScope)>
    decreases ps.len(),
{
    if ps.len() == 0 {
        (Ok((seq![], m)), 0)
    } else {
        let (r1, n1) = res_param(ps[0], m, next);
        match r1 {
            Err(x) => (Err(x), n1),
            Ok((p2, m2)) => {
                let (r2, n2) = res_params(ps.drop_first(), m2, next + n1);
                (match r2 {
                    Ok((rest, m3)) => Ok((seq![p2] + rest, m3)),
                    Err(x) => Err(x),
                }, n1 + n2)
            },
        }
    }
}

/// Declares the function in `m`, then resolves its parameters and body in a scope of their own.
pub open spec fn res_fn_decl(f: SpecFnDecl, m: SpecScope, next: int) -> Counted<(SpecFnDecl, SpecScope)>
    decreases f,
{
    if scope_lookup(m, f.name) matches Some(e) && e.is_from_current_scope && !e.has_linkage {
        (Err(SpecSemanticError::FunctionDeclaredTwice(f.name)), 0)
    } else {
        let m2 = m.push((f.name, IdentifierMapEntry { id: TempId(0), is_from_current_scope: true, has_linkage: true }));
        let (rp, n1) = res_params(f.params, scope_copy(m2), next);
        match rp {
            Err(x) => (Err(x), n1),
            Ok((ps2, inner)) => match f.body {
                None => (Ok((SpecFnDecl { name: f.name, params: ps2, body: None }, m2)), n1),
                Some(b) => {
                    let (rb, n2) = res_items(b, inner, next + n1);
                    (match rb {
                        Ok((b2, _)) => Ok((SpecFnDecl { name: f.name, params: ps2, body: Some(b2) }, m2)),
                        Err(x) => Err(x),
                    }, n1 + n2)
                },
            },
        }
    }
}

/// Resolves the functions in order in one global scope.
pub open spec fn res_functions(fs: Seq<SpecFnDecl>, m: SpecScope, next: int) -> Counted<Seq<SpecFnDecl>>
    decreases fs.len(),
{
    if fs.len() == 0 {
        (Ok(seq![]), 0)
    } else {
        let (r1, n1) = res_fn_decl(fs[0], m, next);
        match r1 {
            Err(x) => (Err(x), n1),
            Ok((f2, m2)) => {
                let (r2, n2) = res_functions(fs.drop_first(), m2, next + n1);
                (match r2 {
                    Ok(rest) => Ok(seq![f2] + rest),
                    Err(x) => Err(x),
                }, n1 + n2)
            },
        }
    }
}

struct IdentifierSlot {
    name: String,
    entry: IdentifierMapEntry,
}

/// The names in scope, oldest declaration first.
struct IdentifierMap {
    slots: Vec<IdentifierSlot>,
}

impl View for IdentifierMap {
    type V = SpecScope;

    closed spec fn view(&self) -> SpecScope {
        Seq::new(self.slots@.len(), |i: int| (self.slots@[i].name@, self.slots@[i].entry))
    }
}

impl IdentifierMap {
    fn new() -> (m: Self)
        ensures
            m@ == Seq::<(Seq<char>, IdentifierMapEntry)>::empty(),
    {
        let m = IdentifierMap { slots: Vec::new() };
        assert(m@ =~= Seq::<(Seq<char>, IdentifierMapEntry)>::empty());
        m
    }

    fn get(&self, name: &String) -> (r: Option<IdentifierMapEntry>)
        ensures
            r == scope_lookup(self@, name@),
    {
        let mut i = self.slots.len();
        assert(self@.take(i as int) =~= self@);
        while i > 0
            invariant
                i <= self.slots@.len(),
                scope_lookup(self@, name@) == scope_lookup(self@.take(i as int), name@),
            decreases i,
        {
            let ghost prefix = self@.take(i as int);
            assert(prefix.drop_last() =~= self@.take(i - 1));
            if self.slots[i - 1].name.eq(name) {
                return Some(self.slots[i - 1].entry);
            }
            i = i - 1;
        }
        None
    }

    fn insert(&mut self, name: String, entry: IdentifierMapEntry)
        ensures
            final(self)@ == old(self)@.push((name@, entry)),
    {
        self.slots.push(IdentifierSlot { name, entry });
        assert(self@ =~= old(self)@.push((name@, entry)));
    }
}

/// A copy of the scope for a nested block: nothing in it is from the current scope.
fn copy_id_map(id_map: &IdentifierMap) -> (m: IdentifierMap)
    ensures
        m@ == scope_copy(id_map@),
{
    let mut slots: Vec<IdentifierSlot> = Vec::new();
    let mut i: usize = 0;
    while i < id_map.slots.len()
        invariant
            i <= id_map.slots@.len(),
            slots@.len() == i,
            forall|j: int| 0 <= j < i ==> (#[trigger] slots@[j]).name@ == id_map.slots@[j].name@ && slots@[j].entry == (IdentifierMapEntry {
                id: id_map.slots@[j].entry.id,
                is_from_current_scope: false,
                has_linkage: id_map.slots@[j].entry.has_linkage,
            }),
        decreases id_map.slots@.len() - i,
    {
        let e = id_map.slots[i].entry;
        slots.push(IdentifierSlot {
            name: id_map.slots[i].name.clone(),
            entry: IdentifierMapEntry { id: e.id, is_from_current_scope: false, has_linkage: e.has_linkage },
        });
        i = i + 1;
    }
    let m = IdentifierMap { slots };
    assert(m@ =~= scope_copy(id_map@));
    m
}

/// The qualified name `name.id`.
fn qualify(name: &String, id: u32) -> (s: String)
    ensures
        s@ == qualified(name@, id as int),
{
    let mut s = name.clone();
    s.append(".");
    let digits = int_text(id as i64);
    s.append(digits.as_str());
    s
}

/// Resolves names and labels loops; hands out fresh variable and label numbers.
pub struct SemanticAnalyzer {
    next_var_id: u32,
    next_label_id: u32,
}

impl Default for SemanticAnalyzer {
    fn default() -> (s: Self)
        ensures
            s.var_counter() == 1,
            s.label_counter() == 0,
    {
        Self::new()
    }
}

impl SemanticAnalyzer {
    pub closed spec fn var_counter(&self) -> int {
        self.next_var_id as int
    }

    pub closed spec fn label_counter(&self) -> int {
        self.next_label_id as int
    }

    /// Variable numbers start at 1: number 0 stands for functions.
    pub fn new() -> (s: Self)
        ensures
            s.var_counter() == 1,
            s.label_counter() == 0,
    {
        SemanticAnalyzer { next_var_id: 1, next_label_id: 0 }
    }

    fn create_unique_var(&mut self) -> (t: TempId)
        requires
            old(self).next_var_id < u32::MAX,
        ensures
            t.0 == old(self).next_var_id,
            final(self).next_var_id == old(self).next_var_id + 1,
            final(self).next_label_id == old(self).next_label_id,
    {
        let unique_var = TempId(self.next_var_id);
        self.next_var_id = self.next_var_id + 1;
        unique_var
    }

    fn create_jump_label(&mut self, kind: LabelKind) -> (l: Label)
        requires
            old(self).next_label_id < u32::MAX,
        ensures
            l == (Label { kind, id: old(self).next_label_id }),
            final(self).next_label_id == old(self).next_label_id + 1,
            final(self).next_var_id == old(self).next_var_id,
    {
        let id = self.next_label_id;
        self.next_label_id = self.next_label_id + 1;
        Label { kind, id }
    }

    /// The next variable number to hand out.
    pub fn get_next_var_id(&self) -> (n: u32)
        ensures
            n == self.var_counter(),
    {
        self.next_var_id
    }

    /// The next label number to hand out.
    pub fn get_next_label_id(&self) -> (n: u32)
        ensures
            n == self.label_counter(),
    {
        self.next_label_id
    }

    /// Labels every loop of every function body with a fresh number and
    /// points each `break` and `continue` at its innermost loop.
    ///
    /// On an error the program's contents are not specified.
    pub fn label_loops(&mut self, program: &mut CProgram) -> (r: Result<(), SemanticError>)
        requires
            old(self).label_counter() + label_functions(old(program)@.functions, old(self).label_counter()).1 <= u32::MAX,
        ensures
            final(self).var_counter() == old(self).var_counter(),
            final(self).label_counter() == old(self).label_counter() + label_functions(old(program)@.functions, old(self).label_counter()).1,
            match label_functions(old(program)@.functions, old(self).label_counter()).0 {
                Ok(fs) => r is Ok && final(program)@ == (SpecProgram { functions: fs }),
                Err(x) => r matches Err(e) && e@ == x,
            },
    {
        let ghost fs0 = program@.functions;
        let ghost n0 = self.next_label_id as int;
        let mut rest = CProgram { functions: Vec::new() };
        std::mem::swap(&mut rest, program);
        let mut functions = rest.functions;
        let mut done: Vec<crate::parser::c_ast::CFnDecl> = Vec::new();
        assert(fns_view(functions@) =~= fs0);
        while functions.len() > 0
            invariant
                fs0 == old(program)@.functions,
                n0 == old(self).next_label_id,
                n0 + label_functions(fs0, n0).1 <= u32::MAX,
                self.next_var_id == old(self).next_var_id,
                n0 <= self.next_label_id,
                label_functions(fs0, n0) == after(fns_view(done@), self.next_label_id - n0,
                    label_functions(fns_view(functions@), self.next_label_id as int)),
            decreases functions.len(),
        {
            let ghost fv = fns_view(functions@);
            let ghost dv = fns_view(done@);
            let f = functions.remove(0);
            assert(fns_view(functions@) =~= fv.drop_first());
            let ghost fspec = fv[0];
            assert(fspec == f.view_of());
            let crate::parser::c_ast::CFnDecl { name, params, body } = f;
            let f2 = match body {
                Some(b) => {
                    assert(fspec.body == Some(b@));
                    let ghost cnt = self.next_label_id as int;
                    let ghost bv = b@;
                    match self.label_block(b, None) {
                        Ok(b2) => crate::parser::c_ast::CFnDecl { name, params, body: Some(b2) },
                        Err(e) => {
                            assert(label_items(bv, None, cnt).0 == Err::<Seq<SpecBlockItem>, SpecSemanticError>(e@));
                            assert(label_functions(fv, cnt).0 == Err::<Seq<SpecFnDecl>, SpecSemanticError>(e@));
                            assert(label_functions(fv, cnt).1 == label_items(bv, None, cnt).1);
                            return Err(e);
                        },
                    }
                },
                None => crate::parser::c_ast::CFnDecl { name, params, body: None },
            };
            done.push(f2);
            proof {
                assert(fns_view(done@) =~= dv.push(f2.view_of()));
                let (r2, n2) = label_functions(fns_view(functions@), self.next_label_id as int);
                match r2 {
                    Ok(tail) => {
                        assert(dv + (seq![f2.view_of()] + tail) =~= fns_view(done@) + tail);
                    },
                    Err(_) => {},
                }
            }
        }
        assert(fns_view(done@) + seq![] =~= fns_view(done@));
        *program = CProgram { functions: done };
        Ok(())
    }

    fn label_block(&mut self, block: CBlock, curr_label: Option<Label>) -> (r: Result<CBlock, SemanticError>)
        requires
            old(self).next_label_id + label_items(block@, curr_label, old(self).next_label_id as int).1 <= u32::MAX,
        ensures
            final(self).next_var_id == old(self).next_var_id,
            final(self).next_label_id == old(self).next_label_id + label_items(block@, curr_label, old(self).next_label_id as int).1,
            match label_items(block@, curr_label, old(self).next_label_id as int).0 {
                Ok(b) => r matches Ok(b2) && b2@ == b,
                Err(x) => r matches Err(e) && e@ == x,
            },
        decreases block@, 0int,
    {
        let ghost all = block@;
        let ghost n0 = self.next_label_id as int;
        let mut items = block.0;
        let mut done: Vec<CBlockItem> = Vec::new();
        let ghost mut k: int = 0;
        assert(items_view(items@) =~= all.subrange(0, all.len() as int));
        while items.len() > 0
            invariant
                0 <= k <= all.len(),
                items_view(items@) == all.subrange(k, all.len() as int),
                n0 + label_items(all, curr_label, n0).1 <= u32::MAX,
                self.next_var_id == old(self).next_var_id,
                n0 == old(self).next_label_id,
                n0 <= self.next_label_id,
                all == block@,
                label_items(all, curr_label, n0) == after(items_view(done@), self.next_label_id - n0,
                    label_items(items_view(items@), curr_label, self.next_label_id as int)),
            decreases items.len(),
        {
            let ghost iv = items_view(items@);
            let ghost dv = items_view(done@);
            let item = items.remove(0);
            assert(items_view(items@) =~= iv.drop_first());
            assert(item.view_of() == all[k]);
            proof {
                k = k + 1;
                assert(items_view(items@) =~= all.subrange(k, all.len() as int));
            }
            let item2 = match item {
                CBlockItem::Statement(s) => {
                    assert(decreases_to!(all => all[k - 1]));
                    assert(decreases_to!(all[k - 1] => s@));
                    assert(decreases_to!(block@ => s@));
                    match self.label_statement(s, curr_label) {
                        Ok(s2) => CBlockItem::Statement(s2),
                        Err(e) => return Err(e),
                    }
                },
                other => other,
            };
            done.push(item2);
            proof {
                assert(items_view(done@) =~= dv.push(item2.view_of()));
                let (r2, n2) = label_items(items_view(items@), curr_label, self.next_label_id as int);
                match r2 {
                    Ok(tail) => {
                        assert(dv + (seq![item2.view_of()] + tail) =~= items_view(done@) + tail);
                    },
                    Err(_) => {},
                }
            }
        }
        assert(items_view(done@) + seq![] =~= items_view(done@));
        Ok(CBlock(done))
    }

    fn label_statement(&mut self, statement: CStatement, curr_label: Option<Label>) -> (r: Result<CStatement, SemanticError>)
        requires
            old(self).next_label_id + label_stmt(statement@, curr_label, old(self).next_label_id as int).1 <= u32::MAX,
        ensures
            final(self).next_var_id == old(self).next_var_id,
            final(self).next_label_id == old(self).next_label_id + label_stmt(statement@, curr_label, old(self).next_label_id as int).1,
            match label_stmt(statement@, curr_label, old(self).next_label_id as int).0 {
                Ok(s) => r matches Ok(s2) && s2@ == s,
                Err(x) => r matches Err(e) && e@ == x,
            },
        decreases statement@, 1int,
    {
        match statement {
            CStatement::Break(_) => match curr_label {
                Some(l) => Ok(CStatement::Break(Some(Label { kind: LabelKind::Break, id: l.id }))),
                None => Err(SemanticError::BreakOutsideLoop),
            },
            CStatement::Continue(_) => match curr_label {
                Some(l) => Ok(CStatement::Continue(Some(Label { kind: LabelKind::Continue, id: l.id }))),
                None => Err(SemanticError::ContinueOutsideLoop),
            },
            CStatement::While { cond, body, label: _ } => {
                let new_label = self.create_jump_label(LabelKind::LoopStart);
                match self.label_statement(*body, Some(new_label)) {
                    Ok(b) => Ok(CStatement::While { cond, body: Box::new(b), label: Some(new_label) }),
                    Err(e) => Err(e),
                }
            },
            CStatement::DoWhile { body, cond, label: _ } => {
                let new_label = self.create_jump_label(LabelKind::LoopStart);
                match self.label_statement(*body, Some(new_label)) {
                    Ok(b) => Ok(CStatement::DoWhile { body: Box::new(b), cond, label: Some(new_label) }),
                    Err(e) => Err(e),
                }
            },
            CStatement::For { init, cond, post, body, label: _ } => {
                let new_label = self.create_jump_label(LabelKind::LoopStart);
                match self.label_statement(*body, Some(new_label)) {
                    Ok(b) => Ok(CStatement::For { init, cond, post, body: Box::new(b), label: Some(new_label) }),
                    Err(e) => Err(e),
                }
            },
            CStatement::If { cond, then, else_ } => {
                let t = match self.label_statement(*then, curr_label) {
                    Ok(t) => t,
                    Err(e) => return Err(e),
                };
                match else_ {
                    Some(s) => match self.label_statement(*s, curr_label) {
                        Ok(e2) => Ok(CStatement::If { cond, then: Box::new(t), else_: Some(Box::new(e2)) }),
                        Err(e) => Err(e),
                    },
                    None => Ok(CStatement::If { cond, then: Box::new(t), else_: None }),
                }
            },
            CStatement::Compound(block) => match self.label_block(block, curr_label) {
                Ok(b) => Ok(CStatement::Compound(b)),
                Err(e) => Err(e),
            },
            other => Ok(other),
        }
    }

    /// Gives every variable a unique number and every parameter and called
    /// name its qualified form, in one global scope for the functions.
    ///
    /// On an error the program's contents are not specified.
    pub fn resolve_variables(&mut self, program: &mut CProgram) -> (r: Result<(), SemanticError>)
        requires
            old(self).var_counter() + res_functions(old(program)@.functions, Seq::empty(), old(self).var_counter()).1 <= u32::MAX,
        ensures
            final(self).label_counter() == old(self).label_counter(),
            final(self).var_counter() == old(self).var_counter() + res_functions(old(program)@.functions, Seq::empty(), old(self).var_counter()).1,
            match res_functions(old(program)@.functions, Seq::empty(), old(self).var_counter()).0 {
                Ok(fs) => r is Ok && final(program)@ == (SpecProgram { functions: fs }),
                Err(x) => r matches Err(e) && e@ == x,
            },
    {
        let ghost fs0 = program@.functions;
        let ghost n0 = self.next_var_id as int;
        let mut var_map = IdentifierMap::new();
        let mut rest = CProgram { functions: Vec::new() };
        std::mem::swap(&mut rest, program);
        let mut functions = rest.functions;
        let mut done: Vec<CFnDecl> = Vec::new();
        assert(fns_view(functions@) =~= fs0);
        assert(fns_view(done@) + fs0 =~= fs0);
        while functions.len() > 0
            invariant
                fs0 == old(program)@.functions,
                n0 == old(self).next_var_id,
                n0 + res_functions(fs0, Seq::empty(), n0).1 <= u32::MAX,
                self.next_label_id == old(self).next_label_id,
                n0 <= self.next_var_id,
                res_functions(fs0, Seq::empty(), n0) == after(fns_view(done@), self.next_var_id - n0,
                    res_functions(fns_view(functions@), var_map@, self.next_var_id as int)),
            decreases functions.len(),
        {
            let ghost fv = fns_view(functions@);
            let ghost dv = fns_view(done@);
            let ghost cnt = self.next_var_id as int;
            let ghost m = var_map@;
            let f = functions.remove(0);
            assert(fns_view(functions@) =~= fv.drop_first());
            assert(f.view_of() == fv[0]);
            match self.resolve_fn_declaration(f, &mut var_map) {
                Ok(f2) => {
                    done.push(f2);
                    proof {
                        assert(fns_view(done@) =~= dv.push(f2.view_of()));
                        let (r2, n2) = res_functions(fns_view(functions@), var_map@, self.next_var_id as int);
                        match r2 {
                            Ok(tail) => {
                                assert(dv + (seq![f2.view_of()] + tail) =~= fns_view(done@) + tail);
                            },
                            Err(_) => {},
                        }
                    }
                },
                Err(e) => {
                    return Err(e);
                },
            }
        }
        assert(fns_view(done@) + seq![] =~= fns_view(done@));
        *program = CProgram { functions: done };
        Ok(())
    }

    fn resolve_fn_declaration(&mut self, function: CFnDecl, id_map: &mut IdentifierMap) -> (r: Result<CFnDecl, SemanticError>)
        requires
            old(self).next_var_id + res_fn_decl(function@, old(id_map)@, old(self).next_var_id as int).1 <= u32::MAX,
        ensures
            final(self).next_label_id == old(self).next_label_id,
            final(self).next_var_id == old(self).next_var_id + res_fn_decl(function@, old(id_map)@, old(self).next_var_id as int).1,
            match res_fn_decl(function@, old(id_map)@, old(self).next_var_id as int).0 {
                Ok((f2, m2)) => r matches Ok(v) && v@ == f2 && final(id_map)@ == m2,
                Err(x) => r matches Err(e) && e@ == x,
            },
        decreases function@, 3int,
    {
        let ghost fv = function@;
        match id_map.get(&function.name) {
            Some(entry) => {
                if entry.is_from_current_scope && !entry.has_linkage {
                    return Err(SemanticError::FunctionDeclaredTwice(function.name));
                }
            },
            None => {},
        }
        id_map.insert(
            function.name.clone(),
            IdentifierMapEntry { id: TempId(0), is_from_current_scope: true, has_linkage: true },
        );
        let mut inner_map = copy_id_map(id_map);
        let ghost m2 = id_map@;
        assert(m2 == old(id_map)@.push((fv.name, IdentifierMapEntry { id: TempId(0), is_from_current_scope: true, has_linkage: true })));
        assert(!(scope_lookup(old(id_map)@, fv.name) matches Some(e) && e.is_from_current_scope && !e.has_linkage));
        let CFnDecl { name, params, body } = function;
        let ghost n0 = self.next_var_id as int;
        let ghost pv = params_view(params@);
        let ghost inner0 = inner_map@;
        let mut params = params;
        let mut done: Vec<CParam> = Vec::new();
        while params.len() > 0
            invariant
                n0 == old(self).next_var_id,
                pv == fv.params,
                fv == function@,
                m2 == old(id_map)@.push((fv.name, IdentifierMapEntry { id: TempId(0), is_from_current_scope: true, has_linkage: true })),
                !(scope_lookup(old(id_map)@, fv.name) matches Some(e) && e.is_from_current_scope && !e.has_linkage),
                id_map@ == m2,
                inner0 == scope_copy(m2),
                n0 <= self.next_var_id,
                self.next_label_id == old(self).next_label_id,
                n0 + res_params(pv, inner0, n0).1 <= u32::MAX,
                res_params(pv, inner0, n0) == after_scoped(params_view(done@), self.next_var_id - n0,
                    res_params(params_view(params@), inner_map@, self.next_var_id as int)),
            decreases params.len(),
        {
            let ghost rv = params_view(params@);
            let ghost dv = params_view(done@);
            let p = params.remove(0);
            assert(params_view(params@) =~= rv.drop_first());
            match self.resolve_param(p, &mut inner_map) {
                Ok(p2) => {
                    done.push(p2);
                    proof {
                        assert(params_view(done@) =~= dv.push(p2.view_of()));
                        let (r2, n2) = res_params(params_view(params@), inner_map@, self.next_var_id as int);
                        match r2 {
                            Ok((tail, m3)) => {
                                assert(dv + (seq![p2.view_of()] + tail) =~= params_view(done@) + tail);
                            },
                            Err(_) => {},
                        }
                    }
                },
                Err(e) => return Err(e),
            }
        }
        assert(params_view(done@) + seq![] =~= params_view(done@));
        assert(res_params(pv, inner0, n0) == (Ok::<(Seq<SpecParam>, SpecScope), SpecSemanticError>((params_view(done@), inner_map@)), (self.next_var_id - n0) as nat));
        let body2 = match body {
            Some(b) => {
                assert(fv.body == Some(b@));
                assert(decreases_to!(fv => b@));
                match self.resolve_block(b, &mut inner_map) {
                    Ok(b2) => Some(b2),
                    Err(e) => return Err(e),
                }
            },
            None => None,
        };
        Ok(CFnDecl { name, params: done, body: body2 })
    }

    fn resolve_param(&mut self, param: CParam, id_map: &mut IdentifierMap) -> (r: Result<CParam, SemanticError>)
        requires
            old(self).next_var_id + res_param(param@, old(id_map)@, old(self).next_var_id as int).1 <= u32::MAX,
        ensures
            final(self).next_label_id == old(self).next_label_id,
            final(self).next_var_id == old(self).next_var_id + res_param(param@, old(id_map)@, old(self).next_var_id as int).1,
            match res_param(param@, old(id_map)@, old(self).next_var_id as int).0 {
                Ok((p2, m2)) => r matches Ok(v) && v@ == p2 && final(id_map)@ == m2,
                Err(x) => r matches Err(e) && e@ == x,
            },
    {
        let CParam { keyword, name, id } = param;
        match name {
            Some(n) => {
                let new_id = match self.get_var_or_param_id(&n, id_map) {
                    Ok(i) => i,
                    Err(e) => return Err(e),
                };
                let q = qualify(&n, new_id.0);
                Ok(CParam { keyword, name: Some(q), id: Some(new_id) })
            },
            None => Ok(CParam { keyword, name: None, id }),
        }
    }

    fn get_var_or_param_id(&mut self, name: &String, id_map: &mut IdentifierMap) -> (r: Result<TempId, SemanticError>)
        requires
            declare(name@, old(id_map)@, old(self).next_var_id as int) is Ok ==> old(self).next_var_id < u32::MAX,
        ensures
            final(self).next_label_id == old(self).next_label_id,
            match declare(name@, old(id_map)@, old(self).next_var_id as int) {
                Ok(m2) => r == Ok::<TempId, SemanticError>(TempId(old(self).next_var_id)) && final(id_map)@ == m2
                    && final(self).next_var_id == old(self).next_var_id + 1,
                Err(x) => r matches Err(e) && e@ == x && final(self).next_var_id == old(self).next_var_id,
            },
    {
        match id_map.get(name) {
            Some(entry) => {
                if entry.is_from_current_scope {
                    return Err(SemanticError::DeclaredTwice(name.clone()));
                }
            },
            None => {},
        }
        let id = self.create_unique_var();
        id_map.insert(name.clone(), IdentifierMapEntry { id, is_from_current_scope: true, has_linkage: false });
        Ok(id)
    }

    fn resolve_var_declaration(&mut self, var_decl: CVarDecl, id_map: &mut IdentifierMap) -> (r: Result<CVarDecl, SemanticError>)
        requires
            old(self).next_var_id + res_var_decl(var_decl@, old(id_map)@, old(self).next_var_id as int).1 <= u32::MAX,
        ensures
            final(self).next_label_id == old(self).next_label_id,
            final(self).next_var_id == old(self).next_var_id + res_var_decl(var_decl@, old(id_map)@, old(self).next_var_id as int).1,
            match res_var_decl(var_decl@, old(id_map)@, old(self).next_var_id as int).0 {
                Ok((d2, m2)) => r matches Ok(v) && v@ == d2 && final(id_map)@ == m2,
                Err(x) => r matches Err(e) && e@ == x,
            },
    {
        let CVarDecl { var, init } = var_decl;
        let CVar { name, id: _ } = var;
        let new_id = match self.get_var_or_param_id(&name, id_map) {
            Ok(i) => i,
            Err(e) => return Err(e),
        };
        let init2 = match self.resolve_optional_expression(init, id_map) {
            Ok(i) => i,
            Err(e) => return Err(e),
        };
        Ok(CVarDecl { var: CVar { name, id: Some(new_id) }, init: init2 })
    }

    fn resolve_block(&mut self, block: CBlock, id_map: &mut IdentifierMap) -> (r: Result<CBlock, SemanticError>)
        requires
            old(self).next_var_id + res_items(block@, old(id_map)@, old(self).next_var_id as int).1 <= u32::MAX,
        ensures
            final(self).next_label_id == old(self).next_label_id,
            final(self).next_var_id == old(self).next_var_id + res_items(block@, old(id_map)@, old(self).next_var_id as int).1,
            match res_items(block@, old(id_map)@, old(self).next_var_id as int).0 {
                Ok((b2, m2)) => r matches Ok(v) && v@ == b2 && final(id_map)@ == m2,
                Err(x) => r matches Err(e) && e@ == x,
            },
        decreases block@, 2int,
    {
        let ghost all = block@;
        let ghost n0 = self.next_var_id as int;
        let ghost m0 = id_map@;
        let mut items = block.0;
        let mut done: Vec<CBlockItem> = Vec::new();
        let ghost mut k: int = 0;
        assert(items_view(items@) =~= all.subrange(0, all.len() as int));
        while items.len() > 0
            invariant
                0 <= k <= all.len(),
                items_view(items@) == all.subrange(k, all.len() as int),
                all == block@,
                n0 == old(self).next_var_id,
                m0 == old(id_map)@,
                n0 <= self.next_var_id,
                self.next_label_id == old(self).next_label_id,
                n0 + res_items(all, m0, n0).1 <= u32::MAX,
                res_items(all, m0, n0) == after_scoped(items_view(done@), self.next_var_id - n0,
                    res_items(items_view(items@), id_map@, self.next_var_id as int)),
            decreases items.len(),
        {
            let ghost iv = items_view(items@);
            let ghost dv = items_view(done@);
            let ghost cnt = self.next_var_id as int;
            let ghost mcur = id_map@;
            let item = items.remove(0);
            assert(items_view(items@) =~= iv.drop_first());
            assert(item.view_of() == all[k]);
            assert(iv[0] == all[k]);
            assert(res_items(iv, mcur, cnt).1 >= res_item(iv[0], mcur, cnt).1);
            assert(decreases_to!(all => all[k]));
            assert(decreases_to!(block@ => item@));
            proof {
                k = k + 1;
                assert(items_view(items@) =~= all.subrange(k, all.len() as int));
            }
            let item2 = match self.resolve_block_item(item, id_map) {
                Ok(it) => it,
                Err(e) => return Err(e),
            };
            done.push(item2);
            proof {
                assert(items_view(done@) =~= dv.push(item2.view_of()));
                let (r2, n2) = res_items(items_view(items@), id_map@, self.next_var_id as int);
                match r2 {
                    Ok((tail, m3)) => {
                        assert(dv + (seq![item2.view_of()] + tail) =~= items_view(done@) + tail);
                    },
                    Err(_) => {},
                }
            }
        }
        assert(items_view(done@) + seq![] =~= items_view(done@));
        Ok(CBlock(done))
    }

    fn resolve_block_item(&mut self, item: CBlockItem, id_map: &mut IdentifierMap) -> (r: Result<CBlockItem, SemanticError>)
        requires
            old(self).next_var_id + res_item(item@, old(id_map)@, old(self).next_var_id as int).1 <= u32::MAX,
        ensures
            final(self).next_label_id == old(self).next_label_id,
            final(self).next_var_id == old(self).next_var_id + res_item(item@, old(id_map)@, old(self).next_var_id as int).1,
            match res_item(item@, old(id_map)@, old(self).next_var_id as int).0 {
                Ok((i2, m2)) => r matches Ok(v) && v@ == i2 && final(id_map)@ == m2,
                Err(x) => r matches Err(e) && e@ == x,
            },
        decreases item@, 1int,
    {
        match item {
            CBlockItem::Declaration(CDeclaration::VarDecl(vdec)) => {
                match self.resolve_var_declaration(vdec, id_map) {
                    Ok(d2) => Ok(CBlockItem::Declaration(CDeclaration::VarDecl(d2))),
                    Err(e) => Err(e),
                }
            },
            CBlockItem::Declaration(CDeclaration::FnDecl(fdec)) => {
                if fdec.body.is_some() {
                    return Err(SemanticError::NestedFunctionDefinition(fdec.name));
                }
                match self.resolve_fn_declaration(fdec, id_map) {
                    Ok(f2) => Ok(CBlockItem::Declaration(CDeclaration::FnDecl(f2))),
                    Err(e) => Err(e),
                }
            },
            CBlockItem::Statement(stmnt) => {
                match self.resolve_statement(stmnt, id_map) {
                    Ok(s2) => Ok(CBlockItem::Statement(s2)),
                    Err(e) => Err(e),
                }
            },
        }
    }

    fn resolve_statement(&mut self, statement: CStatement, id_map: &IdentifierMap) -> (r: Result<CStatement, SemanticError>)
        requires
            old(self).next_var_id + res_stmt(statement@, id_map@, old(self).next_var_id as int).1 <= u32::MAX,
        ensures
            final(self).next_label_id == old(self).next_label_id,
            final(self).next_var_id == old(self).next_var_id + res_stmt(statement@, id_map@, old(self).next_var_id as int).1,
            match res_stmt(statement@, id_map@, old(self).next_var_id as int).0 {
                Ok(s2) => r matches Ok(v) && v@ == s2,
                Err(x) => r matches Err(e) && e@ == x,
            },
        decreases statement@, 0int,
    {
        match statement {
            CStatement::Return(exp) => match resolve_expression(exp, id_map) {
                Ok(e2) => Ok(CStatement::Return(e2)),
                Err(e) => Err(e),
            },
            CStatement::Expression(exp) => match resolve_expression(exp, id_map) {
                Ok(e2) => Ok(CStatement::Expression(e2)),
                Err(e) => Err(e),
            },
            CStatement::If { cond, then, else_ } => {
                let t2 = match self.resolve_statement(*then, id_map) {
                    Ok(t) => t,
                    Err(e) => return Err(e),
                };
                let e2 = match else_ {
                    Some(s) => match self.resolve_statement(*s, id_map) {
                        Ok(x) => Some(Box::new(x)),
                        Err(e) => return Err(e),
                    },
                    None => None,
                };
                match resolve_expression(cond, id_map) {
                    Ok(c2) => Ok(CStatement::If { cond: c2, then: Box::new(t2), else_: e2 }),
                    Err(e) => Err(e),
                }
            },
            CStatement::Compound(block) => {
                let mut inner = copy_id_map(id_map);
                match self.resolve_block(block, &mut inner) {
                    Ok(b2) => Ok(CStatement::Compound(b2)),
                    Err(e) => Err(e),
                }
            },
            CStatement::While { cond, body, label } => {
                let c2 = match resolve_expression(cond, id_map) {
                    Ok(c) => c,
                    Err(e) => return Err(e),
                };
                match self.resolve_statement(*body, id_map) {
                    Ok(b2) => Ok(CStatement::While { cond: c2, body: Box::new(b2), label }),
                    Err(e) => Err(e),
                }
            },
            CStatement::DoWhile { body, cond, label } => {
                let c2 = match resolve_expression(cond, id_map) {
                    Ok(c) => c,
                    Err(e) => return Err(e),
                };
                match self.resolve_statement(*body, id_map) {
                    Ok(b2) => Ok(CStatement::DoWhile { body: Box::new(b2), cond: c2, label }),
                    Err(e) => Err(e),
                }
            },
            CStatement::For { init, cond, post, body, label } => {
                let mut new_var_map = copy_id_map(id_map);
                let init2 = match init {
                    CForInit::InitDecl(dec) => match self.resolve_var_declaration(dec, &mut new_var_map) {
                        Ok(d) => CForInit::InitDecl(d),
                        Err(e) => return Err(e),
                    },
                    CForInit::InitExp(exp) => match resolve_optional_expression(exp, &new_var_map) {
                        Ok(x) => CForInit::InitExp(x),
                        Err(e) => return Err(e),
                    },
                };
                let c2 = match resolve_optional_expression(cond, &new_var_map) {
                    Ok(c) => c,
                    Err(e) => return Err(e),
                };
                let p2 = match resolve_optional_expression(post, &new_var_map) {
                    Ok(p) => p,
                    Err(e) => return Err(e),
                };
                match self.resolve_statement(*body, &new_var_map) {
                    Ok(b2) => Ok(CStatement::For { init: init2, cond: c2, post: p2, body: Box::new(b2), label }),
                    Err(e) => Err(e),
                }
            },
            other => Ok(other),
        }
    }

    fn resolve_optional_expression(&self, expression: Option<CExpression>, id_map: &IdentifierMap) -> (r: Result<Option<CExpression>, SemanticError>)
        ensures
            match res_opt_expr(opt_expr_view(expression), id_map@) {
                Ok(e2) => r matches Ok(v) && opt_expr_view(v) == e2,
                Err(x) => r matches Err(e) && e@ == x,
            },
    {
        resolve_optional_expression(expression, id_map)
    }

}


/// `c` after `front`, with `used` more numbers drawn before it; the scope passes through.
pub open spec fn after_scoped<X>(front: Seq<X>, used: int, c: Counted<(Seq<X>, SpecScope)>) -> Counted<(Seq<X>, SpecScope)> {
    (match c.0 {
        Ok((tail, m)) => Ok((front + tail, m)),
        Err(x) => Err(x),
    }, (used + c.1) as nat)
}

fn resolve_optional_expression(expression: Option<CExpression>, id_map: &IdentifierMap) -> (r: Result<Option<CExpression>, SemanticError>)
    ensures
        match res_opt_expr(opt_expr_view(expression), id_map@) {
            Ok(e2) => r matches Ok(v) && opt_expr_view(v) == e2,
            Err(x) => r matches Err(e) && e@ == x,
        },
{
    match expression {
        Some(e) => match resolve_expression(e, id_map) {
            Ok(e2) => Ok(Some(e2)),
            Err(x) => Err(x),
        },
        None => Ok(None),
    }
}

fn resolve_expression(expression: CExpression, id_map: &IdentifierMap) -> (r: Result<CExpression, SemanticError>)
    ensures
        match res_expr(expression@, id_map@) {
            Ok(e2) => r matches Ok(v) && v@ == e2,
            Err(x) => r matches Err(e) && e@ == x,
        },
    decreases expression@, 1int,
{
    match expression {
        CExpression::Assign(left, right) => resolve_assignment(*left, *right, id_map),
        CExpression::Binary(op, left, right) => {
            let l2 = match resolve_expression(*left, id_map) {
                Ok(l) => l,
                Err(e) => return Err(e),
            };
            match resolve_expression(*right, id_map) {
                Ok(r2) => Ok(CExpression::Binary(op, Box::new(l2), Box::new(r2))),
                Err(e) => Err(e),
            }
        },
        CExpression::Factor(f) => match resolve_factor(*f, id_map) {
            Ok(f2) => Ok(CExpression::Factor(Box::new(f2))),
            Err(e) => Err(e),
        },
        CExpression::Conditional { cond, then, else_ } => {
            let c2 = match resolve_expression(*cond, id_map) {
                Ok(c) => c,
                Err(e) => return Err(e),
            };
            let t2 = match resolve_expression(*then, id_map) {
                Ok(t) => t,
                Err(e) => return Err(e),
            };
            match resolve_expression(*else_, id_map) {
                Ok(e2) => Ok(CExpression::Conditional { cond: Box::new(c2), then: Box::new(t2), else_: Box::new(e2) }),
                Err(e) => Err(e),
            }
        },
    }
}

/// Whether `e` is a plain variable.
fn is_variable(e: &CExpression) -> (r: bool)
    ensures
        r == is_var_expr(e@),
{
    match e {
        CExpression::Factor(f) => {
            let g: &CFactor = f;
            assert(e@ == SpecExpression::Factor(Box::new(g.view_of())));
            match g {
                CFactor::Var(_) => true,
                _ => false,
            }
        },
        _ => false,
    }
}

fn resolve_assignment(lval: CExpression, rval: CExpression, id_map: &IdentifierMap) -> (r: Result<CExpression, SemanticError>)
    ensures
        match res_expr(SpecExpression::Assign(Box::new(lval@), Box::new(rval@)), id_map@) {
            Ok(e2) => r matches Ok(v) && v@ == e2,
            Err(x) => r matches Err(e) && e@ == x,
        },
    decreases SpecExpression::Assign(Box::new(lval@), Box::new(rval@)), 0int,
{
    if is_variable(&lval) {
        let l2 = match resolve_expression(lval, id_map) {
            Ok(l) => l,
            Err(e) => return Err(e),
        };
        match resolve_expression(rval, id_map) {
            Ok(r2) => Ok(CExpression::Assign(Box::new(l2), Box::new(r2))),
            Err(e) => Err(e),
        }
    } else {
        Err(SemanticError::InvalidLvalue(lval))
    }
}

fn resolve_factor(factor: CFactor, id_map: &IdentifierMap) -> (r: Result<CFactor, SemanticError>)
    ensures
        match res_factor(factor@, id_map@) {
            Ok(f2) => r matches Ok(v) && v@ == f2,
            Err(x) => r matches Err(e) && e@ == x,
        },
    decreases factor@, 1int,
{
    match factor {
        CFactor::Var(var) => match id_map.get(&var.name) {
            Some(entry) => Ok(CFactor::Var(CVar { name: var.name, id: Some(entry.id) })),
            None => Err(SemanticError::UndeclaredVariable(var.name)),
        },
        CFactor::FunctionCall(name, args) => match id_map.get(&name) {
            Some(entry) => {
                let q = qualify(&name, entry.id.0);
                let ghost fv = factor@;
                match resolve_args(args, id_map) {
                    Ok(a2) => Ok(CFactor::FunctionCall(q, a2)),
                    Err(e) => Err(e),
                }
            },
            None => Err(SemanticError::UndeclaredFunction(name)),
        },
        CFactor::Unary(op, f2) => match resolve_factor(*f2, id_map) {
            Ok(g) => Ok(CFactor::Unary(op, Box::new(g))),
            Err(e) => Err(e),
        },
        CFactor::Expression(exp) => match resolve_expression(exp, id_map) {
            Ok(e2) => Ok(CFactor::Expression(e2)),
            Err(e) => Err(e),
        },
        CFactor::Constant(i) => Ok(CFactor::Constant(i)),
    }
}

fn resolve_args(args: Vec<CExpression>, id_map: &IdentifierMap) -> (r: Result<Vec<CExpression>, SemanticError>)
    ensures
        match res_args(exprs_view(args@), id_map@) {
            Ok(a2) => r matches Ok(v) && exprs_view(v@) == a2,
            Err(x) => r matches Err(e) && e@ == x,
        },
    decreases exprs_view(args@), 0int,
{
    let ghost all = exprs_view(args@);
    let mut rest = args;
    let mut done: Vec<CExpression> = Vec::new();
    let ghost mut k: int = 0;
    assert(exprs_view(rest@) =~= all.subrange(0, all.len() as int));
    while rest.len() > 0
        invariant
            0 <= k <= all.len(),
            exprs_view(rest@) == all.subrange(k, all.len() as int),
            all == exprs_view(args@),
            res_args(all, id_map@) == match res_args(exprs_view(rest@), id_map@) {
                Ok(tail) => Ok(exprs_view(done@) + tail),
                Err(x) => Err(x),
            },
        decreases rest.len(),
    {
        let ghost rv = exprs_view(rest@);
        let ghost dv = exprs_view(done@);
        let a = rest.remove(0);
        assert(exprs_view(rest@) =~= rv.drop_first());
        assert(a@ == all[k]);
        assert(decreases_to!(all => all[k]));
        proof {
            k = k + 1;
            assert(exprs_view(rest@) =~= all.subrange(k, all.len() as int));
        }
        match resolve_expression(a, id_map) {
            Ok(a2) => {
                done.push(a2);
                proof {
                    assert(exprs_view(done@) =~= dv.push(a2@));
                    match res_args(exprs_view(rest@), id_map@) {
                        Ok(tail) => {
                            assert(dv + (seq![a2@] + tail) =~= exprs_view(done@) + tail);
                        },
                        Err(_) => {},
                    }
                }
            },
            Err(e) => return Err(e),
        }
    }
    assert(exprs_view(done@) + seq![] =~= exprs_view(done@));
    Ok(done)
}

} // verus!
