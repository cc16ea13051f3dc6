use vstd::prelude::*;

use crate::text::framed;
use crate::parser::c_ast::{
    exprs_view, items_view, var_text, CBlock, CBlockItem, CDeclaration, CExpression,
    CFactor, CFnDecl, CForInit, CProgram, CStatement, CVarDecl, SpecBlockItem,
    SpecDeclaration, SpecExpression, SpecFactor, SpecFnDecl, SpecForInit, SpecParam,
    SpecStatement, SpecVarDecl,
};

verus! {

/// The type of a symbol: an `int`, or a function of a number of `int` parameters.
#[derive(Debug, PartialEq, Eq, Clone, Copy, Structural)]
pub enum Type {
    Int,
    FnType { param_count: u32 },
}

/// What a symbol names; a function records whether it has been defined.
#[derive(Debug, PartialEq, Eq, Clone, Copy, Structural)]
pub enum SymbolKind {
    Fn { defined: bool },
    Var,
}

/// What the checker knows of a symbol.
#[derive(Debug, PartialEq, Eq, Clone, Copy, Structural)]
pub struct SymbolEntry {
    pub kind: SymbolKind,
    pub type_: Type,
}

/// Why a program does not type-check.
#[derive(Debug)]
pub enum TypeError {
    /// Two declarations of `name` with different numbers of parameters.
    IncompatibleDeclarations { name: String, previous: Type, found: Type },
    /// A function with two bodies.
    DefinedTwice(String),
    /// A call of a name with no entry.
    UndeclaredFunction(String),
    /// A call with another number of arguments than the function has parameters.
    WrongArgumentCount(String),
    VariableUsedAsFunction,
    FunctionUsedAsVariable,
    /// A variable with no entry, as it is written.
    UndeclaredVariable(String),
}

/// [`TypeError`] with its names taken by their views.
pub enum SpecTypeError {
    IncompatibleDeclarations { name: Seq<char>, previous: Type, found: Type },
    DefinedTwice(Seq<char>),
    UndeclaredFunction(Seq<char>),
    WrongArgumentCount(Seq<char>),
    VariableUsedAsFunction,
    FunctionUsedAsVariable,
    UndeclaredVariable(Seq<char>),
}

impl View for TypeError {
    type V = SpecTypeError;

    open spec fn view(&self) -> SpecTypeError {
        match self {
            TypeError::IncompatibleDeclarations { name, previous, found } => SpecTypeError::IncompatibleDeclarations {
                name: name@,
                previous: *previous,
                found: *found,
            },
            TypeError::DefinedTwice(n) => SpecTypeError::DefinedTwice(n@),
            TypeError::UndeclaredFunction(n) => SpecTypeError::UndeclaredFunction(n@),
            TypeError::WrongArgumentCount(n) => SpecTypeError::WrongArgumentCount(n@),
            TypeError::VariableUsedAsFunction => SpecTypeError::VariableUsedAsFunction,
            TypeError::FunctionUsedAsVariable => SpecTypeError::FunctionUsedAsVariable,
            TypeError::UndeclaredVariable(n) => SpecTypeError::UndeclaredVariable(n@),
        }
    }
}

/// The message for a type error. For incompatible declarations it is the
/// message up to the two types, which follow it in their derived `Debug`
/// form as `` `previous` and `found` ``.
pub open spec fn type_message(e: SpecTypeError) -> Seq<char> {
    match e {
        SpecTypeError::IncompatibleDeclarations { name, .. } => "Found incompatible function declarations for `"@ + name
            + "`: "@,
        SpecTypeError::DefinedTwice(n) => "Function `"@ + n + "()` is defined more than once"@,
        SpecTypeError::UndeclaredFunction(n) => "`"@ + n
            + "()` is called before it is declared; This should have been taken care of during identifier resolution"@,
        SpecTypeError::WrongArgumentCount(n) => "Function `"@ + n + "()` called with the wrong number of arguments"@,
        SpecTypeError::VariableUsedAsFunction => "Variable used as function name"@,
        SpecTypeError::FunctionUsedAsVariable => "Function name used as variable"@,
        SpecTypeError::UndeclaredVariable(n) => "Variable `"@ + n
            + "` is called before it is declared; This should have been taken care of during identifier resolution."@,
    }
}

impl TypeError {
    /// The message that describes this error; for incompatible
    /// declarations, the part before the two types.
    pub fn message(&self) -> (s: String)
        ensures
            s@ == type_message(self@),
    {
        match self {
            TypeError::IncompatibleDeclarations { name, .. } => framed(
                "Found incompatible function declarations for `",
                name.as_str(),
                "`: ",
            ),
            TypeError::DefinedTwice(n) => framed("Function `", n.as_str(), "()` is defined more than once"),
            TypeError::UndeclaredFunction(n) => framed(
                "`",
                n.as_str(),
                "()` is called before it is declared; This should have been taken care of during identifier resolution",
            ),
            TypeError::WrongArgumentCount(n) => framed("Function `", n.as_str(), "()` called with the wrong number of arguments"),
            TypeError::VariableUsedAsFunction => String::from_str("Variable used as function name"),
            TypeError::FunctionUsedAsVariable => String::from_str("Function name used as variable"),
            TypeError::UndeclaredVariable(n) => framed(
                "Variable `",
                n.as_str(),
                "` is called before it is declared; This should have been taken care of during identifier resolution.",
            ),
        }
    }
}

/// The entry most recently recorded for `k`.
pub open spec fn sym_get(t: Seq<(Seq<char>, SymbolEntry)>, k: Seq<char>) -> Option<SymbolEntry>
    decreases t.len(),
{
    if t.len() == 0 {
        None
    } else if t.last().0 == k {
        Some(t.last().1)
    } else {
        sym_get(t.drop_last(), k)
    }
}

/// The key of a function's entry: its name followed by `.0`.
pub open spec fn fn_key(name: Seq<char>) -> Seq<char> {
    name + ".0"@
}

/// The entry of an `int` variable.
pub open spec fn var_entry() -> SymbolEntry {
    SymbolEntry { kind: SymbolKind::Var, type_: Type::Int }
}

/// Checks an expression: every call names a function with as many
/// parameters as it has arguments, every variable names an `int`.
pub open spec fn tc_expr(e: SpecExpression, t: Seq<(Seq<char>, SymbolEntry)>) -> Result<(), SpecTypeError>
    decreases e,
{
    match e {
        SpecExpression::Factor(f) => tc_factor(*f, t),
        SpecExpression::Binary(_, a, b) => match tc_expr(*a, t) {
            Err(x) => Err(x),
            Ok(_) => tc_expr(*b, t),
        },
        SpecExpression::Assign(a, b) => match tc_expr(*a, t) {
            Err(x) => Err(x),
            Ok(_) => tc_expr(*b, t),
        },
        SpecExpression::Conditional { cond, then, else_ } => match tc_expr(*cond, t) {
            Err(x) => Err(x),
            Ok(_) => match tc_expr(*then, t) {
                Err(x) => Err(x),
                Ok(_) => tc_expr(*else_, t),
            },
        },
    }
}

/// A call type-checks only if its name is declared as a function with
/// exactly as many parameters as the call has arguments; a call of a
/// function with any other number of arguments, fewer or more, is refused
/// with `WrongArgumentCount` and the called name.
pub proof fn lemma_call_arity(name: Seq<char>, args: Seq<SpecExpression>, t: Seq<(Seq<char>, SymbolEntry)>)
    requires
        args.len() <= u32::MAX,
    ensures
        tc_factor(SpecFactor::FunctionCall(name, args), t) is Ok ==> (sym_get(t, name) matches Some(e)
            && e.type_ matches Type::FnType { param_count } && param_count == args.len()),
        (sym_get(t, name) matches Some(e) && e.type_ matches Type::FnType { param_count } && param_count != args.len())
            ==> tc_factor(SpecFactor::FunctionCall(name, args), t) == Err::<(), SpecTypeError>(
            SpecTypeError::WrongArgumentCount(name),
        ),
{
}

pub open spec fn tc_factor(f: SpecFactor, t: Seq<(Seq<char>, SymbolEntry)>) -> Result<(), SpecTypeError>
    decreases f,
{
    match f {
        SpecFactor::FunctionCall(name, args) => match sym_get(t, name) {
            None => Err(SpecTypeError::UndeclaredFunction(name)),
            Some(entry) => match entry.type_ {
                Type::FnType { param_count } => if param_count != (args.len() as u32) {
                    Err(SpecTypeError::WrongArgumentCount(name))
                } else {
                    tc_args(args, t)
                },
                Type::Int => Err(SpecTypeError::VariableUsedAsFunction),
            },
        },
        SpecFactor::Var(v) => match sym_get(t, var_text(v)) {
            Some(entry) => if entry.type_ != Type::Int {
                Err(SpecTypeError::FunctionUsedAsVariable)
            } else {
                Ok(())
            },
            None => Err(SpecTypeError::UndeclaredVariable(var_text(v))),
        },
        SpecFactor::Expression(e) => tc_expr(e, t),
        SpecFactor::Unary(_, g) => tc_factor(*g, t),
        SpecFactor::Constant(_) => Ok(()),
    }
}

pub open spec fn tc_args(args: Seq<SpecExpression>, t: Seq<(Seq<char>, SymbolEntry)>) -> Result<(), SpecTypeError>
    decreases args,
{
    if args.len() == 0 {
        Ok(())
    } else {
        match tc_expr(args[0], t) {
            Err(x) => Err(x),
            Ok(_) => tc_args(args.drop_first(), t),
        }
    }
}

/// An optional expression: nothing to check when absent.
pub open spec fn tc_opt(e: Option<SpecExpression>, t: Seq<(Seq<char>, SymbolEntry)>) -> Result<(), SpecTypeError> {
    match e {
        Some(x) => tc_expr(x, t),
        None => Ok(()),
    }
}

/// A variable declaration records an `int` under the variable's written
/// form, then checks the initializer.
pub open spec fn tc_var_decl(d: SpecVarDecl, t: Seq<(Seq<char>, SymbolEntry)>) -> Result<Seq<(Seq<char>, SymbolEntry)>, SpecTypeError> {
    let t2 = t.push((var_text(d.var), var_entry()));
    match tc_opt(d.init, t2) {
        Ok(_) => Ok(t2),
        Err(x) => Err(x),
    }
}

/// The named parameters recorded as `int` variables, in order.
pub open spec fn tc_params(ps: Seq<SpecParam>, t: Seq<(Seq<char>, SymbolEntry)>) -> Seq<(Seq<char>, SymbolEntry)>
    decreases ps.len(),
{
    if ps.len() == 0 {
        t
    } else {
        let t2 = match ps[0].name {
            Some(n) => t.push((n, var_entry())),
            None => t,
        };
        tc_params(ps.drop_first(), t2)
    }
}

/// Checks a statement. A `for` loop checks its header only.
pub open spec fn tc_stmt(s: SpecStatement, t: Seq<(Seq<char>, SymbolEntry)>) -> Result<Seq<(Seq<char>, SymbolEntry)>, SpecTypeError>
    decreases s,
{
    match s {
        SpecStatement::Return(e) => match tc_expr(e, t) {
            Ok(_) => Ok(t),
            Err(x) => Err(x),
        },
        SpecStatement::Expression(e) => match tc_expr(e, t) {
            Ok(_) => Ok(t),
            Err(x) => Err(x),
        },
        SpecStatement::If { cond, then, else_ } => match tc_expr(cond, t) {
            Err(x) => Err(x),
            Ok(_) => match tc_stmt(*then, t) {
                Err(x) => Err(x),
                Ok(t1) => match else_ {
                    Some(es) => tc_stmt(*es, t1),
                    None => Ok(t1),
                },
            },
        },
        SpecStatement::While { cond, body, label } => match tc_expr(cond, t) {
            Err(x) => Err(x),
            Ok(_) => tc_stmt(*body, t),
        },
        SpecStatement::DoWhile { body, cond, label } => match tc_expr(cond, t) {
            Err(x) => Err(x),
            Ok(_) => tc_stmt(*body, t),
        },
        SpecStatement::For { init, cond, post, body, label } => {
            let ri = match init {
                SpecForInit::InitDecl(d) => tc_var_decl(d, t),
                SpecForInit::InitExp(e) => match tc_opt(e, t) {
                    Ok(_) => Ok(t),
                    Err(x) => Err(x),
                },
            };
            match ri {
                Err(x) => Err(x),
                Ok(t1) => match tc_opt(cond, t1) {
                    Err(x) => Err(x),
                    Ok(_) => match tc_opt(post, t1) {
                        Err(x) => Err(x),
                        Ok(_) => Ok(t1),
                    },
                },
            }
        },
        SpecStatement::Compound(items) => tc_items(items, t),
        _ => Ok(t),
    }
}

/// Checks the items of a block in order.
pub open spec fn tc_items(items: Seq<SpecBlockItem>, t: Seq<(Seq<char>, SymbolEntry)>) -> Result<Seq<(Seq<char>, SymbolEntry)>, SpecTypeError>
    decreases items,
{
    if items.len() == 0 {
        Ok(t)
    } else {
        match tc_item(items[0], t) {
            Err(x) => Err(x),
            Ok(t1) => tc_items(items.drop_first(), t1),
        }
    }
}

pub open spec fn tc_item(it: SpecBlockItem, t: Seq<(Seq<char>, SymbolEntry)>) -> Result<Seq<(Seq<char>, SymbolEntry)>, SpecTypeError>
    decreases it,
{
    match it {
        SpecBlockItem::Statement(s) => tc_stmt(s, t),
        SpecBlockItem::Declaration(SpecDeclaration::FnDecl(f)) => tc_fn_decl(f, t),
        SpecBlockItem::Declaration(SpecDeclaration::VarDecl(d)) => tc_var_decl(d, t),
    }
}

/// The type a declaration gives a function.
pub open spec fn declared_type(f: SpecFnDecl) -> Type {
    Type::FnType { param_count: f.params.len() as u32 }
}

/// Checks a function declaration against earlier ones of the same name,
/// records it, and checks its body with its parameters recorded.
pub open spec fn tc_fn_decl(f: SpecFnDecl, t: Seq<(Seq<char>, SymbolEntry)>) -> Result<Seq<(Seq<char>, SymbolEntry)>, SpecTypeError>
    decreases f,
{
    let has_body = f.body is Some;
    let old_entry = sym_get(t, fn_key(f.name));
    let already_defined = match old_entry {
        Some(SymbolEntry { kind: SymbolKind::Fn { defined }, type_: _ }) => defined,
        _ => false,
    };
    if old_entry matches Some(e) && e.type_ != declared_type(f) {
        Err(SpecTypeError::IncompatibleDeclarations { name: f.name, previous: old_entry.unwrap().type_, found: declared_type(f) })
    } else if already_defined && has_body {
        Err(SpecTypeError::DefinedTwice(f.name))
    } else {
        let t1 = t.push((fn_key(f.name), SymbolEntry { kind: SymbolKind::Fn { defined: already_defined || has_body }, type_: declared_type(f) }));
        match f.body {
            Some(items) => tc_items(items, tc_params(f.params, t1)),
            None => Ok(t1),
        }
    }
}

/// Checks the functions of a program in order.
pub open spec fn tc_functions(fs: Seq<SpecFnDecl>, t: Seq<(Seq<char>, SymbolEntry)>) -> Result<Seq<(Seq<char>, SymbolEntry)>, SpecTypeError>
    decreases fs.len(),
{
    if fs.len() == 0 {
        Ok(t)
    } else {
        match tc_fn_decl(fs[0], t) {
            Err(x) => Err(x),
            Ok(t1) => tc_functions(fs.drop_first(), t1),
        }
    }
}

/// Checks that functions are declared consistently and that calls and
/// variables are used as their declarations say.
pub struct TypeChecker {
    pub symbols: Vec<(String, SymbolEntry)>,
}

impl Default for TypeChecker {
    fn default() -> (c: Self)
        ensures
            c.table() == Seq::<(Seq<char>, SymbolEntry)>::empty(),
    {
        Self::new()
    }
}

impl TypeChecker {
    /// The symbol table: names by their views, oldest entry first.
    pub open spec fn table(&self) -> Seq<(Seq<char>, SymbolEntry)> {
        Seq::new(self.symbols@.len(), |i: int| (self.symbols@[i].0@, self.symbols@[i].1))
    }

    /// A checker with an empty symbol table.
    pub fn new() -> (c: Self)
        ensures
            c.table() == Seq::<(Seq<char>, SymbolEntry)>::empty(),
    {
        let c = TypeChecker { symbols: Vec::new() };
        assert(c.table() =~= Seq::<(Seq<char>, SymbolEntry)>::empty());
        c
    }

    fn lookup(&self, key: &String) -> (r: Option<SymbolEntry>)
        ensures
            r == sym_get(self.table(), key@),
    {
        let ghost all = self.table();
        let mut j: usize = self.symbols.len();
        assert(all.take(j as int) =~= all);
        while j > 0
            invariant
                j <= self.symbols.len(),
                all == self.table(),
                sym_get(all, key@) == sym_get(all.take(j as int), key@),
            decreases j,
        {
            j = j - 1;
            assert(all.take(j + 1).last() == all[j as int]);
            assert(all.take(j + 1).drop_last() =~= all.take(j as int));
            if self.symbols[j].0 == *key {
                return Some(self.symbols[j].1);
            }
        }
        None
    }

    fn insert(&mut self, key: String, entry: SymbolEntry)
        ensures
            final(self).table() == old(self).table().push((key@, entry)),
    {
        self.symbols.push((key, entry));
        assert(self.table() =~= old(self).table().push((key@, entry)));
    }

    /// Checks every function of the program in order.
    ///
    /// On an error the symbol table keeps what was recorded before it; its
    /// contents are not specified.
    pub fn type_check(&mut self, program: &CProgram) -> (r: Result<(), TypeError>)
        ensures
            match tc_functions(program@.functions, old(self).table()) {
                Ok(t) => r is Ok && final(self).table() == t,
                Err(x) => r matches Err(e) && e@ == x,
            },
    {
        let ghost fs = program@.functions;
        let n = program.functions.len();
        let mut i: usize = 0;
        assert(fs.skip(0) =~= fs);
        while i < n
            invariant
                i <= n,
                n == fs.len(),
                fs == program@.functions,
                tc_functions(fs, old(self).table()) == tc_functions(fs.skip(i as int), self.table()),
            decreases n - i,
        {
            assert(fs.skip(i as int).drop_first() =~= fs.skip(i + 1));
            assert(fs.skip(i as int)[0] == program.functions[i as int]@);
            match self.check_fn_decl(&program.functions[i]) {
                Ok(()) => {},
                Err(e) => return Err(e),
            }
            i = i + 1;
        }
        Ok(())
    }

    fn check_fn_decl(&mut self, decl: &CFnDecl) -> (r: Result<(), TypeError>)
        ensures
            match tc_fn_decl(decl@, old(self).table()) {
                Ok(t) => r is Ok && final(self).table() == t,
                Err(x) => r matches Err(e) && e@ == x,
            },
        decreases decl@, 0int,
    {
        let ghost f = decl@;
        let fn_type = Type::FnType { param_count: #[verifier::truncate] (decl.params.len() as u32) };
        assert(fn_type == declared_type(f));
        let has_body = decl.body.is_some();
        let mut already_defined = false;
        let mut name = decl.name.clone();
        name.append(".0");
        match self.lookup(&name) {
            Some(old_decl) => {
                if old_decl.type_ != fn_type {
                    return Err(TypeError::IncompatibleDeclarations {
                        name: decl.name.clone(),
                        previous: old_decl.type_,
                        found: fn_type,
                    });
                }
                match old_decl.kind {
                    SymbolKind::Fn { defined } => {
                        already_defined = defined;
                        if already_defined && has_body {
                            return Err(TypeError::DefinedTwice(decl.name.clone()));
                        }
                    },
                    SymbolKind::Var => {},
                }
            },
            None => {},
        }
        self.insert(name, SymbolEntry { kind: SymbolKind::Fn { defined: already_defined || has_body }, type_: fn_type });
        match &decl.body {
            Some(body) => {
                let ghost t1 = self.table();
                let mut i: usize = 0;
                assert(f.params.skip(0) =~= f.params);
                while i < decl.params.len()
                    invariant
                        i <= decl.params.len(),
                        f == decl@,
                        tc_params(f.params, t1) == tc_params(f.params.skip(i as int), self.table()),
                    decreases decl.params.len() - i,
                {
                    assert(f.params.skip(i as int).drop_first() =~= f.params.skip(i + 1));
                    assert(f.params.skip(i as int)[0] == decl.params[i as int].view_of());
                    match &decl.params[i].name {
                        Some(pname) => {
                            self.insert(pname.clone(), SymbolEntry { kind: SymbolKind::Var, type_: Type::Int });
                        },
                        None => {},
                    }
                    i = i + 1;
                }
                assert(f.params.skip(i as int) =~= Seq::<SpecParam>::empty());
                assert(f.body == Some(body@));
                self.check_block(body)
            },
            None => Ok(()),
        }
    }

    fn check_var_decl(&mut self, var_decl: &CVarDecl) -> (r: Result<(), TypeError>)
        ensures
            match tc_var_decl(var_decl@, old(self).table()) {
                Ok(t) => r is Ok && final(self).table() == t,
                Err(x) => r matches Err(e) && e@ == x,
            },
    {
        let key = var_decl.var.to_text();
        self.insert(key, SymbolEntry { kind: SymbolKind::Var, type_: Type::Int });
        match &var_decl.init {
            Some(exp) => self.check_exp(exp),
            None => Ok(()),
        }
    }

    fn check_block(&mut self, block: &CBlock) -> (r: Result<(), TypeError>)
        ensures
            match tc_items(block@, old(self).table()) {
                Ok(t) => r is Ok && final(self).table() == t,
                Err(x) => r matches Err(e) && e@ == x,
            },
        decreases block@, 0int,
    {
        let ghost items = block@;
        let n = block.0.len();
        let mut i: usize = 0;
        assert(items.skip(0) =~= items);
        while i < n
            invariant
                i <= n,
                n == items.len(),
                items == block@,
                items == items_view(block.0@),
                tc_items(items, old(self).table()) == tc_items(items.skip(i as int), self.table()),
            decreases n - i,
        {
            assert(items.skip(i as int).drop_first() =~= items.skip(i + 1));
            assert(items.skip(i as int)[0] == block.0[i as int]@);
            assert(decreases_to!(items => items[i as int]));
            assert(decreases_to!(block@ => block.0[i as int]@));
            match self.check_block_item(&block.0[i]) {
                Ok(()) => {},
                Err(e) => return Err(e),
            }
            i = i + 1;
        }
        Ok(())
    }

    fn check_block_item(&mut self, item: &CBlockItem) -> (r: Result<(), TypeError>)
        ensures
            match tc_item(item@, old(self).table()) {
                Ok(t) => r is Ok && final(self).table() == t,
                Err(x) => r matches Err(e) && e@ == x,
            },
        decreases item@, 0int,
    {
        match item {
            CBlockItem::Statement(stmnt) => self.check_statement(stmnt),
            CBlockItem::Declaration(dec) => match dec {
                CDeclaration::FnDecl(fdec) => self.check_fn_decl(fdec),
                CDeclaration::VarDecl(vdec) => self.check_var_decl(vdec),
            },
        }
    }

    fn check_statement(&mut self, stmnt: &CStatement) -> (r: Result<(), TypeError>)
        ensures
            match tc_stmt(stmnt@, old(self).table()) {
                Ok(t) => r is Ok && final(self).table() == t,
                Err(x) => r matches Err(e) && e@ == x,
            },
        decreases stmnt@, 0int,
    {
        match stmnt {
            CStatement::Return(exp) | CStatement::Expression(exp) => self.check_exp(exp),
            CStatement::If { cond, then, else_ } => {
                match self.check_exp(cond) {
                    Ok(()) => {},
                    Err(e) => return Err(e),
                }
                match self.check_statement(then) {
                    Ok(()) => {},
                    Err(e) => return Err(e),
                }
                match else_ {
                    Some(s) => self.check_statement(s),
                    None => Ok(()),
                }
            },
            CStatement::While { cond, body, label: _ } | CStatement::DoWhile { body, cond, label: _ } => {
                match self.check_exp(cond) {
                    Ok(()) => {},
                    Err(e) => return Err(e),
                }
                self.check_statement(body)
            },
            CStatement::For { init, cond, post, body: _, label: _ } => {
                match init {
                    CForInit::InitDecl(dec) => match self.check_var_decl(dec) {
                        Ok(()) => {},
                        Err(e) => return Err(e),
                    },
                    CForInit::InitExp(exp) => match exp {
                        Some(e) => match self.check_exp(e) {
                            Ok(()) => {},
                            Err(x) => return Err(x),
                        },
                        None => {},
                    },
                }
                match cond {
                    Some(e) => match self.check_exp(e) {
                        Ok(()) => {},
                        Err(x) => return Err(x),
                    },
                    None => {},
                }
                match post {
                    Some(e) => self.check_exp(e),
                    None => Ok(()),
                }
            },
            CStatement::Compound(block) => self.check_block(block),
            _ => Ok(()),
        }
    }

    fn check_exp(&self, exp: &CExpression) -> (r: Result<(), TypeError>)
        ensures
            match tc_expr(exp@, self.table()) {
                Ok(_) => r is Ok,
                Err(x) => r matches Err(e) && e@ == x,
            },
        decreases exp@, 0int,
    {
        match exp {
            CExpression::Factor(f) => self.check_factor(f),
            CExpression::Binary(_, exp1, exp2) | CExpression::Assign(exp1, exp2) => {
                match self.check_exp(exp1) {
                    Ok(()) => {},
                    Err(e) => return Err(e),
                }
                self.check_exp(exp2)
            },
            CExpression::Conditional { cond, then, else_ } => {
                match self.check_exp(cond) {
                    Ok(()) => {},
                    Err(e) => return Err(e),
                }
                match self.check_exp(then) {
                    Ok(()) => {},
                    Err(e) => return Err(e),
                }
                self.check_exp(else_)
            },
        }
    }

    fn check_factor(&self, factor: &CFactor) -> (r: Result<(), TypeError>)
        ensures
            match tc_factor(factor@, self.table()) {
                Ok(_) => r is Ok,
                Err(x) => r matches Err(e) && e@ == x,
            },
        decreases factor@, 0int,
    {
        match factor {
            CFactor::FunctionCall(f, args) => {
                let ghost av = exprs_view(args@);
                assert(factor@ == SpecFactor::FunctionCall(f@, av));
                assert(av.len() == args.len());
                let fn_type = match self.lookup(f) {
                    Some(entry) => entry.type_,
                    None => return Err(TypeError::UndeclaredFunction(f.clone())),
                };
                match fn_type {
                    Type::FnType { param_count: n_params } => {
                        if n_params != #[verifier::truncate] (args.len() as u32) {
                            return Err(TypeError::WrongArgumentCount(f.clone()));
                        }
                    },
                    Type::Int => return Err(TypeError::VariableUsedAsFunction),
                }
                assert(tc_factor(factor@, self.table()) == tc_args(av, self.table()));
                let mut i: usize = 0;
                assert(av.skip(0) =~= av);
                while i < args.len()
                    invariant
                        i <= args.len(),
                        av == exprs_view(args@),
                        factor@ == SpecFactor::FunctionCall(f@, av),
                        tc_factor(factor@, self.table()) == tc_args(av, self.table()),
                        tc_args(av, self.table()) == tc_args(av.skip(i as int), self.table()),
                    decreases args.len() - i,
                {
                    assert(av.skip(i as int).drop_first() =~= av.skip(i + 1));
                    assert(av.skip(i as int)[0] == args[i as int]@);
                    assert(decreases_to!(av => av[i as int]));
                    match self.check_exp(&args[i]) {
                        Ok(()) => {},
                        Err(e) => return Err(e),
                    }
                    i = i + 1;
                }
                assert(av.skip(i as int) =~= Seq::<SpecExpression>::empty());
                Ok(())
            },
            CFactor::Var(var) => {
                let key = var.to_text();
                match self.lookup(&key) {
                    Some(entry) => {
                        if entry.type_ != Type::Int {
                            return Err(TypeError::FunctionUsedAsVariable);
                        }
                        Ok(())
                    },
                    None => Err(TypeError::UndeclaredVariable(key)),
                }
            },
            CFactor::Expression(exp) => self.check_exp(exp),
            CFactor::Unary(_, f) => self.check_factor(f),
            CFactor::Constant(_) => Ok(()),
        }
    }
}

} // verus!
