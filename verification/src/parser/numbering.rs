//! Resolution gives every declared variable and every named parameter a
//! number of its own: read in program order, the declarations of a resolved
//! program carry the numbers the counter held, one after the other.
use vstd::prelude::*;

use crate::fresh::no_repeats;
use crate::parser::c_ast::{
    SpecBlockItem, SpecDeclaration, SpecFnDecl, SpecForInit, SpecParam, SpecStatement, SpecVarDecl,
};
use crate::parser::semantic_analysis::{
    res_fn_decl, res_functions, res_item, res_items, res_param, res_params, res_stmt, res_var_decl,
    scope_copy, IdentifierMapEntry, SpecScope,
};

verus! {

/// The numbers `lo`, `lo + 1`, ..., `lo + n - 1`.
pub open spec fn counting(lo: int, n: int) -> Seq<int> {
    Seq::new(n as nat, |i: int| lo + i)
}

/// The number of a declared variable, if it has one.
pub open spec fn var_id(d: SpecVarDecl) -> Seq<int> {
    match d.var.id {
        Some(t) => seq![t.0 as int],
        None => seq![],
    }
}

/// The number of a named parameter, if it has one.
pub open spec fn param_id(p: SpecParam) -> Seq<int> {
    match (p.name, p.id) {
        (Some(_), Some(t)) => seq![t.0 as int],
        _ => seq![],
    }
}

/// The numbers of the named parameters, in order.
pub open spec fn param_ids(ps: Seq<SpecParam>) -> Seq<int>
    decreases ps.len(),
{
    if ps.len() == 0 {
        seq![]
    } else {
        param_id(ps[0]) + param_ids(ps.drop_first())
    }
}

/// The numbers of the variables that `s` declares, in program order.
pub open spec fn decl_ids_stmt(s: SpecStatement) -> Seq<int>
    decreases s,
{
    match s {
        SpecStatement::If { cond: _, then, else_ } => decl_ids_stmt(*then) + match else_ {
            Some(es) => decl_ids_stmt(*es),
            None => Seq::<int>::empty(),
        },
        SpecStatement::Compound(items) => decl_ids_items(items),
        SpecStatement::While { cond: _, body, label: _ } => decl_ids_stmt(*body),
        SpecStatement::DoWhile { body, cond: _, label: _ } => decl_ids_stmt(*body),
        SpecStatement::For { init, cond: _, post: _, body, label: _ } => (match init {
            SpecForInit::InitDecl(d) => var_id(d),
            SpecForInit::InitExp(_) => Seq::<int>::empty(),
        }) + decl_ids_stmt(*body),
        _ => seq![],
    }
}

/// The numbers of the variables and parameters that the items declare, in program order.
pub open spec fn decl_ids_items(items: Seq<SpecBlockItem>) -> Seq<int>
    decreases items,
{
    if items.len() == 0 {
        seq![]
    } else {
        decl_ids_item(items[0]) + decl_ids_items(items.drop_first())
    }
}

pub open spec fn decl_ids_item(it: SpecBlockItem) -> Seq<int>
    decreases it,
{
    match it {
        SpecBlockItem::Declaration(SpecDeclaration::VarDecl(d)) => var_id(d),
        SpecBlockItem::Declaration(SpecDeclaration::FnDecl(f)) => param_ids(f.params) + match f.body {
            Some(b) => decl_ids_items(b),
            None => Seq::<int>::empty(),
        },
        SpecBlockItem::Statement(s) => decl_ids_stmt(s),
    }
}

/// The numbers of the parameters and variables of a function, in program order.
pub open spec fn decl_ids_fn(f: SpecFnDecl) -> Seq<int> {
    param_ids(f.params) + match f.body {
        Some(b) => decl_ids_items(b),
        None => Seq::<int>::empty(),
    }
}

/// The numbers declared by the functions, one function after the other.
pub open spec fn decl_ids_fns(fs: Seq<SpecFnDecl>) -> Seq<int>
    decreases fs.len(),
{
    if fs.len() == 0 {
        seq![]
    } else {
        decl_ids_fn(fs[0]) + decl_ids_fns(fs.drop_first())
    }
}

/// How many numbers a variable declaration takes: one.
pub open spec fn decls_in_var(d: SpecVarDecl) -> nat {
    1
}

/// How many named parameters there are.
pub open spec fn decls_in_params(ps: Seq<SpecParam>) -> nat
    decreases ps.len(),
{
    if ps.len() == 0 {
        0
    } else {
        (if ps[0].name is Some { 1nat } else { 0nat }) + decls_in_params(ps.drop_first())
    }
}

/// How many variables `s` declares, `for` initialisers included.
pub open spec fn decls_in_stmt(s: SpecStatement) -> nat
    decreases s,
{
    match s {
        SpecStatement::If { cond: _, then, else_ } => decls_in_stmt(*then) + match else_ {
            Some(es) => decls_in_stmt(*es),
            None => 0,
        },
        SpecStatement::Compound(items) => decls_in_items(items),
        SpecStatement::While { cond: _, body, label: _ } => decls_in_stmt(*body),
        SpecStatement::DoWhile { body, cond: _, label: _ } => decls_in_stmt(*body),
        SpecStatement::For { init, cond: _, post: _, body, label: _ } => (match init {
            SpecForInit::InitDecl(d) => decls_in_var(d),
            SpecForInit::InitExp(_) => 0,
        }) + decls_in_stmt(*body),
        _ => 0,
    }
}

/// How many variables and named parameters the items declare; a function
/// declared in a block counts its parameters (a body there is refused).
pub open spec fn decls_in_items(items: Seq<SpecBlockItem>) -> nat
    decreases items,
{
    if items.len() == 0 {
        0
    } else {
        decls_in_item(items[0]) + decls_in_items(items.drop_first())
    }
}

pub open spec fn decls_in_item(it: SpecBlockItem) -> nat
    decreases it,
{
    match it {
        SpecBlockItem::Declaration(SpecDeclaration::VarDecl(d)) => decls_in_var(d),
        SpecBlockItem::Declaration(SpecDeclaration::FnDecl(f)) => decls_in_params(f.params),
        SpecBlockItem::Statement(s) => decls_in_stmt(s),
    }
}

/// How many named parameters and variables a function declares.
pub open spec fn decls_in_fn(f: SpecFnDecl) -> nat {
    decls_in_params(f.params) + match f.body {
        Some(b) => decls_in_items(b),
        None => 0,
    }
}

/// How many named parameters and variables the functions declare, with or without a body.
pub open spec fn decls_in_fns(fs: Seq<SpecFnDecl>) -> nat
    decreases fs.len(),
{
    if fs.len() == 0 {
        0
    } else {
        decls_in_fn(fs[0]) + decls_in_fns(fs.drop_first())
    }
}

proof fn lemma_counting_join(lo: int, a: int, b: int)
    requires
        0 <= a,
        0 <= b,
    ensures
        counting(lo, a) + counting(lo + a, b) == counting(lo, a + b),
{
    assert(counting(lo, a) + counting(lo + a, b) =~= counting(lo, a + b));
}

proof fn lemma_counting_empty(lo: int)
    ensures
        counting(lo, 0) == Seq::<int>::empty(),
{
    assert(counting(lo, 0) =~= Seq::<int>::empty());
}

proof fn lemma_counting_one(lo: int)
    ensures
        counting(lo, 1) == seq![lo],
{
    assert(counting(lo, 1) =~= seq![lo]);
}

proof fn lemma_var_decl_ids(d: SpecVarDecl, m: SpecScope, next: int)
    requires
        res_var_decl(d, m, next).0 is Ok,
        0 <= next,
        next + res_var_decl(d, m, next).1 <= u32::MAX + 1,
    ensures
        var_id(res_var_decl(d, m, next).0->Ok_0.0) == counting(next, res_var_decl(d, m, next).1 as int),
{
    lemma_counting_one(next);
}

proof fn lemma_params_ids(ps: Seq<SpecParam>, m: SpecScope, next: int)
    requires
        res_params(ps, m, next).0 is Ok,
        0 <= next,
        next + res_params(ps, m, next).1 <= u32::MAX + 1,
    ensures
        param_ids(res_params(ps, m, next).0->Ok_0.0) == counting(next, res_params(ps, m, next).1 as int),
        res_params(ps, m, next).1 == decls_in_params(ps),
    decreases ps.len(),
{
    if ps.len() == 0 {
        lemma_counting_empty(next);
    } else {
        let (r1, n1) = res_param(ps[0], m, next);
        let (p2, m2) = r1->Ok_0;
        if ps[0].name is Some {
            lemma_counting_one(next);
        } else {
            lemma_counting_empty(next);
        }
        assert(param_id(p2) == counting(next, n1 as int));
        lemma_params_ids(ps.drop_first(), m2, next + n1);
        let (rest, _m3) = res_params(ps.drop_first(), m2, next + n1).0->Ok_0;
        let n2 = res_params(ps.drop_first(), m2, next + n1).1;
        let all = seq![p2] + rest;
        assert(all[0] == p2);
        assert(all.drop_first() =~= rest);
        lemma_counting_join(next, n1 as int, n2 as int);
    }
}

proof fn lemma_stmt_ids(s: SpecStatement, m: SpecScope, next: int)
    requires
        res_stmt(s, m, next).0 is Ok,
        0 <= next,
        next + res_stmt(s, m, next).1 <= u32::MAX + 1,
    ensures
        decl_ids_stmt(res_stmt(s, m, next).0->Ok_0) == counting(next, res_stmt(s, m, next).1 as int),
        res_stmt(s, m, next).1 == decls_in_stmt(s),
    decreases s,
{
    match s {
        SpecStatement::If { cond: _, then, else_ } => {
            let n1 = res_stmt(*then, m, next).1;
            lemma_stmt_ids(*then, m, next);
            match else_ {
                Some(es) => {
                    lemma_stmt_ids(*es, m, next + n1);
                    lemma_counting_join(next, n1 as int, res_stmt(*es, m, next + n1).1 as int);
                },
                None => {
                    let t2 = res_stmt(*then, m, next).0->Ok_0;
                    assert(decl_ids_stmt(t2) + Seq::<int>::empty() =~= decl_ids_stmt(t2));
                },
            }
        },
        SpecStatement::Compound(items) => lemma_items_ids(items, scope_copy(m), next),
        SpecStatement::While { cond: _, body, label: _ } => lemma_stmt_ids(*body, m, next),
        SpecStatement::DoWhile { body, cond: _, label: _ } => lemma_stmt_ids(*body, m, next),
        SpecStatement::For { init, cond: _, post: _, body, label: _ } => {
            let m1 = scope_copy(m);
            match init {
                SpecForInit::InitDecl(d) => {
                    lemma_var_decl_ids(d, m1, next);
                    let n1 = res_var_decl(d, m1, next).1;
                    let m2 = res_var_decl(d, m1, next).0->Ok_0.1;
                    lemma_stmt_ids(*body, m2, next + n1);
                    lemma_counting_join(next, n1 as int, res_stmt(*body, m2, next + n1).1 as int);
                },
                SpecForInit::InitExp(_) => {
                    lemma_stmt_ids(*body, m1, next);
                    let b2 = res_stmt(*body, m1, next).0->Ok_0;
                    assert(Seq::<int>::empty() + decl_ids_stmt(b2) =~= decl_ids_stmt(b2));
                },
            }
        },
        _ => lemma_counting_empty(next),
    }
}

proof fn lemma_item_ids(it: SpecBlockItem, m: SpecScope, next: int)
    requires
        res_item(it, m, next).0 is Ok,
        0 <= next,
        next + res_item(it, m, next).1 <= u32::MAX + 1,
    ensures
        decl_ids_item(res_item(it, m, next).0->Ok_0.0) == counting(next, res_item(it, m, next).1 as int),
        res_item(it, m, next).1 == decls_in_item(it),
    decreases it,
{
    match it {
        SpecBlockItem::Declaration(SpecDeclaration::VarDecl(d)) => lemma_var_decl_ids(d, m, next),
        SpecBlockItem::Declaration(SpecDeclaration::FnDecl(f)) => lemma_fn_decl_ids(f, m, next),
        SpecBlockItem::Statement(st) => lemma_stmt_ids(st, m, next),
    }
}

proof fn lemma_items_ids(items: Seq<SpecBlockItem>, m: SpecScope, next: int)
    requires
        res_items(items, m, next).0 is Ok,
        0 <= next,
        next + res_items(items, m, next).1 <= u32::MAX + 1,
    ensures
        decl_ids_items(res_items(items, m, next).0->Ok_0.0) == counting(next, res_items(items, m, next).1 as int),
        res_items(items, m, next).1 == decls_in_items(items),
    decreases items,
{
    if items.len() == 0 {
        lemma_counting_empty(next);
    } else {
        let (r1, n1) = res_item(items[0], m, next);
        let (it, m2) = r1->Ok_0;
        lemma_item_ids(items[0], m, next);
        lemma_items_ids(items.drop_first(), m2, next + n1);
        let (rest, _m3) = res_items(items.drop_first(), m2, next + n1).0->Ok_0;
        let n2 = res_items(items.drop_first(), m2, next + n1).1;
        let all = seq![it] + rest;
        assert(all[0] == it);
        assert(all.drop_first() =~= rest);
        lemma_counting_join(next, n1 as int, n2 as int);
    }
}

proof fn lemma_fn_decl_ids(f: SpecFnDecl, m: SpecScope, next: int)
    requires
        res_fn_decl(f, m, next).0 is Ok,
        0 <= next,
        next + res_fn_decl(f, m, next).1 <= u32::MAX + 1,
    ensures
        decl_ids_fn(res_fn_decl(f, m, next).0->Ok_0.0) == counting(next, res_fn_decl(f, m, next).1 as int),
        decl_ids_item(SpecBlockItem::Declaration(SpecDeclaration::FnDecl(res_fn_decl(f, m, next).0->Ok_0.0)))
            == counting(next, res_fn_decl(f, m, next).1 as int),
        res_fn_decl(f, m, next).1 == decls_in_fn(f),
        f.body is None ==> res_fn_decl(f, m, next).1 == decls_in_item(SpecBlockItem::Declaration(SpecDeclaration::FnDecl(f))),
    decreases f,
{
    let m2 = m.push((f.name, IdentifierMapEntry { id: crate::common::TempId(0), is_from_current_scope: true, has_linkage: true }));
    let (rp, n1) = res_params(f.params, scope_copy(m2), next);
    let (ps2, inner) = rp->Ok_0;
    lemma_params_ids(f.params, scope_copy(m2), next);
    match f.body {
        None => {
            assert(param_ids(ps2) + Seq::<int>::empty() =~= param_ids(ps2));
        },
        Some(b) => {
            lemma_items_ids(b, inner, next + n1);
            lemma_counting_join(next, n1 as int, res_items(b, inner, next + n1).1 as int);
        },
    }
}

proof fn lemma_functions_ids(fs: Seq<SpecFnDecl>, m: SpecScope, next: int)
    requires
        res_functions(fs, m, next).0 is Ok,
        0 <= next,
        next + res_functions(fs, m, next).1 <= u32::MAX + 1,
    ensures
        decl_ids_fns(res_functions(fs, m, next).0->Ok_0) == counting(next, res_functions(fs, m, next).1 as int),
        res_functions(fs, m, next).1 == decls_in_fns(fs),
    decreases fs.len(),
{
    if fs.len() == 0 {
        lemma_counting_empty(next);
    } else {
        let (r1, n1) = res_fn_decl(fs[0], m, next);
        let (f2, m2) = r1->Ok_0;
        lemma_fn_decl_ids(fs[0], m, next);
        lemma_functions_ids(fs.drop_first(), m2, next + n1);
        let rest = res_functions(fs.drop_first(), m2, next + n1).0->Ok_0;
        let n2 = res_functions(fs.drop_first(), m2, next + n1).1;
        let all = seq![f2] + rest;
        assert(all[0] == f2);
        assert(all.drop_first() =~= rest);
        lemma_counting_join(next, n1 as int, n2 as int);
    }
}

/// Resolution numbers each declaration once: in a program that resolution
/// accepts, the variables (`for` initialisers included) and named parameters
/// of all function declarations, with or without a body, read in program
/// order, carry the numbers `next`, `next + 1`, ...; the counter draws
/// exactly one number per declaration, so a new analyzer, whose counter
/// starts at 1, ends at one more than the number of declarations, and no
/// two declarations share a number.
pub proof fn lemma_resolved_numbers_fresh(fs: Seq<SpecFnDecl>, m: SpecScope, next: int)
    requires
        res_functions(fs, m, next).0 is Ok,
        0 <= next,
        next + res_functions(fs, m, next).1 <= u32::MAX + 1,
    ensures
        res_functions(fs, m, next).1 == decls_in_fns(fs),
        decl_ids_fns(res_functions(fs, m, next).0->Ok_0) == counting(next, decls_in_fns(fs) as int),
        no_repeats(decl_ids_fns(res_functions(fs, m, next).0->Ok_0)),
{
    lemma_functions_ids(fs, m, next);
}

} // verus!
