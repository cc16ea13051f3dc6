//! How many numbers resolution and loop labelling can draw at most: one per
//! declaration and one per loop of the input, whether or not the stage
//! succeeds. The checks here let a caller test, before it calls either
//! stage, that the counter cannot run out.
use vstd::prelude::*;

use crate::ir::labels::{loops_in_fns, loops_in_items, loops_in_stmt};
use crate::ir::labels::{loops_in_fn, loops_in_item};
use crate::parser::c_ast::{
    fns_view, items_view, params_view, CBlockItem, CDeclaration, CFnDecl, CForInit, CParam, CProgram, CStatement,
};
use crate::parser::semantic_analysis::SemanticAnalyzer;
use crate::parser::c_ast::{SpecBlockItem, SpecDeclaration, SpecFnDecl, SpecForInit, SpecParam, SpecStatement, SpecVarDecl};
use crate::parser::numbering::{decls_in_fns, decls_in_items, decls_in_item, decls_in_params, decls_in_stmt, decls_in_fn};
use crate::parser::semantic_analysis::{
    label_functions, label_items, label_stmt, res_fn_decl, res_functions, res_item, res_items, res_param, res_params,
    res_stmt, res_var_decl, scope_copy, IdentifierMapEntry, SpecScope,
};

verus! {

proof fn lemma_params_bound(ps: Seq<SpecParam>, m: SpecScope, next: int)
    ensures
        res_params(ps, m, next).1 <= decls_in_params(ps),
    decreases ps.len(),
{
    if ps.len() > 0 {
        let (r1, n1) = res_param(ps[0], m, next);
        if r1 is Ok {
            lemma_params_bound(ps.drop_first(), r1->Ok_0.1, next + n1);
        }
    }
}

proof fn lemma_stmt_bound(s: SpecStatement, m: SpecScope, next: int)
    ensures
        res_stmt(s, m, next).1 <= decls_in_stmt(s),
    decreases s,
{
    match s {
        SpecStatement::If { cond: _, then, else_ } => {
            lemma_stmt_bound(*then, m, next);
            if let Some(es) = else_ {
                lemma_stmt_bound(*es, m, next + res_stmt(*then, m, next).1);
            }
        },
        SpecStatement::Compound(items) => lemma_items_bound(items, scope_copy(m), next),
        SpecStatement::While { cond: _, body, label: _ } => lemma_stmt_bound(*body, m, next),
        SpecStatement::DoWhile { body, cond: _, label: _ } => lemma_stmt_bound(*body, m, next),
        SpecStatement::For { init, cond: _, post: _, body, label: _ } => {
            let m1 = scope_copy(m);
            match init {
                SpecForInit::InitDecl(d) => {
                    let (r, n) = res_var_decl(d, m1, next);
                    if r is Ok {
                        lemma_stmt_bound(*body, r->Ok_0.1, next + n);
                    }
                },
                SpecForInit::InitExp(_) => lemma_stmt_bound(*body, m1, next),
            }
        },
        _ => {},
    }
}

proof fn lemma_item_bound(it: SpecBlockItem, m: SpecScope, next: int)
    ensures
        res_item(it, m, next).1 <= decls_in_item(it),
    decreases it,
{
    match it {
        SpecBlockItem::Declaration(SpecDeclaration::FnDecl(f)) => lemma_fn_decl_bound(f, m, next),
        SpecBlockItem::Statement(st) => lemma_stmt_bound(st, m, next),
        _ => {},
    }
}

proof fn lemma_items_bound(items: Seq<SpecBlockItem>, m: SpecScope, next: int)
    ensures
        res_items(items, m, next).1 <= decls_in_items(items),
    decreases items,
{
    if items.len() > 0 {
        let (r1, n1) = res_item(items[0], m, next);
        lemma_item_bound(items[0], m, next);
        if r1 is Ok {
            lemma_items_bound(items.drop_first(), r1->Ok_0.1, next + n1);
        }
    }
}

proof fn lemma_fn_decl_bound(f: SpecFnDecl, m: SpecScope, next: int)
    ensures
        res_fn_decl(f, m, next).1 <= decls_in_fn(f),
        f.body is None ==> res_fn_decl(f, m, next).1 <= decls_in_item(SpecBlockItem::Declaration(SpecDeclaration::FnDecl(f))),
    decreases f,
{
    let m2 = m.push((f.name, IdentifierMapEntry { id: crate::common::TempId(0), is_from_current_scope: true, has_linkage: true }));
    let (rp, n1) = res_params(f.params, scope_copy(m2), next);
    lemma_params_bound(f.params, scope_copy(m2), next);
    if rp is Ok {
        if let Some(b) = f.body {
            lemma_items_bound(b, rp->Ok_0.1, next + n1);
        }
    }
}

/// Resolution draws at most one number per declaration of the input, whether
/// it succeeds or not.
pub proof fn lemma_resolution_draws_at_most(fs: Seq<SpecFnDecl>, m: SpecScope, next: int)
    ensures
        res_functions(fs, m, next).1 <= decls_in_fns(fs),
    decreases fs.len(),
{
    if fs.len() > 0 {
        let (r1, n1) = res_fn_decl(fs[0], m, next);
        lemma_fn_decl_bound(fs[0], m, next);
        if r1 is Ok {
            lemma_resolution_draws_at_most(fs.drop_first(), r1->Ok_0.1, next + n1);
        }
    }
}

proof fn lemma_label_stmt_bound(s: SpecStatement, cur: Option<crate::ir::ir_ast::Label>, next: int)
    ensures
        label_stmt(s, cur, next).1 <= loops_in_stmt(s),
    decreases s, 0int,
{
    match s {
        SpecStatement::While { cond: _, body, label: _ } => {
            lemma_label_stmt_bound(*body, Some(crate::parser::semantic_analysis::loop_label(next)), next + 1)
        },
        SpecStatement::DoWhile { body, cond: _, label: _ } => {
            lemma_label_stmt_bound(*body, Some(crate::parser::semantic_analysis::loop_label(next)), next + 1)
        },
        SpecStatement::For { init: _, cond: _, post: _, body, label: _ } => {
            lemma_label_stmt_bound(*body, Some(crate::parser::semantic_analysis::loop_label(next)), next + 1)
        },
        SpecStatement::If { cond: _, then, else_ } => {
            lemma_label_stmt_bound(*then, cur, next);
            if let Some(es) = else_ {
                lemma_label_stmt_bound(*es, cur, next + label_stmt(*then, cur, next).1);
            }
        },
        SpecStatement::Compound(items) => lemma_label_items_bound(items, cur, next),
        _ => {},
    }
}

proof fn lemma_label_items_bound(items: Seq<SpecBlockItem>, cur: Option<crate::ir::ir_ast::Label>, next: int)
    ensures
        label_items(items, cur, next).1 <= loops_in_items(items),
    decreases items, 0int,
{
    if items.len() > 0 {
        let n1: nat = match items[0] {
            SpecBlockItem::Statement(st) => {
                lemma_label_stmt_bound(st, cur, next);
                label_stmt(st, cur, next).1
            },
            _ => 0,
        };
        lemma_label_items_bound(items.drop_first(), cur, next + n1);
        assert(loops_in_items(items) == crate::ir::labels::loops_in_item(items[0]) + loops_in_items(items.drop_first()));
        assert(n1 <= crate::ir::labels::loops_in_item(items[0]));
        assert(label_items(items, cur, next).1 <= n1 + label_items(items.drop_first(), cur, next + n1).1);
    }
}

/// Loop labelling draws at most one number per loop of the input, whether
/// it succeeds or not.
pub proof fn lemma_labelling_draws_at_most(fs: Seq<SpecFnDecl>, next: int)
    ensures
        label_functions(fs, next).1 <= loops_in_fns(fs),
    decreases fs.len(),
{
    if fs.len() > 0 {
        let n1: nat = match fs[0].body {
            Some(b) => {
                lemma_label_items_bound(b, None, next);
                label_items(b, None, next).1
            },
            None => 0,
        };
        lemma_labelling_draws_at_most(fs.drop_first(), next + n1);
    }
}

/// `n`, or `2^32` where it is larger.
pub open spec fn capped(n: nat) -> nat {
    if n < 0x1_0000_0000 { n } else { 0x1_0000_0000 }
}

fn add_capped(a: u64, b: u64) -> (r: u64)
    requires
        a <= 0x1_0000_0000,
        b <= 0x1_0000_0000,
    ensures
        forall|x: nat, y: nat| #![trigger capped(x), capped(y)] a == capped(x) && b == capped(y) ==> r == capped(x + y),
{
    if a + b < 0x1_0000_0000 { a + b } else { 0x1_0000_0000 }
}

/// The declarations and the loops that `s` holds, each count capped at `2^32`.
fn count_stmt(s: &CStatement) -> (r: (u64, u64))
    ensures
        r.0 == capped(decls_in_stmt(s@)),
        r.1 == capped(loops_in_stmt(s@)),
    decreases s@,
{
    assert(capped(0) == 0 && capped(1) == 1);
    match s {
        CStatement::If { cond: _, then, else_ } => {
            let t: &CStatement = then;
            assert(s@ is If && s@->If_then == Box::new(t@));
            assert(decreases_to!(s@ => t@));
            let a = count_stmt(t);
            match else_ {
                Some(e) => {
                    let ev: &CStatement = e;
                    assert(s@->If_else_ == Some(Box::new(ev@)));
                    assert(decreases_to!(s@ => s@->If_else_));
                    assert(decreases_to!(s@->If_else_ => s@->If_else_->Some_0));
                    assert(decreases_to!(s@ => ev@));
                    let b = count_stmt(ev);
                    (add_capped(a.0, b.0), add_capped(a.1, b.1))
                },
                None => {
                    assert(decls_in_stmt(s@) == decls_in_stmt(t@));
                    a
                },
            }
        },
        CStatement::Compound(b) => {
            assert(s@ == SpecStatement::Compound(items_view(b.0@)));
            assert(s@->Compound_0 == items_view(b.0@));
            assert(decreases_to!(s@ => s@->Compound_0));
            count_items(&b.0)
        },
        CStatement::While { cond: _, body, label: _ } => {
            let t: &CStatement = body;
            assert(s@ is While && s@->While_body == Box::new(t@));
            assert(decreases_to!(s@ => t@));
            let a = count_stmt(t);
            (a.0, add_capped(1, a.1))
        },
        CStatement::DoWhile { body, cond: _, label: _ } => {
            let t: &CStatement = body;
            assert(s@ is DoWhile && s@->DoWhile_body == Box::new(t@));
            assert(decreases_to!(s@ => t@));
            let a = count_stmt(t);
            (a.0, add_capped(1, a.1))
        },
        CStatement::For { init, cond: _, post: _, body, label: _ } => {
            let t: &CStatement = body;
            assert(s@ is For && s@->For_body == Box::new(t@));
            assert(decreases_to!(s@ => t@));
            let a = count_stmt(t);
            let d: u64 = match init {
                CForInit::InitDecl(_) => 1,
                CForInit::InitExp(_) => 0,
            };
            (add_capped(d, a.0), add_capped(1, a.1))
        },
        _ => (0, 0),
    }
}

fn count_params(ps: &Vec<CParam>) -> (n: u64)
    ensures
        n == capped(decls_in_params(params_view(ps@))),
{
    let ghost pv = params_view(ps@);
    let mut n: u64 = 0;
    let mut i: usize = ps.len();
    assert(pv.skip(i as int) =~= Seq::<SpecParam>::empty());
    while i > 0
        invariant
            i <= ps.len(),
            pv == params_view(ps@),
            n == capped(decls_in_params(pv.skip(i as int))),
        decreases i,
    {
        i = i - 1;
        assert(pv.skip(i as int).drop_first() =~= pv.skip(i + 1));
        assert(pv.skip(i as int)[0] == ps@[i as int].view_of());
        let one: u64 = if ps[i].name.is_some() { 1 } else { 0 };
        assert(one == capped(if pv[i as int].name is Some { 1nat } else { 0nat }));
        n = add_capped(one, n);
    }
    assert(pv.skip(0) =~= pv);
    n
}

/// The declarations and the loops that the items hold, each capped at `2^32`.
fn count_items(items: &Vec<CBlockItem>) -> (r: (u64, u64))
    ensures
        r.0 == capped(decls_in_items(items_view(items@))),
        r.1 == capped(loops_in_items(items_view(items@))),
    decreases items_view(items@),
{
    let ghost iv = items_view(items@);
    let mut r: (u64, u64) = (0, 0);
    let mut i: usize = items.len();
    assert(iv.skip(i as int) =~= Seq::<SpecBlockItem>::empty());
    while i > 0
        invariant
            i <= items.len(),
            iv == items_view(items@),
            r.0 == capped(decls_in_items(iv.skip(i as int))),
            r.1 == capped(loops_in_items(iv.skip(i as int))),
        decreases i,
    {
        i = i - 1;
        assert(iv.skip(i as int).drop_first() =~= iv.skip(i + 1));
        assert(iv.skip(i as int)[0] == iv[i as int]);
        assert(iv[i as int] == items@[i as int].view_of());
        assert(decreases_to!(iv => iv[i as int]));
        let a = count_item(&items[i]);
        r = (add_capped(a.0, r.0), add_capped(a.1, r.1));
    }
    assert(iv.skip(0) =~= iv);
    r
}

fn count_item(it: &CBlockItem) -> (r: (u64, u64))
    ensures
        r.0 == capped(decls_in_item(it@)),
        r.1 == capped(loops_in_item(it@)),
    decreases it@,
{
    match it {
        CBlockItem::Statement(st) => {
            assert(it@ == SpecBlockItem::Statement(st@));
            assert(decreases_to!(it@ => st@));
            count_stmt(st)
        },
        CBlockItem::Declaration(CDeclaration::VarDecl(_)) => {
            assert(capped(1) == 1 && capped(0) == 0);
            (1, 0)
        },
        CBlockItem::Declaration(CDeclaration::FnDecl(f)) => (count_params(&f.params), 0),
    }
}

fn count_function(f: &CFnDecl) -> (r: (u64, u64))
    ensures
        r.0 == capped(decls_in_fn(f@)),
        r.1 == capped(loops_in_fn(f@)),
{
    let p = count_params(&f.params);
    match &f.body {
        Some(b) => {
            let a = count_items(&b.0);
            (add_capped(p, a.0), a.1)
        },
        None => (p, 0),
    }
}

fn count_program(program: &CProgram) -> (r: (u64, u64))
    ensures
        r.0 == capped(decls_in_fns(program@.functions)),
        r.1 == capped(loops_in_fns(program@.functions)),
{
    let ghost fv = program@.functions;
    let mut r: (u64, u64) = (0, 0);
    let mut i: usize = program.functions.len();
    assert(fv.skip(i as int) =~= Seq::<SpecFnDecl>::empty());
    while i > 0
        invariant
            i <= program.functions.len(),
            fv == fns_view(program.functions@),
            r.0 == capped(decls_in_fns(fv.skip(i as int))),
            r.1 == capped(loops_in_fns(fv.skip(i as int))),
        decreases i,
    {
        i = i - 1;
        assert(fv.skip(i as int).drop_first() =~= fv.skip(i + 1));
        assert(fv.skip(i as int)[0] == program.functions@[i as int].view_of());
        let a = count_function(&program.functions[i]);
        r = (add_capped(a.0, r.0), add_capped(a.1, r.1));
    }
    assert(fv.skip(0) =~= fv);
    r
}

impl SemanticAnalyzer {
    /// Whether resolving `program` is sure to keep the variable counter
    /// within `u32`: true exactly when the counter plus the number of
    /// declarations in `program` fits, which is what `resolve_variables`
    /// requires, whether or not resolution succeeds.
    pub fn resolution_fits(&self, program: &CProgram) -> (r: bool)
        ensures
            r == (self.var_counter() + decls_in_fns(program@.functions) <= u32::MAX),
            r ==> self.var_counter() + res_functions(program@.functions, Seq::empty(), self.var_counter()).1 <= u32::MAX,
    {
        proof {
            lemma_resolution_draws_at_most(program@.functions, Seq::empty(), self.var_counter());
        }
        let (d, _) = count_program(program);
        let v = self.get_next_var_id();
        v as u64 + d <= 0xffff_ffff
    }

    /// Whether labelling the loops of `program` is sure to keep the label
    /// counter within `u32`: true exactly when the counter plus the number
    /// of loops in `program` fits, which is what `label_loops` requires,
    /// whether or not labelling succeeds.
    pub fn labelling_fits(&self, program: &CProgram) -> (r: bool)
        ensures
            r == (self.label_counter() + loops_in_fns(program@.functions) <= u32::MAX),
            r ==> self.label_counter() + label_functions(program@.functions, self.label_counter()).1 <= u32::MAX,
    {
        proof {
            lemma_labelling_draws_at_most(program@.functions, self.label_counter());
        }
        let (_, n) = count_program(program);
        let l = self.get_next_label_id();
        l as u64 + n <= 0xffff_ffff
    }
}

} // verus!
