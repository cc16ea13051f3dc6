//! How many temporaries and labels translation draws, read off the shape of
//! the program alone, so that a caller can test before translating that
//! the counters cannot run out.
use vstd::prelude::*;

use crate::common::BinaryOp;
use crate::parser::limits::capped;
use crate::ir::{
    args_ir, effect_ir, exp_ir, factor_ir, for_cond_ir, for_init_ir, item_ir, items_ir, program_ir, stmt_ir,
    var_decl_ir,
};
use crate::parser::c_ast::{
    fns_view, items_view, CBlockItem, CDeclaration, CExpression, CFactor, CFnDecl, CForInit, CProgram, CStatement,
    CVarDecl, SpecBlockItem, SpecDeclaration, SpecExpression, SpecFactor, SpecFnDecl, SpecForInit, SpecStatement, SpecVarDecl,
};

verus! {

/// Temporaries and labels, added up.
pub open spec fn plus(a: (nat, nat), b: (nat, nat)) -> (nat, nat) {
    (a.0 + b.0, a.1 + b.1)
}

/// What translating `e` draws: temporaries, then labels.
pub open spec fn expr_cost(e: SpecExpression) -> (nat, nat)
    decreases e, 1int,
{
    match e {
        SpecExpression::Factor(f) => factor_cost(*f),
        SpecExpression::Binary(op, a, b) => plus(plus(expr_cost(*a), expr_cost(*b)), (
            1,
            if op == BinaryOp::LogicalAnd || op == BinaryOp::LogicalOr { 2 } else { 0 },
        )),
        SpecExpression::Assign(_, b) => expr_cost(*b),
        SpecExpression::Conditional { cond, then, else_ } => plus(
            plus(plus(expr_cost(*cond), expr_cost(*then)), expr_cost(*else_)),
            (1, 2),
        ),
    }
}

pub open spec fn factor_cost(f: SpecFactor) -> (nat, nat)
    decreases f, 1int,
{
    match f {
        SpecFactor::Unary(_, g) => plus(factor_cost(*g), (1, 0)),
        SpecFactor::Expression(e) => expr_cost(e),
        SpecFactor::FunctionCall(_, args) => plus(args_cost(args), (1, 0)),
        _ => (0, 0),
    }
}

pub open spec fn args_cost(args: Seq<SpecExpression>) -> (nat, nat)
    decreases args, 1int,
{
    if args.len() == 0 {
        (0, 0)
    } else {
        plus(expr_cost(args[0]), args_cost(args.drop_first()))
    }
}

pub open spec fn opt_cost(e: Option<SpecExpression>) -> (nat, nat) {
    match e {
        Some(x) => expr_cost(x),
        None => (0, 0),
    }
}

pub open spec fn var_decl_cost(d: SpecVarDecl) -> (nat, nat) {
    opt_cost(d.init)
}

/// What translating `s` draws.
pub open spec fn stmt_cost(s: SpecStatement) -> (nat, nat)
    decreases s, 0int,
{
    match s {
        SpecStatement::Return(e) => expr_cost(e),
        SpecStatement::Expression(e) => expr_cost(e),
        SpecStatement::If { cond, then, else_ } => match else_ {
            Some(es) => plus(plus(plus(expr_cost(cond), stmt_cost(*then)), stmt_cost(*es)), (0, 2)),
            None => plus(plus(expr_cost(cond), stmt_cost(*then)), (0, 1)),
        },
        SpecStatement::Compound(items) => items_cost(items),
        SpecStatement::While { cond, body, label: _ } => plus(expr_cost(cond), stmt_cost(*body)),
        SpecStatement::DoWhile { body, cond, label: _ } => plus(expr_cost(cond), stmt_cost(*body)),
        SpecStatement::For { init, cond, post, body, label: _ } => plus(
            plus(
                plus(
                    match init {
                        SpecForInit::InitDecl(d) => var_decl_cost(d),
                        SpecForInit::InitExp(e) => opt_cost(e),
                    },
                    opt_cost(cond),
                ),
                stmt_cost(*body),
            ),
            opt_cost(post),
        ),
        _ => (0, 0),
    }
}

/// What translating the items draws.
pub open spec fn items_cost(items: Seq<SpecBlockItem>) -> (nat, nat)
    decreases items, 0int,
{
    if items.len() == 0 {
        (0, 0)
    } else {
        plus(item_cost(items[0]), items_cost(items.drop_first()))
    }
}

pub open spec fn item_cost(it: SpecBlockItem) -> (nat, nat)
    decreases it, 0int,
{
    match it {
        SpecBlockItem::Declaration(SpecDeclaration::VarDecl(d)) => var_decl_cost(d),
        SpecBlockItem::Declaration(SpecDeclaration::FnDecl(f)) => match f.body {
            Some(b) => items_cost(b),
            None => (0, 0),
        },
        SpecBlockItem::Statement(s) => stmt_cost(s),
    }
}

/// What translating the defined functions draws.
pub open spec fn fns_cost(fs: Seq<SpecFnDecl>) -> (nat, nat)
    decreases fs.len(),
{
    if fs.len() == 0 {
        (0, 0)
    } else {
        plus(match fs[0].body {
            Some(b) => items_cost(b),
            None => (0, 0),
        }, fns_cost(fs.drop_first()))
    }
}

proof fn lemma_expr_cost(e: SpecExpression, v: int, l: int)
    requires
        exp_ir(e, v, l) is Some,
    ensures
        (exp_ir(e, v, l).unwrap().temps, exp_ir(e, v, l).unwrap().labels) == expr_cost(e),
    decreases e, 1int,
{
    match e {
        SpecExpression::Factor(f) => lemma_factor_cost(*f, v, l),
        SpecExpression::Binary(op, a, b) => {
            lemma_expr_cost(*a, v, l);
            let r1 = exp_ir(*a, v, l).unwrap();
            lemma_expr_cost(*b, v + r1.temps, l + r1.labels);
        },
        SpecExpression::Assign(_, b) => lemma_expr_cost(*b, v, l),
        SpecExpression::Conditional { cond, then, else_ } => {
            lemma_expr_cost(*cond, v + 1, l);
            let c = exp_ir(*cond, v + 1, l).unwrap();
            lemma_expr_cost(*then, v + 1 + c.temps, l + c.labels);
            let t = exp_ir(*then, v + 1 + c.temps, l + c.labels).unwrap();
            lemma_expr_cost(*else_, v + 1 + c.temps + t.temps, l + c.labels + t.labels);
        },
    }
}

proof fn lemma_factor_cost(f: SpecFactor, v: int, l: int)
    requires
        factor_ir(f, v, l) is Some,
    ensures
        (factor_ir(f, v, l).unwrap().temps, factor_ir(f, v, l).unwrap().labels) == factor_cost(f),
    decreases f, 1int,
{
    match f {
        SpecFactor::Unary(_, g) => lemma_factor_cost(*g, v, l),
        SpecFactor::Expression(e) => lemma_expr_cost(e, v, l),
        SpecFactor::FunctionCall(_, args) => lemma_args_cost(args, v + 1, l),
        _ => {},
    }
}

proof fn lemma_args_cost(args: Seq<SpecExpression>, v: int, l: int)
    requires
        args_ir(args, v, l) is Some,
    ensures
        (args_ir(args, v, l).unwrap().1.temps, args_ir(args, v, l).unwrap().1.labels) == args_cost(args),
    decreases args, 1int,
{
    if args.len() > 0 {
        lemma_expr_cost(args[0], v, l);
        let r = exp_ir(args[0], v, l).unwrap();
        lemma_args_cost(args.drop_first(), v + r.temps, l + r.labels);
    }
}

proof fn lemma_opt_cost(e: Option<SpecExpression>, v: int, l: int)
    requires
        effect_ir(e, v, l) is Some,
    ensures
        (effect_ir(e, v, l).unwrap().temps, effect_ir(e, v, l).unwrap().labels) == opt_cost(e),
{
    if let Some(x) = e {
        lemma_expr_cost(x, v, l);
    }
}

proof fn lemma_var_decl_cost(d: SpecVarDecl, v: int, l: int)
    requires
        var_decl_ir(d, v, l) is Some,
    ensures
        (var_decl_ir(d, v, l).unwrap().temps, var_decl_ir(d, v, l).unwrap().labels) == var_decl_cost(d),
{
    if let Some(x) = d.init {
        lemma_expr_cost(x, v, l);
    }
}

proof fn lemma_stmt_cost(s: SpecStatement, v: int, l: int)
    requires
        stmt_ir(s, v, l) is Some,
    ensures
        (stmt_ir(s, v, l).unwrap().temps, stmt_ir(s, v, l).unwrap().labels) == stmt_cost(s),
    decreases s, 0int,
{
    match s {
        SpecStatement::Return(e) => lemma_expr_cost(e, v, l),
        SpecStatement::Expression(e) => lemma_expr_cost(e, v, l),
        SpecStatement::If { cond, then, else_ } => {
            lemma_expr_cost(cond, v, l);
            let c = exp_ir(cond, v, l).unwrap();
            lemma_stmt_cost(*then, v + c.temps, l + c.labels);
            let t = stmt_ir(*then, v + c.temps, l + c.labels).unwrap();
            if let Some(es) = else_ {
                lemma_stmt_cost(*es, v + c.temps + t.temps, l + c.labels + t.labels + 1);
            }
        },
        SpecStatement::Compound(items) => lemma_items_cost(items, v, l),
        SpecStatement::While { cond, body, label: _ } => {
            lemma_expr_cost(cond, v, l);
            let c = exp_ir(cond, v, l).unwrap();
            lemma_stmt_cost(*body, v + c.temps, l + c.labels);
        },
        SpecStatement::DoWhile { body, cond, label: _ } => {
            lemma_expr_cost(cond, v, l);
            let c = exp_ir(cond, v, l).unwrap();
            lemma_stmt_cost(*body, v + c.temps, l + c.labels);
        },
        SpecStatement::For { init, cond, post, body, label } => {
            let start = label.unwrap();
            match init {
                SpecForInit::InitDecl(d) => lemma_var_decl_cost(d, v, l),
                SpecForInit::InitExp(e) => lemma_opt_cost(e, v, l),
            }
            let i = for_init_ir(init, v, l).unwrap();
            if let Some(c) = cond {
                lemma_expr_cost(c, v + i.temps, l + i.labels);
            }
            let c = for_cond_ir(cond, start, v + i.temps, l + i.labels).unwrap();
            lemma_stmt_cost(*body, v + i.temps + c.temps, l + i.labels + c.labels);
            let b = stmt_ir(*body, v + i.temps + c.temps, l + i.labels + c.labels).unwrap();
            lemma_opt_cost(post, v + i.temps + c.temps + b.temps, l + i.labels + c.labels + b.labels);
        },
        _ => {},
    }
}

proof fn lemma_item_cost(it: SpecBlockItem, v: int, l: int)
    requires
        item_ir(it, v, l) is Some,
    ensures
        (item_ir(it, v, l).unwrap().temps, item_ir(it, v, l).unwrap().labels) == item_cost(it),
    decreases it, 0int,
{
    match it {
        SpecBlockItem::Declaration(SpecDeclaration::VarDecl(d)) => lemma_var_decl_cost(d, v, l),
        SpecBlockItem::Declaration(SpecDeclaration::FnDecl(f)) => {
            if let Some(b) = f.body {
                lemma_items_cost(b, v, l);
            }
        },
        SpecBlockItem::Statement(s) => lemma_stmt_cost(s, v, l),
    }
}

proof fn lemma_items_cost(items: Seq<SpecBlockItem>, v: int, l: int)
    requires
        items_ir(items, v, l) is Some,
    ensures
        (items_ir(items, v, l).unwrap().temps, items_ir(items, v, l).unwrap().labels) == items_cost(items),
    decreases items, 0int,
{
    if items.len() > 0 {
        lemma_item_cost(items[0], v, l);
        let a = item_ir(items[0], v, l).unwrap();
        lemma_items_cost(items.drop_first(), v + a.temps, l + a.labels);
    }
}

/// Translation draws, for a program it translates, exactly the temporaries
/// and labels that the shape of the program gives, wherever the counters start.
pub proof fn lemma_program_cost(fs: Seq<SpecFnDecl>, v: int, l: int)
    requires
        program_ir(fs, v, l) is Some,
    ensures
        (program_ir(fs, v, l).unwrap().1, program_ir(fs, v, l).unwrap().2) == fns_cost(fs),
    decreases fs.len(),
{
    if fs.len() > 0 {
        if fs[0].body is None {
            lemma_program_cost(fs.drop_first(), v, l);
        } else {
            let b = fs[0].body.unwrap();
            lemma_items_cost(b, v, l);
            let c = items_ir(b, v, l).unwrap();
            lemma_program_cost(fs.drop_first(), v + c.temps, l + c.labels);
        }
    }
}

/// `(a, b)` added to `(c, d)`, each sum capped at `2^32`.
fn add_pair(x: (u64, u64), y: (u64, u64)) -> (r: (u64, u64))
    requires
        x.0 <= 0x1_0000_0000,
        x.1 <= 0x1_0000_0000,
        y.0 <= 0x1_0000_0000,
        y.1 <= 0x1_0000_0000,
    ensures
        forall|a: (nat, nat), b: (nat, nat)| #![trigger capped(a.0), capped(b.0)]
            x.0 == capped(a.0) && x.1 == capped(a.1) && y.0 == capped(b.0) && y.1 == capped(b.1)
            ==> r.0 == capped(plus(a, b).0) && r.1 == capped(plus(a, b).1),
{
    let t = if x.0 + y.0 < 0x1_0000_0000 { x.0 + y.0 } else { 0x1_0000_0000 };
    let u = if x.1 + y.1 < 0x1_0000_0000 { x.1 + y.1 } else { 0x1_0000_0000 };
    (t, u)
}

/// The cost of `e`, each count capped at `2^32`.
fn cost_expr(e: &CExpression) -> (r: (u64, u64))
    ensures
        r.0 == capped(expr_cost(e@).0),
        r.1 == capped(expr_cost(e@).1),
    decreases e@, 1int,
{
    assert(capped(0) == 0 && capped(1) == 1 && capped(2) == 2);
    match e {
        CExpression::Factor(f) => {
            let g: &CFactor = f;
            assert(e@ is Factor && e@->Factor_0 == Box::new(g@));
            assert(decreases_to!(e@ => g@));
            cost_factor(g)
        },
        CExpression::Binary(op, a, b) => {
            let x: &CExpression = a;
            let y: &CExpression = b;
            assert(e@ is Binary && e@->Binary_1 == Box::new(x@) && e@->Binary_2 == Box::new(y@));
            assert(decreases_to!(e@ => x@));
            assert(decreases_to!(e@ => y@));
            let ca = cost_expr(x);
            let cb = cost_expr(y);
            let logical: u64 = match op {
                BinaryOp::LogicalAnd | BinaryOp::LogicalOr => 2,
                _ => 0,
            };
            let ab = add_pair(ca, cb);
            add_pair(ab, (1, logical))
        },
        CExpression::Assign(_, b) => {
            let y: &CExpression = b;
            assert(e@ is Assign && e@->Assign_1 == Box::new(y@));
            assert(decreases_to!(e@ => y@));
            cost_expr(y)
        },
        CExpression::Conditional { cond, then, else_ } => {
            let c: &CExpression = cond;
            let t: &CExpression = then;
            let f: &CExpression = else_;
            assert(e@ is Conditional && e@->Conditional_cond == Box::new(c@) && e@->Conditional_then == Box::new(t@)
                && e@->Conditional_else_ == Box::new(f@));
            assert(decreases_to!(e@ => c@));
            assert(decreases_to!(e@ => t@));
            assert(decreases_to!(e@ => f@));
            let cc = cost_expr(c);
            let ct = cost_expr(t);
            let cf = cost_expr(f);
            let a1 = add_pair(cc, ct);
            let a2 = add_pair(a1, cf);
            add_pair(a2, (1, 2))
        },
    }
}

fn cost_factor(f: &CFactor) -> (r: (u64, u64))
    ensures
        r.0 == capped(factor_cost(f@).0),
        r.1 == capped(factor_cost(f@).1),
    decreases f@, 1int,
{
    assert(capped(0) == 0 && capped(1) == 1);
    match f {
        CFactor::Unary(_, g) => {
            let h: &CFactor = g;
            assert(f@ is Unary && f@->Unary_1 == Box::new(h@));
            assert(decreases_to!(f@ => h@));
            let c = cost_factor(h);
            add_pair(c, (1, 0))
        },
        CFactor::Expression(e) => {
            assert(f@ is Expression && f@->Expression_0 == e@);
            assert(decreases_to!(f@ => e@));
            cost_expr(e)
        },
        CFactor::FunctionCall(_, args) => {
            let ghost av = f@->FunctionCall_1;
            assert(f@ is FunctionCall);
            assert(av == crate::parser::c_ast::exprs_view(args@));
            assert(av.len() == args@.len());
            assert forall|k: int| 0 <= k < args@.len() implies av[k] == #[trigger] args@[k]@ by {}
            assert(decreases_to!(f@ => av));
            let mut r: (u64, u64) = (0, 0);
            let mut i: usize = args.len();
            assert(av.skip(i as int) =~= Seq::<SpecExpression>::empty());
            while i > 0
                invariant
                    i <= args@.len(),
                    av == f@->FunctionCall_1,
                    av.len() == args@.len(),
                    forall|k: int| 0 <= k < args@.len() ==> av[k] == #[trigger] args@[k]@,
                    decreases_to!(f@ => av),
                    r.0 == capped(args_cost(av.skip(i as int)).0),
                    r.1 == capped(args_cost(av.skip(i as int)).1),
                decreases i,
            {
                i = i - 1;
                assert(av.skip(i as int).drop_first() =~= av.skip(i + 1));
                assert(av.skip(i as int)[0] == av[i as int]);
                assert(av[i as int] == args@[i as int]@);
                assert(decreases_to!(av => av[i as int]));
                let c = cost_expr(&args[i]);
                r = add_pair(c, r);
            }
            assert(av.skip(0) =~= av);
            add_pair(r, (1, 0))
        },
        _ => (0, 0),
    }
}

fn cost_opt(e: &Option<CExpression>) -> (r: (u64, u64))
    ensures
        r.0 == capped(opt_cost(crate::parser::c_ast::opt_expr_view(*e)).0),
        r.1 == capped(opt_cost(crate::parser::c_ast::opt_expr_view(*e)).1),
{
    match e {
        Some(x) => cost_expr(x),
        None => {
            assert(capped(0) == 0);
            (0, 0)
        },
    }
}

#[verifier::rlimit(60)]
fn cost_stmt(s: &CStatement) -> (r: (u64, u64))
    ensures
        r.0 == capped(stmt_cost(s@).0),
        r.1 == capped(stmt_cost(s@).1),
    decreases s@,
{
    assert(capped(0) == 0 && capped(1) == 1 && capped(2) == 2);
    match s {
        CStatement::Return(e) => cost_expr(e),
        CStatement::Expression(e) => cost_expr(e),
        CStatement::If { cond, then, else_ } => {
            let c = cost_expr(cond);
            let t: &CStatement = then;
            assert(s@ is If && s@->If_then == Box::new(t@));
            assert(decreases_to!(s@ => t@));
            let ct = cost_stmt(t);
            let a = add_pair(c, ct);
            match else_ {
                Some(e) => {
                    let ev: &CStatement = e;
                    assert(s@->If_else_ == Some(Box::new(ev@)));
                    assert(decreases_to!(s@ => s@->If_else_));
                    assert(decreases_to!(s@->If_else_ => s@->If_else_->Some_0));
                    let ce = cost_stmt(ev);
                    let b = add_pair(a, ce);
                    add_pair(b, (0, 2))
                },
                None => add_pair(a, (0, 1)),
            }
        },
        CStatement::Compound(b) => {
            assert(s@->Compound_0 == items_view(b.0@));
            assert(decreases_to!(s@ => s@->Compound_0));
            cost_items(&b.0)
        },
        CStatement::While { cond, body, label: _ } => {
            let c = cost_expr(cond);
            let t: &CStatement = body;
            assert(s@ is While && s@->While_body == Box::new(t@));
            assert(decreases_to!(s@ => t@));
            let cb = cost_stmt(t);
            add_pair(c, cb)
        },
        CStatement::DoWhile { body, cond, label: _ } => {
            let c = cost_expr(cond);
            let t: &CStatement = body;
            assert(s@ is DoWhile && s@->DoWhile_body == Box::new(t@));
            assert(decreases_to!(s@ => t@));
            let cb = cost_stmt(t);
            add_pair(c, cb)
        },
        CStatement::For { init, cond, post, body, label: _ } => {
            let ci = match init {
                CForInit::InitDecl(d) => cost_opt(&d.init),
                CForInit::InitExp(e) => cost_opt(e),
            };
            let cc = cost_opt(cond);
            let t: &CStatement = body;
            assert(s@ is For && s@->For_body == Box::new(t@));
            assert(decreases_to!(s@ => t@));
            let cb = cost_stmt(t);
            let cp = cost_opt(post);
            let a1 = add_pair(ci, cc);
            let a2 = add_pair(a1, cb);
            add_pair(a2, cp)
        },
        _ => (0, 0),
    }
}

fn cost_items(items: &Vec<CBlockItem>) -> (r: (u64, u64))
    ensures
        r.0 == capped(items_cost(items_view(items@)).0),
        r.1 == capped(items_cost(items_view(items@)).1),
    decreases items_view(items@),
{
    let ghost iv = items_view(items@);
    assert(capped(0) == 0);
    let mut r: (u64, u64) = (0, 0);
    let mut i: usize = items.len();
    assert(iv.skip(i as int) =~= Seq::<SpecBlockItem>::empty());
    while i > 0
        invariant
            i <= items.len(),
            iv == items_view(items@),
            r.0 == capped(items_cost(iv.skip(i as int)).0),
            r.1 == capped(items_cost(iv.skip(i as int)).1),
        decreases i,
    {
        i = i - 1;
        assert(iv.skip(i as int).drop_first() =~= iv.skip(i + 1));
        assert(iv.skip(i as int)[0] == iv[i as int]);
        assert(iv[i as int] == items@[i as int].view_of());
        assert(decreases_to!(iv => iv[i as int]));
        let a = cost_item(&items[i]);
        r = add_pair(a, r);
    }
    assert(iv.skip(0) =~= iv);
    r
}

fn cost_item(it: &CBlockItem) -> (r: (u64, u64))
    ensures
        r.0 == capped(item_cost(it@).0),
        r.1 == capped(item_cost(it@).1),
    decreases it@,
{
    assert(capped(0) == 0);
    match it {
        CBlockItem::Statement(st) => {
            assert(it@ == SpecBlockItem::Statement(st@));
            assert(it@->Statement_0 == st@);
            assert(decreases_to!(it@ => it@->Statement_0));
            cost_stmt(st)
        },
        CBlockItem::Declaration(CDeclaration::VarDecl(d)) => cost_opt(&d.init),
        CBlockItem::Declaration(CDeclaration::FnDecl(f)) => match &f.body {
            Some(b) => {
                let ghost fv = f.view_of();
                assert(it@ == SpecBlockItem::Declaration(SpecDeclaration::FnDecl(fv)));
                assert(fv.body == Some(items_view(b.0@)));
                proof {
                    match it@ {
                        SpecBlockItem::Declaration(SpecDeclaration::FnDecl(g)) => {
                            assert(g == fv);
                            match g.body {
                                Some(bb) => {
                                    assert(decreases_to!(it@ => bb));
                                },
                                None => {},
                            }
                        },
                        _ => {},
                    }
                }
                cost_items(&b.0)
            },
            None => (0, 0),
        },
    }
}

/// What translating the program draws, each count capped at `2^32`.
pub(crate) fn program_cost(program: &CProgram) -> (r: (u64, u64))
    ensures
        r.0 == capped(fns_cost(program@.functions).0),
        r.1 == capped(fns_cost(program@.functions).1),
{
    let ghost fv = program@.functions;
    assert(capped(0) == 0);
    let mut r: (u64, u64) = (0, 0);
    let mut i: usize = program.functions.len();
    assert(fv.skip(i as int) =~= Seq::<SpecFnDecl>::empty());
    while i > 0
        invariant
            i <= program.functions.len(),
            fv == fns_view(program.functions@),
            r.0 == capped(fns_cost(fv.skip(i as int)).0),
            r.1 == capped(fns_cost(fv.skip(i as int)).1),
        decreases i,
    {
        i = i - 1;
        assert(fv.skip(i as int).drop_first() =~= fv.skip(i + 1));
        assert(fv.skip(i as int)[0] == program.functions@[i as int].view_of());
        let f: &CFnDecl = &program.functions[i];
        assert(capped(0) == 0);
        let ghost c: (nat, nat) = match fv[i as int].body {
            Some(bb) => items_cost(bb),
            None => (0, 0),
        };
        let a = match &f.body {
            Some(b) => {
                assert(f.view_of().body == Some(items_view(b.0@)));
                cost_items(&b.0)
            },
            None => (0, 0),
        };
        assert(a.0 == capped(c.0) && a.1 == capped(c.1));
        assert(fns_cost(fv.skip(i as int)) == plus(c, fns_cost(fv.skip(i + 1))));
        r = add_pair(a, r);
    }
    assert(fv.skip(0) =~= fv);
    r
}

} // verus!
