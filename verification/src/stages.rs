//! What each stage of the compiler hands the next: resolution numbers every
//! variable, loop labelling names every loop, a program with both can be
//! translated to three-address code, and the code of a program with plain
//! operations can be lowered to assembly.
use vstd::prelude::*;

use crate::codegen::{function_lowerable, program_lowerable};
use crate::common::{BinaryOp, TempId, UnaryOp};
use crate::fresh::no_repeats;
use crate::ir::jumps::{aimed_fn, aimed_item, aimed_items, aimed_stmt, defines, exits, targets};
use crate::ir::labels::{
    drawn_labels, kind_ids, loop_kind, loops_in_fn, loops_in_fns, loops_in_item, loops_in_items, loops_in_stmt, marked_fn,
    marked_item, marked_items, marked_stmt, numbered_fns, numbered_item, numbered_items,
    numbered_stmt, program_code,
};
use crate::ir::ir_ast::{lowerable, IRVal, Label, LabelKind, SpecIRInstruction, SpecIRProgram};
use crate::ir::{
    args_ir, assign_target, binop_code, body_ir, break_of, continue_of, do_while_code, effect_ir,
    exp_ir, factor_ir, for_code, for_cond_ir, for_init_ir, function_ir, if_code, if_else_code,
    item_ir, items_ir, label_at, params_ready, program_ir, stmt_ir, temp, var_decl_ir, while_code,
    Code, ExpCode,
};
use crate::parser::c_ast::{
    SpecBlockItem, SpecDeclaration, SpecExpression, SpecFactor, SpecFnDecl, SpecForInit,
    SpecParam, SpecStatement, SpecVarDecl,
};
use crate::parser::semantic_analysis::{
    label_functions, label_items, label_stmt, loop_label, res_args, res_expr, res_factor,
    res_fn_decl, res_functions, res_item, res_items, res_opt_expr, res_param, res_params,
    res_stmt, res_var_decl, scope_copy, IdentifierMapEntry, SpecScope,
};

verus! {

/// Every variable of `e` has its number, and every assignment stores to a numbered variable.
pub open spec fn resolved_expr(e: SpecExpression) -> bool
    decreases e,
{
    match e {
        SpecExpression::Factor(f) => resolved_factor(*f),
        SpecExpression::Binary(_, a, b) => resolved_expr(*a) && resolved_expr(*b),
        SpecExpression::Assign(a, b) => assign_target(*a) is Some && resolved_expr(*b),
        SpecExpression::Conditional { cond, then, else_ } => resolved_expr(*cond) && resolved_expr(*then)
            && resolved_expr(*else_),
    }
}

pub open spec fn resolved_factor(f: SpecFactor) -> bool
    decreases f,
{
    match f {
        SpecFactor::Constant(_) => true,
        SpecFactor::Unary(_, g) => resolved_factor(*g),
        SpecFactor::Expression(e) => resolved_expr(e),
        SpecFactor::Var(v) => v.id is Some,
        SpecFactor::FunctionCall(_, args) => resolved_args(args),
    }
}

pub open spec fn resolved_args(args: Seq<SpecExpression>) -> bool
    decreases args,
{
    args.len() == 0 || (resolved_expr(args[0]) && resolved_args(args.drop_first()))
}

pub open spec fn resolved_opt(e: Option<SpecExpression>) -> bool {
    match e {
        Some(x) => resolved_expr(x),
        None => true,
    }
}

pub open spec fn resolved_var_decl(d: SpecVarDecl) -> bool {
    d.var.id is Some && resolved_opt(d.init)
}

/// Every expression and declaration of `s` is resolved.
pub open spec fn resolved_stmt(s: SpecStatement) -> bool
    decreases s,
{
    match s {
        SpecStatement::Return(e) => resolved_expr(e),
        SpecStatement::Expression(e) => resolved_expr(e),
        SpecStatement::If { cond, then, else_ } => resolved_expr(cond) && resolved_stmt(*then) && match else_ {
            Some(es) => resolved_stmt(*es),
            None => true,
        },
        SpecStatement::Compound(items) => resolved_items(items),
        SpecStatement::While { cond, body, label: _ } => resolved_expr(cond) && resolved_stmt(*body),
        SpecStatement::DoWhile { body, cond, label: _ } => resolved_expr(cond) && resolved_stmt(*body),
        SpecStatement::For { init, cond, post, body, label: _ } => {
            &&& match init {
                SpecForInit::InitDecl(d) => resolved_var_decl(d),
                SpecForInit::InitExp(e) => resolved_opt(e),
            }
            &&& resolved_opt(cond)
            &&& resolved_opt(post)
            &&& resolved_stmt(*body)
        },
        _ => true,
    }
}

/// Every item is resolved; a function declared inside a block has no body.
pub open spec fn resolved_items(items: Seq<SpecBlockItem>) -> bool
    decreases items,
{
    items.len() == 0 || (resolved_item(items[0]) && resolved_items(items.drop_first()))
}

pub open spec fn resolved_item(it: SpecBlockItem) -> bool
    decreases it,
{
    match it {
        SpecBlockItem::Statement(s) => resolved_stmt(s),
        SpecBlockItem::Declaration(SpecDeclaration::VarDecl(d)) => resolved_var_decl(d),
        SpecBlockItem::Declaration(SpecDeclaration::FnDecl(f)) => f.body is None,
    }
}

/// A defined function has numbered, named parameters and a resolved body.
pub open spec fn resolved_fn(f: SpecFnDecl) -> bool {
    match f.body {
        Some(b) => params_ready(f.params) && resolved_items(b),
        None => true,
    }
}

/// Every loop of `s` has its label, and every `break` and `continue` its target.
pub open spec fn labelled_stmt(s: SpecStatement) -> bool
    decreases s,
{
    match s {
        SpecStatement::Break(l) => l is Some,
        SpecStatement::Continue(l) => l is Some,
        SpecStatement::While { cond: _, body, label } => label is Some && labelled_stmt(*body),
        SpecStatement::DoWhile { body, cond: _, label } => label is Some && labelled_stmt(*body),
        SpecStatement::For { init: _, cond: _, post: _, body, label } => label is Some && labelled_stmt(*body),
        SpecStatement::If { cond: _, then, else_ } => labelled_stmt(*then) && match else_ {
            Some(es) => labelled_stmt(*es),
            None => true,
        },
        SpecStatement::Compound(items) => labelled_items(items),
        _ => true,
    }
}

/// Every statement among the items is labelled.
pub open spec fn labelled_items(items: Seq<SpecBlockItem>) -> bool
    decreases items,
{
    items.len() == 0 || ((match items[0] {
        SpecBlockItem::Statement(s) => labelled_stmt(s),
        _ => true,
    }) && labelled_items(items.drop_first()))
}

pub open spec fn labelled_fn(f: SpecFnDecl) -> bool {
    match f.body {
        Some(b) => labelled_items(b),
        None => true,
    }
}

proof fn lemma_expr_translates(e: SpecExpression, v: int, l: int)
    requires
        resolved_expr(e),
    ensures
        exp_ir(e, v, l) is Some,
    decreases e, 1int,
{
    match e {
        SpecExpression::Factor(f) => lemma_factor_translates(*f, v, l),
        SpecExpression::Binary(_, a, b) => {
            lemma_expr_translates(*a, v, l);
            let r1 = exp_ir(*a, v, l).unwrap();
            lemma_expr_translates(*b, v + r1.temps, l + r1.labels);
        },
        SpecExpression::Assign(_, b) => lemma_expr_translates(*b, v, l),
        SpecExpression::Conditional { cond, then, else_ } => {
            lemma_expr_translates(*cond, v + 1, l);
            let c = exp_ir(*cond, v + 1, l).unwrap();
            lemma_expr_translates(*then, v + 1 + c.temps, l + c.labels);
            let t = exp_ir(*then, v + 1 + c.temps, l + c.labels).unwrap();
            lemma_expr_translates(*else_, v + 1 + c.temps + t.temps, l + c.labels + t.labels);
        },
    }
}

proof fn lemma_factor_translates(f: SpecFactor, v: int, l: int)
    requires
        resolved_factor(f),
    ensures
        factor_ir(f, v, l) is Some,
    decreases f, 1int,
{
    match f {
        SpecFactor::Unary(_, g) => lemma_factor_translates(*g, v, l),
        SpecFactor::Expression(e) => lemma_expr_translates(e, v, l),
        SpecFactor::FunctionCall(_, args) => lemma_args_translate(args, v + 1, l),
        _ => {},
    }
}

proof fn lemma_args_translate(args: Seq<SpecExpression>, v: int, l: int)
    requires
        resolved_args(args),
    ensures
        args_ir(args, v, l) is Some,
    decreases args, 1int,
{
    if args.len() > 0 {
        lemma_expr_translates(args[0], v, l);
        let r = exp_ir(args[0], v, l).unwrap();
        lemma_args_translate(args.drop_first(), v + r.temps, l + r.labels);
    }
}

proof fn lemma_opt_translates(e: Option<SpecExpression>, v: int, l: int)
    requires
        resolved_opt(e),
    ensures
        effect_ir(e, v, l) is Some,
{
    if let Some(x) = e {
        lemma_expr_translates(x, v, l);
    }
}

proof fn lemma_var_decl_translates(d: SpecVarDecl, v: int, l: int)
    requires
        resolved_var_decl(d),
    ensures
        var_decl_ir(d, v, l) is Some,
{
    if let Some(x) = d.init {
        lemma_expr_translates(x, v, l);
    }
}

proof fn lemma_stmt_translates(s: SpecStatement, v: int, l: int)
    requires
        resolved_stmt(s),
        labelled_stmt(s),
    ensures
        stmt_ir(s, v, l) is Some,
    decreases s, 0int,
{
    match s {
        SpecStatement::Return(e) => lemma_expr_translates(e, v, l),
        SpecStatement::Expression(e) => lemma_expr_translates(e, v, l),
        SpecStatement::If { cond, then, else_ } => {
            lemma_expr_translates(cond, v, l);
            let c = exp_ir(cond, v, l).unwrap();
            lemma_stmt_translates(*then, v + c.temps, l + c.labels);
            let t = stmt_ir(*then, v + c.temps, l + c.labels).unwrap();
            if let Some(es) = else_ {
                lemma_stmt_translates(*es, v + c.temps + t.temps, l + c.labels + t.labels + 1);
            }
        },
        SpecStatement::Compound(items) => lemma_items_translate(items, v, l),
        SpecStatement::While { cond, body, label: _ } => {
            lemma_expr_translates(cond, v, l);
            let c = exp_ir(cond, v, l).unwrap();
            lemma_stmt_translates(*body, v + c.temps, l + c.labels);
        },
        SpecStatement::DoWhile { body, cond, label: _ } => {
            lemma_expr_translates(cond, v, l);
            let c = exp_ir(cond, v, l).unwrap();
            lemma_stmt_translates(*body, v + c.temps, l + c.labels);
        },
        SpecStatement::For { init, cond, post, body, label } => {
            match init {
                SpecForInit::InitDecl(d) => lemma_var_decl_translates(d, v, l),
                SpecForInit::InitExp(e) => lemma_opt_translates(e, v, l),
            }
            let i = for_init_ir(init, v, l).unwrap();
            if let Some(c) = cond {
                lemma_expr_translates(c, v + i.temps, l + i.labels);
            }
            let c = for_cond_ir(cond, label.unwrap(), v + i.temps, l + i.labels).unwrap();
            lemma_stmt_translates(*body, v + i.temps + c.temps, l + i.labels + c.labels);
            let b = stmt_ir(*body, v + i.temps + c.temps, l + i.labels + c.labels).unwrap();
            lemma_opt_translates(post, v + i.temps + c.temps + b.temps, l + i.labels + c.labels + b.labels);
        },
        _ => {},
    }
}

proof fn lemma_item_translates(it: SpecBlockItem, v: int, l: int)
    requires
        resolved_item(it),
        match it {
            SpecBlockItem::Statement(s) => labelled_stmt(s),
            _ => true,
        },
    ensures
        item_ir(it, v, l) is Some,
    decreases it, 0int,
{
    match it {
        SpecBlockItem::Statement(s) => lemma_stmt_translates(s, v, l),
        SpecBlockItem::Declaration(SpecDeclaration::VarDecl(d)) => lemma_var_decl_translates(d, v, l),
        SpecBlockItem::Declaration(SpecDeclaration::FnDecl(_)) => {},
    }
}

proof fn lemma_items_translate(items: Seq<SpecBlockItem>, v: int, l: int)
    requires
        resolved_items(items),
        labelled_items(items),
    ensures
        items_ir(items, v, l) is Some,
    decreases items, 0int,
{
    if items.len() > 0 {
        lemma_item_translates(items[0], v, l);
        let a = item_ir(items[0], v, l).unwrap();
        lemma_items_translate(items.drop_first(), v + a.temps, l + a.labels);
    }
}

/// A program whose functions are all resolved and labelled can be
/// translated to three-address code, whatever numbers the counters start from.
pub proof fn lemma_ready_program_translates(fs: Seq<SpecFnDecl>, v: int, l: int)
    requires
        forall|i: int| 0 <= i < fs.len() ==> resolved_fn(#[trigger] fs[i]) && labelled_fn(fs[i]),
    ensures
        program_ir(fs, v, l) is Some,
    decreases fs.len(),
{
    if fs.len() > 0 {
        assert(resolved_fn(fs[0]) && labelled_fn(fs[0]));
        assert forall|i: int| 0 <= i < fs.len() - 1 implies resolved_fn(#[trigger] fs.drop_first()[i])
            && labelled_fn(fs.drop_first()[i]) by {
            assert(fs.drop_first()[i] == fs[i + 1]);
        }
        if fs[0].body is None {
            lemma_ready_program_translates(fs.drop_first(), v, l);
        } else {
            let b = fs[0].body.unwrap();
            lemma_items_translate(b, v, l);
            let c = body_ir(b, v, l).unwrap();
            lemma_ready_program_translates(fs.drop_first(), v + c.temps, l + c.labels);
        }
    }
}

/// Every instruction of `s` can be lowered to assembly.
#[verifier::opaque]
pub open spec fn all_lowerable(s: Seq<SpecIRInstruction>) -> bool {
    forall|k: int| 0 <= k < s.len() ==> lowerable(#[trigger] s[k])
}

/// The operations of `e` are ones the code generator handles: no prefix
/// decrement, no assignment or conditional written as a binary operation,
/// and no call with more arguments than its stack area can count.
pub open spec fn plain_expr(e: SpecExpression) -> bool
    decreases e,
{
    match e {
        SpecExpression::Factor(f) => plain_factor(*f),
        SpecExpression::Binary(op, a, b) => op != BinaryOp::Assign && op != BinaryOp::Conditional && plain_expr(*a)
            && plain_expr(*b),
        SpecExpression::Assign(_, b) => plain_expr(*b),
        SpecExpression::Conditional { cond, then, else_ } => plain_expr(*cond) && plain_expr(*then) && plain_expr(
            *else_,
        ),
    }
}

pub open spec fn plain_factor(f: SpecFactor) -> bool
    decreases f,
{
    match f {
        SpecFactor::Constant(_) => true,
        SpecFactor::Unary(op, g) => op != UnaryOp::Decrement && plain_factor(*g),
        SpecFactor::Expression(e) => plain_expr(e),
        SpecFactor::Var(_) => true,
        SpecFactor::FunctionCall(_, args) => 8 * args.len() + 8 <= usize::MAX && plain_args(args),
    }
}

pub open spec fn plain_args(args: Seq<SpecExpression>) -> bool
    decreases args,
{
    args.len() == 0 || (plain_expr(args[0]) && plain_args(args.drop_first()))
}

pub open spec fn plain_opt(e: Option<SpecExpression>) -> bool {
    match e {
        Some(x) => plain_expr(x),
        None => true,
    }
}

pub open spec fn plain_stmt(s: SpecStatement) -> bool
    decreases s,
{
    match s {
        SpecStatement::Return(e) => plain_expr(e),
        SpecStatement::Expression(e) => plain_expr(e),
        SpecStatement::If { cond, then, else_ } => plain_expr(cond) && plain_stmt(*then) && match else_ {
            Some(es) => plain_stmt(*es),
            None => true,
        },
        SpecStatement::Compound(items) => plain_items(items),
        SpecStatement::While { cond, body, label: _ } => plain_expr(cond) && plain_stmt(*body),
        SpecStatement::DoWhile { body, cond, label: _ } => plain_expr(cond) && plain_stmt(*body),
        SpecStatement::For { init, cond, post, body, label: _ } => {
            &&& match init {
                SpecForInit::InitDecl(d) => plain_opt(d.init),
                SpecForInit::InitExp(e) => plain_opt(e),
            }
            &&& plain_opt(cond)
            &&& plain_opt(post)
            &&& plain_stmt(*body)
        },
        _ => true,
    }
}

pub open spec fn plain_items(items: Seq<SpecBlockItem>) -> bool
    decreases items,
{
    items.len() == 0 || (plain_item(items[0]) && plain_items(items.drop_first()))
}

pub open spec fn plain_item(it: SpecBlockItem) -> bool
    decreases it,
{
    match it {
        SpecBlockItem::Statement(s) => plain_stmt(s),
        SpecBlockItem::Declaration(SpecDeclaration::VarDecl(d)) => plain_opt(d.init),
        SpecBlockItem::Declaration(SpecDeclaration::FnDecl(f)) => match f.body {
            Some(b) => plain_items(b),
            None => true,
        },
    }
}

/// A function's operations are plain, and its parameter area can be counted.
pub open spec fn plain_fn(f: SpecFnDecl) -> bool {
    &&& 16 + 8 * f.params.len() <= usize::MAX
    &&& match f.body {
        Some(b) => plain_items(b),
        None => true,
    }
}

proof fn lemma_lowerable_add(a: Seq<SpecIRInstruction>, b: Seq<SpecIRInstruction>)
    requires
        all_lowerable(a),
        all_lowerable(b),
    ensures
        all_lowerable(a + b),
{
    reveal(all_lowerable);
    assert forall|k: int| 0 <= k < (a + b).len() implies lowerable(#[trigger] (a + b)[k]) by {
        if k < a.len() {
            assert((a + b)[k] == a[k]);
        } else {
            assert((a + b)[k] == b[k - a.len()]);
        }
    }
}

proof fn lemma_lowerable_push(a: Seq<SpecIRInstruction>, x: SpecIRInstruction)
    requires
        all_lowerable(a),
        lowerable(x),
    ensures
        all_lowerable(a.push(x)),
{
    reveal(all_lowerable);
    assert forall|k: int| 0 <= k < a.push(x).len() implies lowerable(#[trigger] a.push(x)[k]) by {
        if k < a.len() {
            assert(a.push(x)[k] == a[k]);
        }
    }
}

/// Jumps, labels and copies can always be lowered.
proof fn lemma_control_lowerable(s: Seq<SpecIRInstruction>)
    requires
        forall|k: int| 0 <= k < s.len() ==> (#[trigger] s[k] is Jump || s[k] is JumpIfZero || s[k] is JumpIfNotZero
            || s[k] is Label || s[k] is Copy || s[k] is Return),
    ensures
        all_lowerable(s),
{
    reveal(all_lowerable);
}

proof fn lemma_empty_lowerable()
    ensures
        all_lowerable(Seq::<SpecIRInstruction>::empty()),
{
    reveal(all_lowerable);
}

proof fn lemma_binop_lowers(op: BinaryOp, r1: ExpCode, r2: ExpCode, v: int, l: int)
    requires
        op != BinaryOp::Assign,
        op != BinaryOp::Conditional,
        all_lowerable(r1.code),
        all_lowerable(r2.code),
    ensures
        all_lowerable(binop_code(op, r1, r2, v, l).code),
{
    let dst = temp(v + r1.temps + r2.temps);
    let lb = l + r1.labels + r2.labels;
    if op == BinaryOp::LogicalAnd {
        let f = label_at(LabelKind::False, lb);
        let e = label_at(LabelKind::End, lb + 1);
        let head = seq![SpecIRInstruction::JumpIfZero(r1.val, f)];
        let tail = seq![
            SpecIRInstruction::JumpIfZero(r2.val, f),
            SpecIRInstruction::Copy(IRVal::Constant(1), dst),
            SpecIRInstruction::Jump(e),
            SpecIRInstruction::Label(f),
            SpecIRInstruction::Copy(IRVal::Constant(0), dst),
            SpecIRInstruction::Label(e),
        ];
        lemma_control_lowerable(head);
        lemma_control_lowerable(tail);
        lemma_lowerable_add(r1.code, head);
        lemma_lowerable_add(r1.code + head, r2.code);
        lemma_lowerable_add(r1.code + head + r2.code, tail);
    } else if op == BinaryOp::LogicalOr {
        let t = label_at(LabelKind::True, lb);
        let e = label_at(LabelKind::End, lb + 1);
        let head = seq![SpecIRInstruction::JumpIfNotZero(r1.val, t)];
        let tail = seq![
            SpecIRInstruction::JumpIfNotZero(r2.val, t),
            SpecIRInstruction::Copy(IRVal::Constant(0), dst),
            SpecIRInstruction::Jump(e),
            SpecIRInstruction::Label(t),
            SpecIRInstruction::Copy(IRVal::Constant(1), dst),
            SpecIRInstruction::Label(e),
        ];
        lemma_control_lowerable(head);
        lemma_control_lowerable(tail);
        lemma_lowerable_add(r1.code, head);
        lemma_lowerable_add(r1.code + head, r2.code);
        lemma_lowerable_add(r1.code + head + r2.code, tail);
    } else {
        let x = SpecIRInstruction::Binary(op, r1.val, r2.val, dst);
        assert(lowerable(x));
        lemma_lowerable_add(r1.code, r2.code);
        lemma_lowerable_push(r1.code + r2.code, x);
        assert((r1.code + r2.code).push(x) =~= r1.code + r2.code + seq![x]);
    }
}

proof fn lemma_conditional_lowers(c: ExpCode, t: ExpCode, f: ExpCode, res: IRVal, else_label: Label, end_label: Label)
    requires
        all_lowerable(c.code),
        all_lowerable(t.code),
        all_lowerable(f.code),
    ensures
        all_lowerable(c.code + seq![SpecIRInstruction::JumpIfZero(c.val, else_label)] + t.code + seq![
            SpecIRInstruction::Copy(t.val, res),
            SpecIRInstruction::Jump(end_label),
            SpecIRInstruction::Label(else_label),
        ] + f.code + seq![SpecIRInstruction::Copy(f.val, res), SpecIRInstruction::Label(end_label)]),
{
    let a = seq![SpecIRInstruction::JumpIfZero(c.val, else_label)];
    let b = seq![SpecIRInstruction::Copy(t.val, res), SpecIRInstruction::Jump(end_label), SpecIRInstruction::Label(else_label)];
    let d = seq![SpecIRInstruction::Copy(f.val, res), SpecIRInstruction::Label(end_label)];
    lemma_control_lowerable(a);
    lemma_control_lowerable(b);
    lemma_control_lowerable(d);
    lemma_lowerable_add(c.code, a);
    lemma_lowerable_add(c.code + a, t.code);
    lemma_lowerable_add(c.code + a + t.code, b);
    lemma_lowerable_add(c.code + a + t.code + b, f.code);
    lemma_lowerable_add(c.code + a + t.code + b + f.code, d);
}

proof fn lemma_expr_lowers(e: SpecExpression, v: int, l: int)
    requires
        plain_expr(e),
        exp_ir(e, v, l) is Some,
    ensures
        all_lowerable(exp_ir(e, v, l).unwrap().code),
    decreases e, 1int,
{
    match e {
        SpecExpression::Factor(f) => lemma_factor_lowers(*f, v, l),
        SpecExpression::Binary(op, a, b) => {
            lemma_expr_lowers(*a, v, l);
            let r1 = exp_ir(*a, v, l).unwrap();
            lemma_expr_lowers(*b, v + r1.temps, l + r1.labels);
            let r2 = exp_ir(*b, v + r1.temps, l + r1.labels).unwrap();
            lemma_binop_lowers(op, r1, r2, v, l);
        },
        SpecExpression::Assign(a, b) => {
            lemma_expr_lowers(*b, v, l);
            let r = exp_ir(*b, v, l).unwrap();
            let id = assign_target(*a).unwrap();
            lemma_lowerable_push(r.code, SpecIRInstruction::Copy(r.val, IRVal::Var(id)));
        },
        SpecExpression::Conditional { cond, then, else_ } => {
            lemma_expr_lowers(*cond, v + 1, l);
            let c = exp_ir(*cond, v + 1, l).unwrap();
            lemma_expr_lowers(*then, v + 1 + c.temps, l + c.labels);
            let t = exp_ir(*then, v + 1 + c.temps, l + c.labels).unwrap();
            lemma_expr_lowers(*else_, v + 1 + c.temps + t.temps, l + c.labels + t.labels);
            let f = exp_ir(*else_, v + 1 + c.temps + t.temps, l + c.labels + t.labels).unwrap();
            let lb = l + c.labels + t.labels + f.labels;
            lemma_conditional_lowers(c, t, f, temp(v), label_at(LabelKind::Else, lb), label_at(LabelKind::End, lb + 1));
        },
    }
}

proof fn lemma_factor_lowers(f: SpecFactor, v: int, l: int)
    requires
        plain_factor(f),
        factor_ir(f, v, l) is Some,
    ensures
        all_lowerable(factor_ir(f, v, l).unwrap().code),
    decreases f, 1int,
{
    match f {
        SpecFactor::Unary(op, g) => {
            lemma_factor_lowers(*g, v, l);
            let r = factor_ir(*g, v, l).unwrap();
            lemma_lowerable_push(r.code, SpecIRInstruction::Unary(op, r.val, temp(v + r.temps)));
        },
        SpecFactor::Expression(e) => lemma_expr_lowers(e, v, l),
        SpecFactor::FunctionCall(name, args) => {
            lemma_args_lower(args, v + 1, l);
            let (vals, a) = args_ir(args, v + 1, l).unwrap();
            lemma_lowerable_push(a.code, SpecIRInstruction::FnCall(name, vals, temp(v)));
        },
        _ => lemma_empty_lowerable(),
    }
}

proof fn lemma_args_lower(args: Seq<SpecExpression>, v: int, l: int)
    requires
        plain_args(args),
        args_ir(args, v, l) is Some,
    ensures
        all_lowerable(args_ir(args, v, l).unwrap().1.code),
        args_ir(args, v, l).unwrap().0.len() == args.len(),
    decreases args, 1int,
{
    if args.len() > 0 {
        lemma_expr_lowers(args[0], v, l);
        let r = exp_ir(args[0], v, l).unwrap();
        lemma_args_lower(args.drop_first(), v + r.temps, l + r.labels);
        let rest = args_ir(args.drop_first(), v + r.temps, l + r.labels).unwrap().1;
        lemma_lowerable_add(r.code, rest.code);
    } else {
        lemma_empty_lowerable();
    }
}

proof fn lemma_opt_lowers(e: Option<SpecExpression>, v: int, l: int)
    requires
        plain_opt(e),
        effect_ir(e, v, l) is Some,
    ensures
        all_lowerable(effect_ir(e, v, l).unwrap().code),
{
    match e {
        Some(x) => lemma_expr_lowers(x, v, l),
        None => lemma_empty_lowerable(),
    }
}

proof fn lemma_var_decl_lowers(d: SpecVarDecl, v: int, l: int)
    requires
        plain_opt(d.init),
        var_decl_ir(d, v, l) is Some,
    ensures
        all_lowerable(var_decl_ir(d, v, l).unwrap().code),
{
    match d.init {
        Some(x) => {
            lemma_expr_lowers(x, v, l);
            let r = exp_ir(x, v, l).unwrap();
            lemma_lowerable_push(r.code, SpecIRInstruction::Copy(r.val, IRVal::Var(d.var.id.unwrap())));
        },
        None => lemma_empty_lowerable(),
    }
}

proof fn lemma_if_lowers(c: ExpCode, t: Code, e: Option<Code>, l: int)
    requires
        all_lowerable(c.code),
        all_lowerable(t.code),
        e matches Some(x) ==> all_lowerable(x.code),
    ensures
        e is None ==> all_lowerable(if_code(c, t, l).code),
        e matches Some(x) ==> all_lowerable(if_else_code(c, t, x, l).code),
{
    match e {
        None => {
            let end_label = label_at(LabelKind::End, l + c.labels + t.labels);
            let a = seq![SpecIRInstruction::JumpIfZero(c.val, end_label)];
            let b = seq![SpecIRInstruction::Label(end_label)];
            lemma_control_lowerable(a);
            lemma_control_lowerable(b);
            lemma_lowerable_add(c.code, a);
            lemma_lowerable_add(c.code + a, t.code);
            lemma_lowerable_add(c.code + a + t.code, b);
        },
        Some(x) => {
            let end_label = label_at(LabelKind::End, l + c.labels + t.labels);
            let else_label = label_at(LabelKind::Else, l + c.labels + t.labels + 1 + x.labels);
            let a = seq![SpecIRInstruction::JumpIfZero(c.val, else_label)];
            let b = seq![SpecIRInstruction::Jump(end_label), SpecIRInstruction::Label(else_label)];
            let d = seq![SpecIRInstruction::Label(end_label)];
            lemma_control_lowerable(a);
            lemma_control_lowerable(b);
            lemma_control_lowerable(d);
            lemma_lowerable_add(c.code, a);
            lemma_lowerable_add(c.code + a, t.code);
            lemma_lowerable_add(c.code + a + t.code, b);
            lemma_lowerable_add(c.code + a + t.code + b, x.code);
            lemma_lowerable_add(c.code + a + t.code + b + x.code, d);
        },
    }
}

proof fn lemma_loops_lower(start: Label, c: ExpCode, b: Code)
    requires
        all_lowerable(c.code),
        all_lowerable(b.code),
    ensures
        all_lowerable(while_code(start, c, b).code),
        all_lowerable(do_while_code(start, c, b).code),
{
    let cont = continue_of(start);
    let brk = break_of(start);
    let w0 = seq![SpecIRInstruction::Label(cont)];
    let w1 = seq![SpecIRInstruction::JumpIfZero(c.val, brk)];
    let w2 = seq![SpecIRInstruction::Jump(cont), SpecIRInstruction::Label(brk)];
    lemma_control_lowerable(w0);
    lemma_control_lowerable(w1);
    lemma_control_lowerable(w2);
    lemma_lowerable_add(w0, c.code);
    lemma_lowerable_add(w0 + c.code, w1);
    lemma_lowerable_add(w0 + c.code + w1, b.code);
    lemma_lowerable_add(w0 + c.code + w1 + b.code, w2);
    let d0 = seq![SpecIRInstruction::Label(start)];
    let d1 = seq![SpecIRInstruction::Label(cont)];
    let d2 = seq![SpecIRInstruction::JumpIfNotZero(c.val, start), SpecIRInstruction::Label(brk)];
    lemma_control_lowerable(d0);
    lemma_control_lowerable(d1);
    lemma_control_lowerable(d2);
    lemma_lowerable_add(d0, b.code);
    lemma_lowerable_add(d0 + b.code, d1);
    lemma_lowerable_add(d0 + b.code + d1, c.code);
    lemma_lowerable_add(d0 + b.code + d1 + c.code, d2);
}

proof fn lemma_for_lowers(start: Label, i: Code, c: Code, b: Code, p: Code)
    requires
        all_lowerable(i.code),
        all_lowerable(c.code),
        all_lowerable(b.code),
        all_lowerable(p.code),
    ensures
        all_lowerable(for_code(start, i, c, b, p).code),
{
    let f0 = seq![SpecIRInstruction::Label(start)];
    let f1 = seq![SpecIRInstruction::Label(continue_of(start))];
    let f2 = seq![SpecIRInstruction::Jump(start), SpecIRInstruction::Label(break_of(start))];
    lemma_control_lowerable(f0);
    lemma_control_lowerable(f1);
    lemma_control_lowerable(f2);
    lemma_lowerable_add(i.code, f0);
    lemma_lowerable_add(i.code + f0, c.code);
    lemma_lowerable_add(i.code + f0 + c.code, b.code);
    lemma_lowerable_add(i.code + f0 + c.code + b.code, f1);
    lemma_lowerable_add(i.code + f0 + c.code + b.code + f1, p.code);
    lemma_lowerable_add(i.code + f0 + c.code + b.code + f1 + p.code, f2);
}

proof fn lemma_stmt_lowers(s: SpecStatement, v: int, l: int)
    requires
        plain_stmt(s),
        stmt_ir(s, v, l) is Some,
    ensures
        all_lowerable(stmt_ir(s, v, l).unwrap().code),
    decreases s, 0int,
{
    match s {
        SpecStatement::Return(e) => {
            lemma_expr_lowers(e, v, l);
            let r = exp_ir(e, v, l).unwrap();
            lemma_lowerable_push(r.code, SpecIRInstruction::Return(r.val));
        },
        SpecStatement::Expression(e) => lemma_expr_lowers(e, v, l),
        SpecStatement::If { cond, then, else_ } => {
            lemma_expr_lowers(cond, v, l);
            let c = exp_ir(cond, v, l).unwrap();
            lemma_stmt_lowers(*then, v + c.temps, l + c.labels);
            let t = stmt_ir(*then, v + c.temps, l + c.labels).unwrap();
            match else_ {
                Some(es) => {
                    lemma_stmt_lowers(*es, v + c.temps + t.temps, l + c.labels + t.labels + 1);
                    let x = stmt_ir(*es, v + c.temps + t.temps, l + c.labels + t.labels + 1).unwrap();
                    lemma_if_lowers(c, t, Some(x), l);
                },
                None => lemma_if_lowers(c, t, None, l),
            }
        },
        SpecStatement::Compound(items) => lemma_items_lower(items, v, l),
        SpecStatement::Break(_) => lemma_control_lowerable(stmt_ir(s, v, l).unwrap().code),
        SpecStatement::Continue(_) => lemma_control_lowerable(stmt_ir(s, v, l).unwrap().code),
        SpecStatement::While { cond, body, label } => {
            lemma_expr_lowers(cond, v, l);
            let c = exp_ir(cond, v, l).unwrap();
            lemma_stmt_lowers(*body, v + c.temps, l + c.labels);
            let b = stmt_ir(*body, v + c.temps, l + c.labels).unwrap();
            lemma_loops_lower(label.unwrap(), c, b);
        },
        SpecStatement::DoWhile { body, cond, label } => {
            lemma_expr_lowers(cond, v, l);
            let c = exp_ir(cond, v, l).unwrap();
            lemma_stmt_lowers(*body, v + c.temps, l + c.labels);
            let b = stmt_ir(*body, v + c.temps, l + c.labels).unwrap();
            lemma_loops_lower(label.unwrap(), c, b);
        },
        SpecStatement::For { init, cond, post, body, label } => {
            match init {
                SpecForInit::InitDecl(d) => lemma_var_decl_lowers(d, v, l),
                SpecForInit::InitExp(e) => lemma_opt_lowers(e, v, l),
            }
            let i = for_init_ir(init, v, l).unwrap();
            let start = label.unwrap();
            match cond {
                Some(ce) => {
                    lemma_expr_lowers(ce, v + i.temps, l + i.labels);
                    let r = exp_ir(ce, v + i.temps, l + i.labels).unwrap();
                    lemma_lowerable_push(r.code, SpecIRInstruction::JumpIfZero(r.val, break_of(start)));
                },
                None => lemma_empty_lowerable(),
            }
            let c = for_cond_ir(cond, start, v + i.temps, l + i.labels).unwrap();
            lemma_stmt_lowers(*body, v + i.temps + c.temps, l + i.labels + c.labels);
            let b = stmt_ir(*body, v + i.temps + c.temps, l + i.labels + c.labels).unwrap();
            lemma_opt_lowers(post, v + i.temps + c.temps + b.temps, l + i.labels + c.labels + b.labels);
            let p = effect_ir(post, v + i.temps + c.temps + b.temps, l + i.labels + c.labels + b.labels).unwrap();
            lemma_for_lowers(start, i, c, b, p);
        },
        SpecStatement::Null => lemma_empty_lowerable(),
    }
}

proof fn lemma_item_lowers(it: SpecBlockItem, v: int, l: int)
    requires
        plain_item(it),
        item_ir(it, v, l) is Some,
    ensures
        all_lowerable(item_ir(it, v, l).unwrap().code),
    decreases it, 0int,
{
    match it {
        SpecBlockItem::Statement(s) => lemma_stmt_lowers(s, v, l),
        SpecBlockItem::Declaration(SpecDeclaration::VarDecl(d)) => lemma_var_decl_lowers(d, v, l),
        SpecBlockItem::Declaration(SpecDeclaration::FnDecl(f)) => {
            match f.body {
                Some(b) => {
                    lemma_items_lower(b, v, l);
                    let c = items_ir(b, v, l).unwrap();
                    lemma_lowerable_push(c.code, SpecIRInstruction::Return(IRVal::Constant(0)));
                },
                None => lemma_empty_lowerable(),
            }
        },
    }
}

proof fn lemma_items_lower(items: Seq<SpecBlockItem>, v: int, l: int)
    requires
        plain_items(items),
        items_ir(items, v, l) is Some,
    ensures
        all_lowerable(items_ir(items, v, l).unwrap().code),
    decreases items, 0int,
{
    if items.len() > 0 {
        lemma_item_lowers(items[0], v, l);
        let a = item_ir(items[0], v, l).unwrap();
        lemma_items_lower(items.drop_first(), v + a.temps, l + a.labels);
        let b = items_ir(items.drop_first(), v + a.temps, l + a.labels).unwrap();
        lemma_lowerable_add(a.code, b.code);
    } else {
        lemma_empty_lowerable();
    }
}

/// The three-address code of a program with plain operations can be lowered to assembly.
pub proof fn lemma_plain_program_lowers(fs: Seq<SpecFnDecl>, v: int, l: int)
    requires
        forall|i: int| 0 <= i < fs.len() ==> plain_fn(#[trigger] fs[i]),
        program_ir(fs, v, l) is Some,
    ensures
        program_lowerable(SpecIRProgram { functions: program_ir(fs, v, l).unwrap().0 }),
    decreases fs.len(),
{
    if fs.len() > 0 {
        assert(plain_fn(fs[0]));
        assert forall|i: int| 0 <= i < fs.len() - 1 implies plain_fn(#[trigger] fs.drop_first()[i]) by {
            assert(fs.drop_first()[i] == fs[i + 1]);
        }
        if fs[0].body is None {
            lemma_plain_program_lowers(fs.drop_first(), v, l);
        } else {
            let b = fs[0].body.unwrap();
            lemma_items_lower(b, v, l);
            let c0 = items_ir(b, v, l).unwrap();
            lemma_lowerable_push(c0.code, SpecIRInstruction::Return(IRVal::Constant(0)));
            let (f, c) = function_ir(fs[0], v, l).unwrap();
            assert(f.instructions == c0.code.push(SpecIRInstruction::Return(IRVal::Constant(0))));
            assert(function_lowerable(f)) by {
                reveal(all_lowerable);
            }
            lemma_plain_program_lowers(fs.drop_first(), v + c.temps, l + c.labels);
            let rest = program_ir(fs.drop_first(), v + c.temps, l + c.labels).unwrap().0;
            let all = seq![f] + rest;
            let rp = SpecIRProgram { functions: rest };
            assert(program_lowerable(rp));
            assert forall|k: int| 0 <= k < all.len() implies function_lowerable(#[trigger] all[k]) by {
                if k > 0 {
                    assert(all[k] == rest[k - 1]);
                    assert(function_lowerable(rp.functions[k - 1]));
                } else {
                    assert(all[0] == f);
                }
            }
            assert(program_ir(fs, v, l).unwrap().0 == all);
        }
    }
}

/// Every parameter of every function has a name, as the parser gives them.
pub open spec fn params_named(fs: Seq<SpecFnDecl>) -> bool {
    forall|i: int, j: int| #![trigger fs[i].params[j]] 0 <= i < fs.len() && 0 <= j < fs[i].params.len()
        ==> fs[i].params[j].name is Some
}

proof fn lemma_res_expr(e: SpecExpression, m: SpecScope)
    requires
        res_expr(e, m) is Ok,
    ensures
        resolved_expr(res_expr(e, m)->Ok_0),
        plain_expr(e) ==> plain_expr(res_expr(e, m)->Ok_0),
    decreases e, 1int,
{
    match e {
        SpecExpression::Factor(f) => {
            lemma_res_factor(*f, m);
            let f2 = res_factor(*f, m)->Ok_0;
            assert(res_expr(e, m)->Ok_0 == SpecExpression::Factor(Box::new(f2)));
        },
        SpecExpression::Binary(_, a, b) => {
            lemma_res_expr(*a, m);
            lemma_res_expr(*b, m);
        },
        SpecExpression::Assign(a, b) => {
            lemma_res_expr(*b, m);
            let l2 = res_expr(*a, m)->Ok_0;
            let r2 = res_expr(*b, m)->Ok_0;
            assert(res_expr(e, m)->Ok_0 == SpecExpression::Assign(Box::new(l2), Box::new(r2)));
            if let SpecExpression::Factor(f) = *a {
                if let SpecFactor::Var(var) = *f {
                    assert(res_factor(*f, m) is Ok);
                    assert(res_factor(*f, m)->Ok_0 matches SpecFactor::Var(w) && w.id is Some);
                    assert(l2 == SpecExpression::Factor(Box::new(res_factor(*f, m)->Ok_0)));
                }
            }
            assert(assign_target(l2) is Some);
        },
        SpecExpression::Conditional { cond, then, else_ } => {
            lemma_res_expr(*cond, m);
            lemma_res_expr(*then, m);
            lemma_res_expr(*else_, m);
        },
    }
}

proof fn lemma_res_factor(f: SpecFactor, m: SpecScope)
    requires
        res_factor(f, m) is Ok,
    ensures
        resolved_factor(res_factor(f, m)->Ok_0),
        plain_factor(f) ==> plain_factor(res_factor(f, m)->Ok_0),
    decreases f, 1int,
{
    match f {
        SpecFactor::Unary(_, g) => lemma_res_factor(*g, m),
        SpecFactor::Expression(e) => lemma_res_expr(e, m),
        SpecFactor::FunctionCall(_, args) => lemma_res_args(args, m),
        _ => {},
    }
}

proof fn lemma_res_args(args: Seq<SpecExpression>, m: SpecScope)
    requires
        res_args(args, m) is Ok,
    ensures
        resolved_args(res_args(args, m)->Ok_0),
        res_args(args, m)->Ok_0.len() == args.len(),
        plain_args(args) ==> plain_args(res_args(args, m)->Ok_0),
    decreases args, 1int,
{
    if args.len() > 0 {
        lemma_res_expr(args[0], m);
        lemma_res_args(args.drop_first(), m);
        let a = res_expr(args[0], m)->Ok_0;
        let rest = res_args(args.drop_first(), m)->Ok_0;
        assert((seq![a] + rest).drop_first() =~= rest);
        assert((seq![a] + rest)[0] == a);
    }
}

proof fn lemma_res_opt(e: Option<SpecExpression>, m: SpecScope)
    requires
        res_opt_expr(e, m) is Ok,
    ensures
        resolved_opt(res_opt_expr(e, m)->Ok_0),
        plain_opt(e) ==> plain_opt(res_opt_expr(e, m)->Ok_0),
{
    if let Some(x) = e {
        lemma_res_expr(x, m);
    }
}

proof fn lemma_res_var_decl(d: SpecVarDecl, m: SpecScope, next: int)
    requires
        res_var_decl(d, m, next).0 is Ok,
    ensures
        resolved_var_decl((res_var_decl(d, m, next).0->Ok_0).0),
        plain_opt(d.init) ==> plain_opt((res_var_decl(d, m, next).0->Ok_0).0.init),
{
    lemma_res_opt(d.init, (res_var_decl(d, m, next).0->Ok_0).1);
}

proof fn lemma_res_stmt(s: SpecStatement, m: SpecScope, next: int)
    requires
        res_stmt(s, m, next).0 is Ok,
    ensures
        resolved_stmt(res_stmt(s, m, next).0->Ok_0),
        plain_stmt(s) ==> plain_stmt(res_stmt(s, m, next).0->Ok_0),
    decreases s, 0int,
{
    match s {
        SpecStatement::Return(e) => lemma_res_expr(e, m),
        SpecStatement::Expression(e) => lemma_res_expr(e, m),
        SpecStatement::If { cond, then, else_ } => {
            lemma_res_expr(cond, m);
            lemma_res_stmt(*then, m, next);
            if let Some(es) = else_ {
                lemma_res_stmt(*es, m, next + res_stmt(*then, m, next).1);
            }
        },
        SpecStatement::Compound(items) => {
            lemma_res_items(items, scope_copy(m), next);
        },
        SpecStatement::While { cond, body, label: _ } => {
            lemma_res_expr(cond, m);
            lemma_res_stmt(*body, m, next);
        },
        SpecStatement::DoWhile { body, cond, label: _ } => {
            lemma_res_expr(cond, m);
            lemma_res_stmt(*body, m, next);
        },
        SpecStatement::For { init, cond, post, body, label: _ } => {
            let m1 = scope_copy(m);
            match init {
                SpecForInit::InitDecl(d) => {
                    lemma_res_var_decl(d, m1, next);
                    let m2 = (res_var_decl(d, m1, next).0->Ok_0).1;
                    let n1 = res_var_decl(d, m1, next).1;
                    lemma_res_opt(cond, m2);
                    lemma_res_opt(post, m2);
                    lemma_res_stmt(*body, m2, next + n1);
                },
                SpecForInit::InitExp(e) => {
                    lemma_res_opt(e, m1);
                    lemma_res_opt(cond, m1);
                    lemma_res_opt(post, m1);
                    lemma_res_stmt(*body, m1, next);
                },
            }
        },
        _ => {},
    }
}

proof fn lemma_res_item(it: SpecBlockItem, m: SpecScope, next: int)
    requires
        res_item(it, m, next).0 is Ok,
    ensures
        resolved_item((res_item(it, m, next).0->Ok_0).0),
        plain_item(it) ==> plain_item((res_item(it, m, next).0->Ok_0).0),
    decreases it, 0int,
{
    match it {
        SpecBlockItem::Statement(s) => lemma_res_stmt(s, m, next),
        SpecBlockItem::Declaration(SpecDeclaration::VarDecl(d)) => lemma_res_var_decl(d, m, next),
        SpecBlockItem::Declaration(SpecDeclaration::FnDecl(_)) => {},
    }
}

proof fn lemma_res_items(items: Seq<SpecBlockItem>, m: SpecScope, next: int)
    requires
        res_items(items, m, next).0 is Ok,
    ensures
        resolved_items((res_items(items, m, next).0->Ok_0).0),
        plain_items(items) ==> plain_items((res_items(items, m, next).0->Ok_0).0),
    decreases items, 0int,
{
    if items.len() > 0 {
        lemma_res_item(items[0], m, next);
        let (it, m2) = res_item(items[0], m, next).0->Ok_0;
        let n1 = res_item(items[0], m, next).1;
        lemma_res_items(items.drop_first(), m2, next + n1);
        let rest = (res_items(items.drop_first(), m2, next + n1).0->Ok_0).0;
        assert((seq![it] + rest).drop_first() =~= rest);
        assert((seq![it] + rest)[0] == it);
    }
}

proof fn lemma_res_params(ps: Seq<SpecParam>, m: SpecScope, next: int)
    requires
        res_params(ps, m, next).0 is Ok,
        forall|j: int| 0 <= j < ps.len() ==> (#[trigger] ps[j]).name is Some,
    ensures
        params_ready((res_params(ps, m, next).0->Ok_0).0),
        (res_params(ps, m, next).0->Ok_0).0.len() == ps.len(),
    decreases ps.len(),
{
    if ps.len() > 0 {
        let (r1, n1) = res_param(ps[0], m, next);
        let (p2, m2) = r1->Ok_0;
        assert forall|j: int| 0 <= j < ps.len() - 1 implies (#[trigger] ps.drop_first()[j]).name is Some by {
            assert(ps.drop_first()[j] == ps[j + 1]);
        }
        lemma_res_params(ps.drop_first(), m2, next + n1);
        let rest = (res_params(ps.drop_first(), m2, next + n1).0->Ok_0).0;
        let all = seq![p2] + rest;
        assert forall|j: int| 0 <= j < all.len() implies (#[trigger] all[j]).name is Some && all[j].id is Some by {
            if j > 0 {
                assert(all[j] == rest[j - 1]);
            }
        }
    }
}

proof fn lemma_res_fn_decl(f: SpecFnDecl, m: SpecScope, next: int)
    requires
        res_fn_decl(f, m, next).0 is Ok,
        forall|j: int| 0 <= j < f.params.len() ==> (#[trigger] f.params[j]).name is Some,
    ensures
        resolved_fn((res_fn_decl(f, m, next).0->Ok_0).0),
        plain_fn(f) ==> plain_fn((res_fn_decl(f, m, next).0->Ok_0).0),
{
    let m2 = m.push((f.name, IdentifierMapEntry {
        id: TempId(0),
        is_from_current_scope: true,
        has_linkage: true,
    }));
    let inner0 = scope_copy(m2);
    lemma_res_params(f.params, inner0, next);
    let (rp, n1) = res_params(f.params, inner0, next);
    let (ps2, inner) = rp->Ok_0;
    if let Some(b) = f.body {
        lemma_res_items(b, inner, next + n1);
    }
}

proof fn lemma_res_functions(fs: Seq<SpecFnDecl>, m: SpecScope, next: int)
    requires
        res_functions(fs, m, next).0 is Ok,
        params_named(fs),
    ensures
        res_functions(fs, m, next).0->Ok_0.len() == fs.len(),
        forall|i: int| 0 <= i < fs.len() ==> resolved_fn(#[trigger] (res_functions(fs, m, next).0->Ok_0)[i]),
        (forall|i: int| 0 <= i < fs.len() ==> plain_fn(#[trigger] fs[i]))
            ==> forall|i: int| 0 <= i < fs.len() ==> plain_fn(#[trigger] (res_functions(fs, m, next).0->Ok_0)[i]),
    decreases fs.len(),
{
    if fs.len() > 0 {
        assert forall|j: int| 0 <= j < fs[0].params.len() implies (#[trigger] fs[0].params[j]).name is Some by {
            assert(fs[0].params[j].name is Some);
        }
        lemma_res_fn_decl(fs[0], m, next);
        let (f2, m2) = res_fn_decl(fs[0], m, next).0->Ok_0;
        let n1 = res_fn_decl(fs[0], m, next).1;
        let tail = fs.drop_first();
        assert forall|i: int, j: int| #![trigger tail[i].params[j]] 0 <= i < tail.len() && 0 <= j < tail[i].params.len()
            implies tail[i].params[j].name is Some by {
            assert(tail[i] == fs[i + 1]);
            assert(fs[i + 1].params[j].name is Some);
        }
        lemma_res_functions(tail, m2, next + n1);
        let rest = res_functions(tail, m2, next + n1).0->Ok_0;
        let all = seq![f2] + rest;
        assert(all[0] == f2);
        assert(all.drop_first() =~= rest);
        assert forall|i: int| 0 <= i < fs.len() implies resolved_fn(#[trigger] all[i]) by {
            if i > 0 {
                assert(all[i] == rest[i - 1]);
            }
        }
    }
}

proof fn lemma_label_stmt(s: SpecStatement, cur: Option<Label>, next: int)
    requires
        resolved_stmt(s),
        label_stmt(s, cur, next).0 is Ok,
    ensures
        resolved_stmt(label_stmt(s, cur, next).0->Ok_0),
        labelled_stmt(label_stmt(s, cur, next).0->Ok_0),
        marked_stmt(label_stmt(s, cur, next).0->Ok_0),
        numbered_stmt(label_stmt(s, cur, next).0->Ok_0, next),
        aimed_stmt(label_stmt(s, cur, next).0->Ok_0, cur),
        loops_in_stmt(label_stmt(s, cur, next).0->Ok_0) == label_stmt(s, cur, next).1,
        plain_stmt(s) ==> plain_stmt(label_stmt(s, cur, next).0->Ok_0),
    decreases s, 0int,
{
    match s {
        SpecStatement::While { cond: _, body, label: _ } => {
            lemma_label_stmt(*body, Some(loop_label(next)), next + 1);
        },
        SpecStatement::DoWhile { body, cond: _, label: _ } => {
            lemma_label_stmt(*body, Some(loop_label(next)), next + 1);
        },
        SpecStatement::For { init: _, cond: _, post: _, body, label: _ } => {
            lemma_label_stmt(*body, Some(loop_label(next)), next + 1);
        },
        SpecStatement::If { cond: _, then, else_ } => {
            lemma_label_stmt(*then, cur, next);
            if let Some(es) = else_ {
                lemma_label_stmt(*es, cur, next + label_stmt(*then, cur, next).1);
            }
        },
        SpecStatement::Compound(items) => lemma_label_items(items, cur, next),
        _ => {},
    }
}

proof fn lemma_label_items(items: Seq<SpecBlockItem>, cur: Option<Label>, next: int)
    requires
        resolved_items(items),
        label_items(items, cur, next).0 is Ok,
    ensures
        resolved_items(label_items(items, cur, next).0->Ok_0),
        labelled_items(label_items(items, cur, next).0->Ok_0),
        marked_items(label_items(items, cur, next).0->Ok_0),
        numbered_items(label_items(items, cur, next).0->Ok_0, next),
        aimed_items(label_items(items, cur, next).0->Ok_0, cur),
        loops_in_items(label_items(items, cur, next).0->Ok_0) == label_items(items, cur, next).1,
        plain_items(items) ==> plain_items(label_items(items, cur, next).0->Ok_0),
    decreases items, 0int,
{
    if items.len() > 0 {
        let (r1, n1) = match items[0] {
            SpecBlockItem::Statement(st) => {
                let (r, n) = label_stmt(st, cur, next);
                (match r {
                    Ok(s2) => Ok(SpecBlockItem::Statement(s2)),
                    Err(x) => Err(x),
                }, n)
            },
            other => (Ok(other), 0nat),
        };
        assert(resolved_item(items[0]));
        assert(resolved_items(items.drop_first()));
        if let SpecBlockItem::Statement(st) = items[0] {
            lemma_label_stmt(st, cur, next);
        }
        let it = r1->Ok_0;
        assert(resolved_item(it));
        assert(marked_item(it));
        assert(numbered_item(it, next));
        assert(aimed_item(it, cur));
        assert(loops_in_item(it) == n1);
        if plain_items(items) {
            assert(plain_item(items[0]));
            assert(plain_items(items.drop_first()));
            assert(plain_item(it));
        }
        lemma_label_items(items.drop_first(), cur, next + n1);
        let rest = label_items(items.drop_first(), cur, next + n1).0->Ok_0;
        assert((seq![it] + rest).drop_first() =~= rest);
        assert((seq![it] + rest)[0] == it);
    }
}

proof fn lemma_label_functions(fs: Seq<SpecFnDecl>, next: int)
    requires
        forall|i: int| 0 <= i < fs.len() ==> resolved_fn(#[trigger] fs[i]),
        label_functions(fs, next).0 is Ok,
    ensures
        label_functions(fs, next).0->Ok_0.len() == fs.len(),
        forall|i: int| 0 <= i < fs.len() ==> resolved_fn(#[trigger] (label_functions(fs, next).0->Ok_0)[i])
            && labelled_fn((label_functions(fs, next).0->Ok_0)[i]) && marked_fn((label_functions(fs, next).0->Ok_0)[i])
            && aimed_fn((label_functions(fs, next).0->Ok_0)[i]),
        numbered_fns(label_functions(fs, next).0->Ok_0, next),
        loops_in_fns(label_functions(fs, next).0->Ok_0) == label_functions(fs, next).1,
        (forall|i: int| 0 <= i < fs.len() ==> plain_fn(#[trigger] fs[i]))
            ==> forall|i: int| 0 <= i < fs.len() ==> plain_fn(#[trigger] (label_functions(fs, next).0->Ok_0)[i]),
    decreases fs.len(),
{
    if fs.len() > 0 {
        let f = fs[0];
        assert(resolved_fn(f));
        let (r1, n1) = match f.body {
            Some(b) => {
                let (r, n) = label_items(b, None, next);
                (match r {
                    Ok(b2) => Ok(SpecFnDecl { name: f.name, params: f.params, body: Some(b2) }),
                    Err(x) => Err(x),
                }, n)
            },
            None => (Ok(f), 0nat),
        };
        if let Some(b) = f.body {
            lemma_label_items(b, None, next);
        }
        let f2 = r1->Ok_0;
        assert forall|i: int| 0 <= i < fs.len() - 1 implies resolved_fn(#[trigger] fs.drop_first()[i]) by {
            assert(fs.drop_first()[i] == fs[i + 1]);
        }
        lemma_label_functions(fs.drop_first(), next + n1);
        let rest = label_functions(fs.drop_first(), next + n1).0->Ok_0;
        let all = seq![f2] + rest;
        assert(all[0] == f2);
        assert(all.drop_first() =~= rest);
        assert forall|i: int| 0 <= i < fs.len() implies resolved_fn(#[trigger] all[i]) && labelled_fn(all[i])
            && marked_fn(all[i]) && aimed_fn(all[i]) by {
            if i > 0 {
                assert(all[i] == rest[i - 1]);
            }
        }
    }
}

/// A program whose parameters all have names, and which resolution and
/// then loop labelling accept, can be translated to three-address code,
/// whatever numbers the counters start from.
pub proof fn lemma_checked_program_translates(fs: Seq<SpecFnDecl>, n: int, next: int, v: int, l: int)
    requires
        params_named(fs),
        res_functions(fs, Seq::empty(), n).0 is Ok,
        label_functions(res_functions(fs, Seq::empty(), n).0->Ok_0, next).0 is Ok,
    ensures
        program_ir(label_functions(res_functions(fs, Seq::empty(), n).0->Ok_0, next).0->Ok_0, v, l) is Some,
{
    lemma_res_functions(fs, Seq::empty(), n);
    let fs2 = res_functions(fs, Seq::empty(), n).0->Ok_0;
    lemma_label_functions(fs2, next);
    let fs3 = label_functions(fs2, next).0->Ok_0;
    lemma_ready_program_translates(fs3, v, l);
}

/// A program whose parameters all have names and whose operations are
/// plain, and which resolution and then loop labelling accept, translates
/// to three-address code that the code generator can lower, whatever
/// numbers the counters start from.
pub proof fn lemma_checked_program_lowers(fs: Seq<SpecFnDecl>, n: int, next: int, v: int, l: int)
    requires
        params_named(fs),
        forall|i: int| 0 <= i < fs.len() ==> plain_fn(#[trigger] fs[i]),
        res_functions(fs, Seq::empty(), n).0 is Ok,
        label_functions(res_functions(fs, Seq::empty(), n).0->Ok_0, next).0 is Ok,
    ensures
        program_ir(label_functions(res_functions(fs, Seq::empty(), n).0->Ok_0, next).0->Ok_0, v, l) is Some,
        program_lowerable(SpecIRProgram {
            functions: program_ir(label_functions(res_functions(fs, Seq::empty(), n).0->Ok_0, next).0->Ok_0, v, l).unwrap().0,
        }),
{
    lemma_res_functions(fs, Seq::empty(), n);
    let fs2 = res_functions(fs, Seq::empty(), n).0->Ok_0;
    lemma_label_functions(fs2, next);
    let fs3 = label_functions(fs2, next).0->Ok_0;
    lemma_ready_program_translates(fs3, v, l);
    lemma_plain_program_lowers(fs3, v, l);
}

/// No label is defined twice: in the three-address code of a program that
/// resolution and then loop labelling accept, the labels of each kind are
/// all different. The labels that translation draws (`true`, `false`,
/// `end`, `else`) are different from each other whatever their kinds, and
/// lie in the window `[l, l + lb)` of its counter; the loop labels lie in
/// the window `[next, next + n)` of the labelling counter, `n` being the
/// number of loops.
pub proof fn lemma_checked_program_labels_unique(fs: Seq<SpecFnDecl>, n: int, next: int, v: int, l: int)
    requires
        params_named(fs),
        res_functions(fs, Seq::empty(), n).0 is Ok,
        label_functions(res_functions(fs, Seq::empty(), n).0->Ok_0, next).0 is Ok,
        0 <= next,
        next + label_functions(res_functions(fs, Seq::empty(), n).0->Ok_0, next).1 <= u32::MAX + 1,
        0 <= l,
        program_ir(label_functions(res_functions(fs, Seq::empty(), n).0->Ok_0, next).0->Ok_0, v, l) matches Some((_, _, lb))
            && l + lb <= u32::MAX + 1,
    ensures
        ({
            let loops = label_functions(res_functions(fs, Seq::empty(), n).0->Ok_0, next).1;
            let (fns, _t, lb) = program_ir(label_functions(res_functions(fs, Seq::empty(), n).0->Ok_0, next).0->Ok_0, v, l).unwrap();
            let code = program_code(fns);
            let ids = drawn_labels(code);
            &&& forall|k: LabelKind| no_repeats(#[trigger] kind_ids(code, k))
            &&& no_repeats(ids)
            &&& forall|i: int| 0 <= i < ids.len() ==> l <= #[trigger] ids[i] < l + lb
            &&& forall|k: LabelKind, i: int| loop_kind(k) && 0 <= i < kind_ids(code, k).len()
                ==> next <= #[trigger] kind_ids(code, k)[i] < next + loops
        }),
{
    lemma_res_functions(fs, Seq::empty(), n);
    let fs2 = res_functions(fs, Seq::empty(), n).0->Ok_0;
    lemma_label_functions(fs2, next);
    let fs3 = label_functions(fs2, next).0->Ok_0;
    let code = program_code(program_ir(fs3, v, l).unwrap().0);
    crate::ir::labels::lemma_program_labels_unique(fs3, v, l, next);
    crate::ir::labels::lemma_program_labels_distinct(fs3, v, l);
    assert forall|k: LabelKind, i: int| loop_kind(k) && 0 <= i < kind_ids(code, k).len()
        implies next <= #[trigger] kind_ids(code, k)[i] < next + loops_in_fns(fs3) by {
        crate::ir::labels::lemma_program_loop_labels_distinct(fs3, v, l, next, k);
    }
}

/// Every jump lands: in the three-address code of each function of a
/// program that resolution and then loop labelling accept, every jump
/// targets a label that the same function defines.
pub proof fn lemma_checked_program_jumps_land(fs: Seq<SpecFnDecl>, n: int, next: int, v: int, l: int)
    requires
        params_named(fs),
        res_functions(fs, Seq::empty(), n).0 is Ok,
        label_functions(res_functions(fs, Seq::empty(), n).0->Ok_0, next).0 is Ok,
    ensures
        ({
            let fns = program_ir(label_functions(res_functions(fs, Seq::empty(), n).0->Ok_0, next).0->Ok_0, v, l).unwrap().0;
            forall|i: int| 0 <= i < fns.len() ==> targets(#[trigger] fns[i].instructions).subset_of(defines(fns[i].instructions))
        }),
{
    lemma_res_functions(fs, Seq::empty(), n);
    let fs2 = res_functions(fs, Seq::empty(), n).0->Ok_0;
    lemma_label_functions(fs2, next);
    let fs3 = label_functions(fs2, next).0->Ok_0;
    lemma_ready_program_translates(fs3, v, l);
    crate::ir::jumps::lemma_program_jumps_land(fs3, v, l);
    let fns = program_ir(fs3, v, l).unwrap().0;
    assert forall|i: int| 0 <= i < fns.len() implies targets(#[trigger] fns[i].instructions).subset_of(
        defines(fns[i].instructions),
    ) by {
        assert(fns[i] == program_ir(fs3, v, l).unwrap().0[i]);
    }
}

/// `s` holds a `break` or `continue` outside every loop, `in_loop` telling
/// whether `s` itself sits in one.
pub open spec fn stray_stmt(s: SpecStatement, in_loop: bool) -> bool
    decreases s,
{
    match s {
        SpecStatement::Break(_) => !in_loop,
        SpecStatement::Continue(_) => !in_loop,
        SpecStatement::While { cond: _, body, label: _ } => stray_stmt(*body, true),
        SpecStatement::DoWhile { body, cond: _, label: _ } => stray_stmt(*body, true),
        SpecStatement::For { init: _, cond: _, post: _, body, label: _ } => stray_stmt(*body, true),
        SpecStatement::If { cond: _, then, else_ } => stray_stmt(*then, in_loop) || match else_ {
            Some(es) => stray_stmt(*es, in_loop),
            None => false,
        },
        SpecStatement::Compound(items) => stray_items(items, in_loop),
        _ => false,
    }
}

/// Some statement among the items holds a stray `break` or `continue`.
pub open spec fn stray_items(items: Seq<SpecBlockItem>, in_loop: bool) -> bool
    decreases items,
{
    items.len() > 0 && ((match items[0] {
        SpecBlockItem::Statement(st) => stray_stmt(st, in_loop),
        _ => false,
    }) || stray_items(items.drop_first(), in_loop))
}

/// The body of some function holds a stray `break` or `continue`.
pub open spec fn stray_fns(fs: Seq<SpecFnDecl>) -> bool
    decreases fs.len(),
{
    fs.len() > 0 && ((match fs[0].body {
        Some(b) => stray_items(b, false),
        None => false,
    }) || stray_fns(fs.drop_first()))
}

/// No function is defined inside a block of `s`.
pub open spec fn flat_stmt(s: SpecStatement) -> bool
    decreases s,
{
    match s {
        SpecStatement::While { cond: _, body, label: _ } => flat_stmt(*body),
        SpecStatement::DoWhile { body, cond: _, label: _ } => flat_stmt(*body),
        SpecStatement::For { init: _, cond: _, post: _, body, label: _ } => flat_stmt(*body),
        SpecStatement::If { cond: _, then, else_ } => flat_stmt(*then) && match else_ {
            Some(es) => flat_stmt(*es),
            None => true,
        },
        SpecStatement::Compound(items) => flat_items(items),
        _ => true,
    }
}

/// No function is defined among the items or inside their statements.
pub open spec fn flat_items(items: Seq<SpecBlockItem>) -> bool
    decreases items,
{
    items.len() == 0 || ((match items[0] {
        SpecBlockItem::Statement(st) => flat_stmt(st),
        SpecBlockItem::Declaration(SpecDeclaration::FnDecl(f)) => f.body is None,
        SpecBlockItem::Declaration(SpecDeclaration::VarDecl(_)) => true,
    }) && flat_items(items.drop_first()))
}

/// No function is defined inside the body of `f`.
pub open spec fn flat_fn(f: SpecFnDecl) -> bool {
    match f.body {
        Some(b) => flat_items(b),
        None => true,
    }
}

proof fn lemma_labelling_stmt(s: SpecStatement, cur: Option<Label>, next: int)
    ensures
        (label_stmt(s, cur, next).0 is Err) == stray_stmt(s, cur is Some),
        label_stmt(s, cur, next).0 is Ok ==> label_stmt(s, cur, next).1 == loops_in_stmt(s),
        label_stmt(s, cur, next).0 is Ok && flat_stmt(s) ==> numbered_stmt(label_stmt(s, cur, next).0->Ok_0, next)
            && aimed_stmt(label_stmt(s, cur, next).0->Ok_0, cur)
            && loops_in_stmt(label_stmt(s, cur, next).0->Ok_0) == label_stmt(s, cur, next).1,
    decreases s, 0int,
{
    match s {
        SpecStatement::While { cond: _, body, label: _ } => lemma_labelling_stmt(*body, Some(loop_label(next)), next + 1),
        SpecStatement::DoWhile { body, cond: _, label: _ } => lemma_labelling_stmt(*body, Some(loop_label(next)), next + 1),
        SpecStatement::For { init: _, cond: _, post: _, body, label: _ } => {
            lemma_labelling_stmt(*body, Some(loop_label(next)), next + 1)
        },
        SpecStatement::If { cond: _, then, else_ } => {
            lemma_labelling_stmt(*then, cur, next);
            if let Some(es) = else_ {
                lemma_labelling_stmt(*es, cur, next + label_stmt(*then, cur, next).1);
            }
        },
        SpecStatement::Compound(items) => lemma_labelling_items(items, cur, next),
        SpecStatement::Break(_) => {
            if let Some(l) = cur {
                assert(exits(cur).contains(Label { kind: LabelKind::Break, id: l.id }));
            }
        },
        SpecStatement::Continue(_) => {
            if let Some(l) = cur {
                assert(exits(cur).contains(Label { kind: LabelKind::Continue, id: l.id }));
            }
        },
        _ => {},
    }
}

proof fn lemma_labelling_items(items: Seq<SpecBlockItem>, cur: Option<Label>, next: int)
    ensures
        (label_items(items, cur, next).0 is Err) == stray_items(items, cur is Some),
        label_items(items, cur, next).0 is Ok ==> label_items(items, cur, next).1 == loops_in_items(items),
        label_items(items, cur, next).0 is Ok && flat_items(items) ==> numbered_items(label_items(items, cur, next).0->Ok_0, next)
            && aimed_items(label_items(items, cur, next).0->Ok_0, cur)
            && loops_in_items(label_items(items, cur, next).0->Ok_0) == label_items(items, cur, next).1,
    decreases items, 0int,
{
    if items.len() > 0 {
        let (r1, n1) = match items[0] {
            SpecBlockItem::Statement(st) => {
                let (r, n) = label_stmt(st, cur, next);
                (match r {
                    Ok(s2) => Ok(SpecBlockItem::Statement(s2)),
                    Err(x) => Err(x),
                }, n)
            },
            other => (Ok(other), 0nat),
        };
        if let SpecBlockItem::Statement(st) = items[0] {
            lemma_labelling_stmt(st, cur, next);
        }
        lemma_labelling_items(items.drop_first(), cur, next + n1);
        assert(label_items(items, cur, next).1 == n1 + label_items(items.drop_first(), cur, next + n1).1 || r1 is Err);
        assert((r1 is Err) == (match items[0] {
            SpecBlockItem::Statement(st) => stray_stmt(st, cur is Some),
            _ => false,
        }));
        if r1 is Ok {
            assert(loops_in_item(items[0]) == n1);
            let it = r1->Ok_0;
            let rest_r = label_items(items.drop_first(), cur, next + n1).0;
            if rest_r is Ok {
                let rest = rest_r->Ok_0;
                assert((seq![it] + rest).drop_first() =~= rest);
                assert((seq![it] + rest)[0] == it);
                if flat_items(items) {
                    assert(numbered_item(it, next));
                    assert(aimed_item(it, cur));
                    assert(loops_in_item(it) == n1);
                }
            }
        }
    }
}

/// What loop labelling does: it fails exactly when some `break` or
/// `continue` lies outside every loop; otherwise it draws one number per
/// loop, so a new analyzer, whose counter starts at 0, ends with the number
/// of loops; and where no function is defined inside a block, the loops
/// carry the loop labels numbered `next`, `next + 1`, ... in the order they
/// begin, and every `break` and `continue` goes to its innermost loop.
pub proof fn lemma_loop_labelling(fs: Seq<SpecFnDecl>, next: int)
    ensures
        (label_functions(fs, next).0 is Err) == stray_fns(fs),
        label_functions(fs, next).0 is Ok ==> label_functions(fs, next).1 == loops_in_fns(fs)
            && (label_functions(fs, next).0->Ok_0).len() == fs.len(),
        label_functions(fs, next).0 is Ok && (forall|i: int| 0 <= i < fs.len() ==> flat_fn(#[trigger] fs[i]))
            ==> numbered_fns(label_functions(fs, next).0->Ok_0, next)
            && forall|i: int| 0 <= i < fs.len() ==> aimed_fn(#[trigger] (label_functions(fs, next).0->Ok_0)[i]),
    decreases fs.len(),
{
    if fs.len() > 0 {
        let f = fs[0];
        let (r1, n1) = match f.body {
            Some(b) => {
                let (r, n) = label_items(b, None, next);
                (match r {
                    Ok(b2) => Ok(SpecFnDecl { name: f.name, params: f.params, body: Some(b2) }),
                    Err(x) => Err(x),
                }, n)
            },
            None => (Ok(f), 0nat),
        };
        if let Some(b) = f.body {
            lemma_labelling_items(b, None, next);
        }
        lemma_loop_labelling(fs.drop_first(), next + n1);
        if r1 is Ok && label_functions(fs.drop_first(), next + n1).0 is Ok {
            let f2 = r1->Ok_0;
            let rest = label_functions(fs.drop_first(), next + n1).0->Ok_0;
            let all = seq![f2] + rest;
            assert(all[0] == f2);
            assert(all.drop_first() =~= rest);
            if forall|i: int| 0 <= i < fs.len() ==> flat_fn(#[trigger] fs[i]) {
                assert(flat_fn(fs[0]));
                assert forall|i: int| 0 <= i < fs.drop_first().len() implies flat_fn(#[trigger] fs.drop_first()[i]) by {
                    assert(fs.drop_first()[i] == fs[i + 1]);
                }
                assert(loops_in_fn(f2) == n1);
                assert forall|i: int| 0 <= i < fs.len() implies aimed_fn(#[trigger] all[i]) by {
                    if i > 0 {
                        assert(all[i] == rest[i - 1]);
                    }
                }
            }
        }
    }
}

} // verus!
