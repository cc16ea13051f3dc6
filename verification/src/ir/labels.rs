//! No label is defined twice in the three-address code of a program.
//! The labels that translation draws from its own counter (`true`, `false`,
//! `end`, `else`) are all different and lie in the window of numbers it
//! drew; the loop labels (`start_loop`, `break_loop`, `continue_loop`) carry
//! the numbers that loop labelling gave the loops, one number per loop.
use vstd::prelude::*;

use crate::common::BinaryOp;
use crate::fresh::{lemma_join, lemma_widen, lemma_within_one, no_repeats, within};
use crate::ir::ir_ast::{IRVal, Label, LabelKind, SpecIRFunction, SpecIRInstruction};
use crate::ir::{
    args_ir, binop_code, body_ir, break_of, continue_of, do_while_code, effect_ir, exp_ir,
    factor_ir, for_code, for_cond_ir, for_init_ir, function_ir, if_code, if_else_code, item_ir,
    items_ir, label_at, program_ir, stmt_ir, var_decl_ir, while_code, Code, ExpCode,
};
use crate::parser::semantic_analysis::loop_label;
use crate::parser::c_ast::{
    SpecBlockItem, SpecDeclaration, SpecExpression, SpecFactor, SpecFnDecl, SpecForInit,
    SpecStatement, SpecVarDecl,
};

verus! {

/// A kind of label that translation numbers from its own counter.
pub open spec fn drawn_kind(k: LabelKind) -> bool {
    k == LabelKind::True || k == LabelKind::False || k == LabelKind::End || k == LabelKind::Else
}

/// The numbers of the drawn labels that `code` defines, in order.
pub open spec fn drawn_labels(code: Seq<SpecIRInstruction>) -> Seq<int>
    decreases code.len(),
{
    if code.len() == 0 {
        seq![]
    } else {
        let rest = drawn_labels(code.drop_first());
        match code[0] {
            SpecIRInstruction::Label(lb) => if drawn_kind(lb.kind) {
                seq![lb.id as int] + rest
            } else {
                rest
            },
            _ => rest,
        }
    }
}

proof fn lemma_drawn_add(a: Seq<SpecIRInstruction>, b: Seq<SpecIRInstruction>)
    ensures
        drawn_labels(a + b) == drawn_labels(a) + drawn_labels(b),
    decreases a.len(),
{
    if a.len() == 0 {
        assert(a + b =~= b);
    } else {
        assert((a + b).drop_first() =~= a.drop_first() + b);
        assert((a + b)[0] == a[0]);
        lemma_drawn_add(a.drop_first(), b);
        let ra = drawn_labels(a.drop_first());
        let rb = drawn_labels(b);
        match a[0] {
            SpecIRInstruction::Label(lb) => if drawn_kind(lb.kind) {
                assert(seq![lb.id as int] + (ra + rb) =~= (seq![lb.id as int] + ra) + rb);
            },
            _ => {},
        }
    }
}

proof fn lemma_drawn_one(x: SpecIRInstruction)
    ensures
        drawn_labels(seq![x]) == (match x {
            SpecIRInstruction::Label(lb) => if drawn_kind(lb.kind) { seq![lb.id as int] } else { Seq::<int>::empty() },
            _ => Seq::<int>::empty(),
        }),
{
    assert(seq![x].drop_first() =~= Seq::<SpecIRInstruction>::empty());
    assert(seq![x][0] == x);
    assert(drawn_labels(Seq::<SpecIRInstruction>::empty()) == Seq::<int>::empty());
    match x {
        SpecIRInstruction::Label(lb) => if drawn_kind(lb.kind) {
            assert(seq![lb.id as int] + Seq::<int>::empty() =~= seq![lb.id as int]);
        },
        _ => {},
    }
}

/// The numbers of the drawn labels that one instruction defines.
pub open spec fn drawn_of(x: SpecIRInstruction) -> Seq<int> {
    match x {
        SpecIRInstruction::Label(lb) => if drawn_kind(lb.kind) { seq![lb.id as int] } else { Seq::<int>::empty() },
        _ => Seq::<int>::empty(),
    }
}

proof fn lemma_drawn_push(a: Seq<SpecIRInstruction>, x: SpecIRInstruction)
    ensures
        drawn_labels(a.push(x)) == drawn_labels(a) + drawn_of(x),
{
    assert(a.push(x) =~= a + seq![x]);
    lemma_drawn_add(a, seq![x]);
    lemma_drawn_one(x);
}

proof fn lemma_drawn_lit2(x: SpecIRInstruction, y: SpecIRInstruction)
    ensures
        drawn_labels(seq![x, y]) == drawn_of(x) + drawn_of(y),
{
    lemma_drawn_one(x);
    assert(drawn_labels(seq![x]) == drawn_of(x));
    assert(seq![x, y] =~= seq![x].push(y));
    lemma_drawn_push(seq![x], y);
}

proof fn lemma_drawn_lit3(x: SpecIRInstruction, y: SpecIRInstruction, z: SpecIRInstruction)
    ensures
        drawn_labels(seq![x, y, z]) == drawn_of(x) + drawn_of(y) + drawn_of(z),
{
    lemma_drawn_lit2(x, y);
    assert(seq![x, y, z] =~= seq![x, y].push(z));
    lemma_drawn_push(seq![x, y], z);
}

proof fn lemma_drawn_lit6(
    x1: SpecIRInstruction,
    x2: SpecIRInstruction,
    x3: SpecIRInstruction,
    x4: SpecIRInstruction,
    x5: SpecIRInstruction,
    x6: SpecIRInstruction,
)
    ensures
        drawn_labels(seq![x1, x2, x3, x4, x5, x6]) == drawn_of(x1) + drawn_of(x2) + drawn_of(x3) + drawn_of(x4)
            + drawn_of(x5) + drawn_of(x6),
{
    lemma_drawn_lit3(x1, x2, x3);
    assert(seq![x1, x2, x3, x4] =~= seq![x1, x2, x3].push(x4));
    lemma_drawn_push(seq![x1, x2, x3], x4);
    assert(seq![x1, x2, x3, x4, x5] =~= seq![x1, x2, x3, x4].push(x5));
    lemma_drawn_push(seq![x1, x2, x3, x4], x5);
    assert(seq![x1, x2, x3, x4, x5, x6] =~= seq![x1, x2, x3, x4, x5].push(x6));
    lemma_drawn_push(seq![x1, x2, x3, x4, x5], x6);
}

/// The labels that the code for `e` defines are all different and were
/// drawn from `[l, l + labels)`.
pub proof fn lemma_expr_labels(e: SpecExpression, v: int, l: int)
    requires
        exp_ir(e, v, l) is Some,
        0 <= l,
        l + exp_ir(e, v, l).unwrap().labels <= u32::MAX + 1,
    ensures
        within(drawn_labels(exp_ir(e, v, l).unwrap().code), l, l + exp_ir(e, v, l).unwrap().labels),
    decreases e, 1int,
{
    match e {
        SpecExpression::Factor(f) => lemma_factor_labels(*f, v, l),
        SpecExpression::Binary(op, a, b) => {
            lemma_expr_labels(*a, v, l);
            let r1 = exp_ir(*a, v, l).unwrap();
            lemma_expr_labels(*b, v + r1.temps, l + r1.labels);
            let r2 = exp_ir(*b, v + r1.temps, l + r1.labels).unwrap();
            lemma_binop_labels(op, r1, r2, v, l);
        },
        SpecExpression::Assign(a, b) => {
            lemma_expr_labels(*b, v, l);
            let r = exp_ir(*b, v, l).unwrap();
            let id = crate::ir::assign_target(*a).unwrap();
            lemma_drawn_push(r.code, SpecIRInstruction::Copy(r.val, crate::ir::ir_ast::IRVal::Var(id)));
            assert(drawn_labels(r.code) + Seq::<int>::empty() =~= drawn_labels(r.code));
        },
        SpecExpression::Conditional { cond, then, else_ } => {
            lemma_expr_labels(*cond, v + 1, l);
            let c = exp_ir(*cond, v + 1, l).unwrap();
            lemma_expr_labels(*then, v + 1 + c.temps, l + c.labels);
            let t = exp_ir(*then, v + 1 + c.temps, l + c.labels).unwrap();
            lemma_expr_labels(*else_, v + 1 + c.temps + t.temps, l + c.labels + t.labels);
            let f = exp_ir(*else_, v + 1 + c.temps + t.temps, l + c.labels + t.labels).unwrap();
            lemma_conditional_labels(c, t, f, v, l);
        },
    }
}

proof fn lemma_conditional_labels(c: ExpCode, t: ExpCode, f: ExpCode, v: int, l: int)
    requires
        0 <= l,
        l + c.labels + t.labels + f.labels + 2 <= u32::MAX + 1,
        within(drawn_labels(c.code), l, l + c.labels),
        within(drawn_labels(t.code), l + c.labels, l + c.labels + t.labels),
        within(drawn_labels(f.code), l + c.labels + t.labels, l + c.labels + t.labels + f.labels),
    ensures
        ({
            let lb = l + c.labels + t.labels + f.labels;
            let else_label = label_at(LabelKind::Else, lb);
            let end_label = label_at(LabelKind::End, lb + 1);
            let res = crate::ir::temp(v);
            within(
                drawn_labels(c.code + seq![SpecIRInstruction::JumpIfZero(c.val, else_label)] + t.code + seq![
                    SpecIRInstruction::Copy(t.val, res),
                    SpecIRInstruction::Jump(end_label),
                    SpecIRInstruction::Label(else_label),
                ] + f.code + seq![SpecIRInstruction::Copy(f.val, res), SpecIRInstruction::Label(end_label)]),
                l,
                lb + 2,
            )
        }),
{
    let lb = l + c.labels + t.labels + f.labels;
    let else_label = label_at(LabelKind::Else, lb);
    let end_label = label_at(LabelKind::End, lb + 1);
    let res = crate::ir::temp(v);
    let j = seq![SpecIRInstruction::JumpIfZero(c.val, else_label)];
    let m = seq![SpecIRInstruction::Copy(t.val, res), SpecIRInstruction::Jump(end_label), SpecIRInstruction::Label(else_label)];
    let z = seq![SpecIRInstruction::Copy(f.val, res), SpecIRInstruction::Label(end_label)];
    let whole = c.code + j + t.code + m + f.code + z;
    lemma_drawn_one(SpecIRInstruction::JumpIfZero(c.val, else_label));
    lemma_drawn_lit3(m[0], m[1], m[2]);
    lemma_drawn_lit2(z[0], z[1]);
    assert(drawn_labels(m) =~= seq![lb]);
    assert(drawn_labels(z) =~= seq![lb + 1]);
    lemma_drawn_add(c.code, j);
    lemma_drawn_add(c.code + j, t.code);
    lemma_drawn_add(c.code + j + t.code, m);
    lemma_drawn_add(c.code + j + t.code + m, f.code);
    lemma_drawn_add(c.code + j + t.code + m + f.code, z);
    let dc = drawn_labels(c.code);
    let dt = drawn_labels(t.code);
    let df = drawn_labels(f.code);
    assert(drawn_labels(whole) =~= (dc + dt) + ((seq![lb] + df) + seq![lb + 1]));
    lemma_join(dc, dt, l, l + c.labels, l + c.labels + t.labels, true);
    lemma_within_one(lb);
    lemma_join(seq![lb], df, l + c.labels + t.labels, lb, lb + 1, false);
    lemma_within_one(lb + 1);
    lemma_join(seq![lb] + df, seq![lb + 1], l + c.labels + t.labels, lb + 1, lb + 2, true);
    lemma_join(dc + dt, (seq![lb] + df) + seq![lb + 1], l, l + c.labels + t.labels, lb + 2, true);
}

proof fn lemma_binop_labels(op: BinaryOp, r1: ExpCode, r2: ExpCode, v: int, l: int)
    requires
        0 <= l,
        l + binop_code(op, r1, r2, v, l).labels <= u32::MAX + 1,
        within(drawn_labels(r1.code), l, l + r1.labels),
        within(drawn_labels(r2.code), l + r1.labels, l + r1.labels + r2.labels),
    ensures
        within(drawn_labels(binop_code(op, r1, r2, v, l).code), l, l + binop_code(op, r1, r2, v, l).labels),
{
    let d1 = drawn_labels(r1.code);
    let d2 = drawn_labels(r2.code);
    let lb = l + r1.labels + r2.labels;
    let g = binop_code(op, r1, r2, v, l);
    let dst = crate::ir::temp(v + r1.temps + r2.temps);
    lemma_join(d1, d2, l, l + r1.labels, lb, true);
    if op == BinaryOp::LogicalAnd || op == BinaryOp::LogicalOr {
        let first = if op == BinaryOp::LogicalAnd { label_at(LabelKind::False, lb) } else { label_at(LabelKind::True, lb) };
        let end = label_at(LabelKind::End, lb + 1);
        let j = if op == BinaryOp::LogicalAnd {
            SpecIRInstruction::JumpIfZero(r1.val, first)
        } else {
            SpecIRInstruction::JumpIfNotZero(r1.val, first)
        };
        let tail = if op == BinaryOp::LogicalAnd {
            seq![
                SpecIRInstruction::JumpIfZero(r2.val, first),
                SpecIRInstruction::Copy(crate::ir::ir_ast::IRVal::Constant(1), dst),
                SpecIRInstruction::Jump(end),
                SpecIRInstruction::Label(first),
                SpecIRInstruction::Copy(crate::ir::ir_ast::IRVal::Constant(0), dst),
                SpecIRInstruction::Label(end),
            ]
        } else {
            seq![
                SpecIRInstruction::JumpIfNotZero(r2.val, first),
                SpecIRInstruction::Copy(crate::ir::ir_ast::IRVal::Constant(0), dst),
                SpecIRInstruction::Jump(end),
                SpecIRInstruction::Label(first),
                SpecIRInstruction::Copy(crate::ir::ir_ast::IRVal::Constant(1), dst),
                SpecIRInstruction::Label(end),
            ]
        };
        assert(g.code == r1.code + seq![j] + r2.code + tail);
        lemma_drawn_one(j);
        lemma_drawn_lit6(tail[0], tail[1], tail[2], tail[3], tail[4], tail[5]);
        assert(tail == seq![tail[0], tail[1], tail[2], tail[3], tail[4], tail[5]]);
        assert(drawn_labels(tail) =~= seq![lb, lb + 1]);
        lemma_drawn_add(r1.code, seq![j]);
        lemma_drawn_add(r1.code + seq![j], r2.code);
        lemma_drawn_add(r1.code + seq![j] + r2.code, tail);
        assert(drawn_labels(g.code) =~= (d1 + d2) + seq![lb, lb + 1]);
        assert(seq![lb, lb + 1] =~= seq![lb] + seq![lb + 1]);
        lemma_within_one(lb);
        lemma_within_one(lb + 1);
        lemma_join(seq![lb], seq![lb + 1], lb, lb + 1, lb + 2, true);
        lemma_join(d1 + d2, seq![lb, lb + 1], l, lb, lb + 2, true);
    } else {
        let x = SpecIRInstruction::Binary(op, r1.val, r2.val, dst);
        lemma_drawn_add(r1.code, r2.code);
        lemma_drawn_push(r1.code + r2.code, x);
        assert((r1.code + r2.code).push(x) =~= r1.code + r2.code + seq![x]);
        assert(drawn_labels(g.code) =~= d1 + d2);
    }
}

proof fn lemma_factor_labels(f: SpecFactor, v: int, l: int)
    requires
        factor_ir(f, v, l) is Some,
        0 <= l,
        l + factor_ir(f, v, l).unwrap().labels <= u32::MAX + 1,
    ensures
        within(drawn_labels(factor_ir(f, v, l).unwrap().code), l, l + factor_ir(f, v, l).unwrap().labels),
    decreases f, 1int,
{
    match f {
        SpecFactor::Unary(op, g) => {
            lemma_factor_labels(*g, v, l);
            let r = factor_ir(*g, v, l).unwrap();
            lemma_drawn_push(r.code, SpecIRInstruction::Unary(op, r.val, crate::ir::temp(v + r.temps)));
            assert(drawn_labels(r.code) + Seq::<int>::empty() =~= drawn_labels(r.code));
        },
        SpecFactor::Expression(e) => lemma_expr_labels(e, v, l),
        SpecFactor::FunctionCall(name, args) => {
            lemma_args_labels(args, v + 1, l);
            let (vals, a) = args_ir(args, v + 1, l).unwrap();
            lemma_drawn_push(a.code, SpecIRInstruction::FnCall(name, vals, crate::ir::temp(v)));
            assert(drawn_labels(a.code) + Seq::<int>::empty() =~= drawn_labels(a.code));
        },
        _ => {
            assert(drawn_labels(Seq::<SpecIRInstruction>::empty()) == Seq::<int>::empty());
        },
    }
}

proof fn lemma_args_labels(args: Seq<SpecExpression>, v: int, l: int)
    requires
        args_ir(args, v, l) is Some,
        0 <= l,
        l + args_ir(args, v, l).unwrap().1.labels <= u32::MAX + 1,
    ensures
        within(drawn_labels(args_ir(args, v, l).unwrap().1.code), l, l + args_ir(args, v, l).unwrap().1.labels),
    decreases args, 1int,
{
    if args.len() > 0 {
        lemma_expr_labels(args[0], v, l);
        let r = exp_ir(args[0], v, l).unwrap();
        lemma_args_labels(args.drop_first(), v + r.temps, l + r.labels);
        let rest = args_ir(args.drop_first(), v + r.temps, l + r.labels).unwrap().1;
        lemma_drawn_add(r.code, rest.code);
        lemma_join(drawn_labels(r.code), drawn_labels(rest.code), l, l + r.labels, l + r.labels + rest.labels, true);
    } else {
        assert(drawn_labels(Seq::<SpecIRInstruction>::empty()) == Seq::<int>::empty());
    }
}

/// A loop label, where there is one, is not of a kind that translation draws.
pub open spec fn marked_label(label: Option<Label>) -> bool {
    match label {
        Some(lb) => !drawn_kind(lb.kind),
        None => true,
    }
}

/// Every loop of `s` carries a label that translation does not draw.
pub open spec fn marked_stmt(s: SpecStatement) -> bool
    decreases s,
{
    match s {
        SpecStatement::While { cond: _, body, label } => marked_label(label) && marked_stmt(*body),
        SpecStatement::DoWhile { body, cond: _, label } => marked_label(label) && marked_stmt(*body),
        SpecStatement::For { init: _, cond: _, post: _, body, label } => marked_label(label) && marked_stmt(*body),
        SpecStatement::If { cond: _, then, else_ } => marked_stmt(*then) && match else_ {
            Some(es) => marked_stmt(*es),
            None => true,
        },
        SpecStatement::Compound(items) => marked_items(items),
        _ => true,
    }
}

/// Every loop among the items, nested definitions included, is marked.
pub open spec fn marked_items(items: Seq<SpecBlockItem>) -> bool
    decreases items,
{
    items.len() == 0 || (marked_item(items[0]) && marked_items(items.drop_first()))
}

pub open spec fn marked_item(it: SpecBlockItem) -> bool
    decreases it,
{
    match it {
        SpecBlockItem::Statement(s) => marked_stmt(s),
        SpecBlockItem::Declaration(SpecDeclaration::FnDecl(f)) => match f.body {
            Some(b) => marked_items(b),
            None => true,
        },
        SpecBlockItem::Declaration(SpecDeclaration::VarDecl(_)) => true,
    }
}

/// Every loop in the body of `f` is marked.
pub open spec fn marked_fn(f: SpecFnDecl) -> bool {
    match f.body {
        Some(b) => marked_items(b),
        None => true,
    }
}

/// The instructions of all the functions, one after the other.
pub open spec fn program_code(fns: Seq<SpecIRFunction>) -> Seq<SpecIRInstruction>
    decreases fns.len(),
{
    if fns.len() == 0 {
        seq![]
    } else {
        fns[0].instructions + program_code(fns.drop_first())
    }
}

proof fn lemma_push_plain(a: Seq<SpecIRInstruction>, x: SpecIRInstruction)
    requires
        drawn_of(x) == Seq::<int>::empty(),
    ensures
        drawn_labels(a.push(x)) == drawn_labels(a),
{
    lemma_drawn_push(a, x);
    assert(drawn_labels(a) + Seq::<int>::empty() =~= drawn_labels(a));
}

proof fn lemma_nothing_drawn()
    ensures
        drawn_labels(Seq::<SpecIRInstruction>::empty()) == Seq::<int>::empty(),
        within(Seq::<int>::empty(), 0, 0),
{
}

proof fn lemma_effect_labels(e: Option<SpecExpression>, v: int, l: int)
    requires
        effect_ir(e, v, l) is Some,
        0 <= l,
        l + effect_ir(e, v, l).unwrap().labels <= u32::MAX + 1,
    ensures
        within(drawn_labels(effect_ir(e, v, l).unwrap().code), l, l + effect_ir(e, v, l).unwrap().labels),
{
    match e {
        Some(x) => lemma_expr_labels(x, v, l),
        None => lemma_nothing_drawn(),
    }
}

proof fn lemma_var_decl_labels(d: SpecVarDecl, v: int, l: int)
    requires
        var_decl_ir(d, v, l) is Some,
        0 <= l,
        l + var_decl_ir(d, v, l).unwrap().labels <= u32::MAX + 1,
    ensures
        within(drawn_labels(var_decl_ir(d, v, l).unwrap().code), l, l + var_decl_ir(d, v, l).unwrap().labels),
{
    match d.init {
        Some(e) => {
            lemma_expr_labels(e, v, l);
            let r = exp_ir(e, v, l).unwrap();
            lemma_push_plain(r.code, SpecIRInstruction::Copy(r.val, IRVal::Var(d.var.id.unwrap())));
        },
        None => lemma_nothing_drawn(),
    }
}

proof fn lemma_for_init_labels(init: SpecForInit, v: int, l: int)
    requires
        for_init_ir(init, v, l) is Some,
        0 <= l,
        l + for_init_ir(init, v, l).unwrap().labels <= u32::MAX + 1,
    ensures
        within(drawn_labels(for_init_ir(init, v, l).unwrap().code), l, l + for_init_ir(init, v, l).unwrap().labels),
{
    match init {
        SpecForInit::InitDecl(d) => lemma_var_decl_labels(d, v, l),
        SpecForInit::InitExp(e) => lemma_effect_labels(e, v, l),
    }
}

proof fn lemma_for_cond_labels(cond: Option<SpecExpression>, start: Label, v: int, l: int)
    requires
        for_cond_ir(cond, start, v, l) is Some,
        0 <= l,
        l + for_cond_ir(cond, start, v, l).unwrap().labels <= u32::MAX + 1,
    ensures
        within(
            drawn_labels(for_cond_ir(cond, start, v, l).unwrap().code),
            l,
            l + for_cond_ir(cond, start, v, l).unwrap().labels,
        ),
{
    match cond {
        Some(c) => {
            lemma_expr_labels(c, v, l);
            let r = exp_ir(c, v, l).unwrap();
            lemma_push_plain(r.code, SpecIRInstruction::JumpIfZero(r.val, break_of(start)));
        },
        None => lemma_nothing_drawn(),
    }
}

proof fn lemma_if_labels(c: ExpCode, t: Code, l: int)
    requires
        0 <= l,
        l + c.labels + t.labels + 1 <= u32::MAX + 1,
        within(drawn_labels(c.code), l, l + c.labels),
        within(drawn_labels(t.code), l + c.labels, l + c.labels + t.labels),
    ensures
        within(drawn_labels(if_code(c, t, l).code), l, l + if_code(c, t, l).labels),
{
    let lb = l + c.labels + t.labels;
    let end_label = label_at(LabelKind::End, lb);
    let j = seq![SpecIRInstruction::JumpIfZero(c.val, end_label)];
    let z = seq![SpecIRInstruction::Label(end_label)];
    lemma_drawn_one(j[0]);
    lemma_drawn_one(z[0]);
    assert(drawn_labels(z) =~= seq![lb]);
    lemma_drawn_add(c.code, j);
    lemma_drawn_add(c.code + j, t.code);
    lemma_drawn_add(c.code + j + t.code, z);
    let dc = drawn_labels(c.code);
    let dt = drawn_labels(t.code);
    assert(drawn_labels(if_code(c, t, l).code) =~= (dc + dt) + seq![lb]);
    lemma_join(dc, dt, l, l + c.labels, lb, true);
    lemma_within_one(lb);
    lemma_join(dc + dt, seq![lb], l, lb, lb + 1, true);
}

proof fn lemma_if_else_labels(c: ExpCode, t: Code, e: Code, l: int)
    requires
        0 <= l,
        l + c.labels + t.labels + e.labels + 2 <= u32::MAX + 1,
        within(drawn_labels(c.code), l, l + c.labels),
        within(drawn_labels(t.code), l + c.labels, l + c.labels + t.labels),
        within(drawn_labels(e.code), l + c.labels + t.labels + 1, l + c.labels + t.labels + 1 + e.labels),
    ensures
        within(drawn_labels(if_else_code(c, t, e, l).code), l, l + if_else_code(c, t, e, l).labels),
{
    let lb = l + c.labels + t.labels;
    let eb = lb + 1 + e.labels;
    let end_label = label_at(LabelKind::End, lb);
    let else_label = label_at(LabelKind::Else, eb);
    let j = seq![SpecIRInstruction::JumpIfZero(c.val, else_label)];
    let m = seq![SpecIRInstruction::Jump(end_label), SpecIRInstruction::Label(else_label)];
    let z = seq![SpecIRInstruction::Label(end_label)];
    lemma_drawn_one(j[0]);
    lemma_drawn_lit2(m[0], m[1]);
    lemma_drawn_one(z[0]);
    assert(drawn_labels(m) =~= seq![eb]);
    assert(drawn_labels(z) =~= seq![lb]);
    lemma_drawn_add(c.code, j);
    lemma_drawn_add(c.code + j, t.code);
    lemma_drawn_add(c.code + j + t.code, m);
    lemma_drawn_add(c.code + j + t.code + m, e.code);
    lemma_drawn_add(c.code + j + t.code + m + e.code, z);
    let dc = drawn_labels(c.code);
    let dt = drawn_labels(t.code);
    let de = drawn_labels(e.code);
    assert(drawn_labels(if_else_code(c, t, e, l).code) =~= (dc + dt) + ((seq![eb] + de) + seq![lb]));
    lemma_join(dc, dt, l, l + c.labels, lb, true);
    lemma_within_one(eb);
    lemma_join(seq![eb], de, lb + 1, eb, eb + 1, false);
    lemma_within_one(lb);
    lemma_join(seq![eb] + de, seq![lb], lb, lb + 1, eb + 1, false);
    lemma_join(dc + dt, (seq![eb] + de) + seq![lb], l, lb, eb + 1, true);
}

proof fn lemma_while_labels(start: Label, c: ExpCode, b: Code, l: int)
    requires
        0 <= l,
        within(drawn_labels(c.code), l, l + c.labels),
        within(drawn_labels(b.code), l + c.labels, l + c.labels + b.labels),
    ensures
        within(drawn_labels(while_code(start, c, b).code), l, l + while_code(start, c, b).labels),
{
    let a = seq![SpecIRInstruction::Label(continue_of(start))];
    let j = seq![SpecIRInstruction::JumpIfZero(c.val, break_of(start))];
    let z = seq![SpecIRInstruction::Jump(continue_of(start)), SpecIRInstruction::Label(break_of(start))];
    lemma_drawn_one(a[0]);
    lemma_drawn_one(j[0]);
    lemma_drawn_lit2(z[0], z[1]);
    lemma_drawn_add(a, c.code);
    lemma_drawn_add(a + c.code, j);
    lemma_drawn_add(a + c.code + j, b.code);
    lemma_drawn_add(a + c.code + j + b.code, z);
    let dc = drawn_labels(c.code);
    let db = drawn_labels(b.code);
    assert(drawn_labels(while_code(start, c, b).code) =~= dc + db);
    lemma_join(dc, db, l, l + c.labels, l + c.labels + b.labels, true);
}

proof fn lemma_do_while_labels(start: Label, c: ExpCode, b: Code, l: int)
    requires
        0 <= l,
        !drawn_kind(start.kind),
        within(drawn_labels(c.code), l, l + c.labels),
        within(drawn_labels(b.code), l + c.labels, l + c.labels + b.labels),
    ensures
        within(drawn_labels(do_while_code(start, c, b).code), l, l + do_while_code(start, c, b).labels),
{
    let a = seq![SpecIRInstruction::Label(start)];
    let m = seq![SpecIRInstruction::Label(continue_of(start))];
    let z = seq![SpecIRInstruction::JumpIfNotZero(c.val, start), SpecIRInstruction::Label(break_of(start))];
    lemma_drawn_one(a[0]);
    lemma_drawn_one(m[0]);
    lemma_drawn_lit2(z[0], z[1]);
    lemma_drawn_add(a, b.code);
    lemma_drawn_add(a + b.code, m);
    lemma_drawn_add(a + b.code + m, c.code);
    lemma_drawn_add(a + b.code + m + c.code, z);
    let dc = drawn_labels(c.code);
    let db = drawn_labels(b.code);
    assert(drawn_labels(do_while_code(start, c, b).code) =~= db + dc);
    lemma_join(db, dc, l, l + c.labels, l + c.labels + b.labels, false);
}

proof fn lemma_for_labels(start: Label, i: Code, c: Code, b: Code, p: Code, l: int)
    requires
        0 <= l,
        !drawn_kind(start.kind),
        within(drawn_labels(i.code), l, l + i.labels),
        within(drawn_labels(c.code), l + i.labels, l + i.labels + c.labels),
        within(drawn_labels(b.code), l + i.labels + c.labels, l + i.labels + c.labels + b.labels),
        within(
            drawn_labels(p.code),
            l + i.labels + c.labels + b.labels,
            l + i.labels + c.labels + b.labels + p.labels,
        ),
    ensures
        within(drawn_labels(for_code(start, i, c, b, p).code), l, l + for_code(start, i, c, b, p).labels),
{
    let a = seq![SpecIRInstruction::Label(start)];
    let m = seq![SpecIRInstruction::Label(continue_of(start))];
    let z = seq![SpecIRInstruction::Jump(start), SpecIRInstruction::Label(break_of(start))];
    lemma_drawn_one(a[0]);
    lemma_drawn_one(m[0]);
    lemma_drawn_lit2(z[0], z[1]);
    lemma_drawn_add(i.code, a);
    lemma_drawn_add(i.code + a, c.code);
    lemma_drawn_add(i.code + a + c.code, b.code);
    lemma_drawn_add(i.code + a + c.code + b.code, m);
    lemma_drawn_add(i.code + a + c.code + b.code + m, p.code);
    lemma_drawn_add(i.code + a + c.code + b.code + m + p.code, z);
    let di = drawn_labels(i.code);
    let dc = drawn_labels(c.code);
    let db = drawn_labels(b.code);
    let dp = drawn_labels(p.code);
    assert(drawn_labels(for_code(start, i, c, b, p).code) =~= ((di + dc) + db) + dp);
    let l1 = l + i.labels;
    let l2 = l1 + c.labels;
    let l3 = l2 + b.labels;
    lemma_join(di, dc, l, l1, l2, true);
    lemma_join(di + dc, db, l, l2, l3, true);
    lemma_join((di + dc) + db, dp, l, l3, l3 + p.labels, true);
}

proof fn lemma_stmt_labels(s: SpecStatement, v: int, l: int)
    requires
        stmt_ir(s, v, l) is Some,
        marked_stmt(s),
        0 <= l,
        l + stmt_ir(s, v, l).unwrap().labels <= u32::MAX + 1,
    ensures
        within(drawn_labels(stmt_ir(s, v, l).unwrap().code), l, l + stmt_ir(s, v, l).unwrap().labels),
    decreases s, 0int,
{
    match s {
        SpecStatement::Return(e) => {
            lemma_expr_labels(e, v, l);
            let r = exp_ir(e, v, l).unwrap();
            lemma_push_plain(r.code, SpecIRInstruction::Return(r.val));
        },
        SpecStatement::Expression(e) => lemma_expr_labels(e, v, l),
        SpecStatement::If { cond, then, else_ } => {
            lemma_expr_labels(cond, v, l);
            let c = exp_ir(cond, v, l).unwrap();
            lemma_stmt_labels(*then, v + c.temps, l + c.labels);
            let t = stmt_ir(*then, v + c.temps, l + c.labels).unwrap();
            match else_ {
                Some(es) => {
                    lemma_stmt_labels(*es, v + c.temps + t.temps, l + c.labels + t.labels + 1);
                    let e = stmt_ir(*es, v + c.temps + t.temps, l + c.labels + t.labels + 1).unwrap();
                    lemma_if_else_labels(c, t, e, l);
                },
                None => lemma_if_labels(c, t, l),
            }
        },
        SpecStatement::Compound(items) => lemma_items_labels(items, v, l),
        SpecStatement::Break(label) => lemma_drawn_one(SpecIRInstruction::Jump(label.unwrap())),
        SpecStatement::Continue(label) => lemma_drawn_one(SpecIRInstruction::Jump(label.unwrap())),
        SpecStatement::While { cond, body, label } => {
            lemma_expr_labels(cond, v, l);
            let c = exp_ir(cond, v, l).unwrap();
            lemma_stmt_labels(*body, v + c.temps, l + c.labels);
            let b = stmt_ir(*body, v + c.temps, l + c.labels).unwrap();
            lemma_while_labels(label.unwrap(), c, b, l);
        },
        SpecStatement::DoWhile { body, cond, label } => {
            lemma_expr_labels(cond, v, l);
            let c = exp_ir(cond, v, l).unwrap();
            lemma_stmt_labels(*body, v + c.temps, l + c.labels);
            let b = stmt_ir(*body, v + c.temps, l + c.labels).unwrap();
            lemma_do_while_labels(label.unwrap(), c, b, l);
        },
        SpecStatement::For { init, cond, post, body, label } => {
            let start = label.unwrap();
            lemma_for_init_labels(init, v, l);
            let i = for_init_ir(init, v, l).unwrap();
            lemma_for_cond_labels(cond, start, v + i.temps, l + i.labels);
            let c = for_cond_ir(cond, start, v + i.temps, l + i.labels).unwrap();
            lemma_stmt_labels(*body, v + i.temps + c.temps, l + i.labels + c.labels);
            let b = stmt_ir(*body, v + i.temps + c.temps, l + i.labels + c.labels).unwrap();
            lemma_effect_labels(post, v + i.temps + c.temps + b.temps, l + i.labels + c.labels + b.labels);
            let q = effect_ir(post, v + i.temps + c.temps + b.temps, l + i.labels + c.labels + b.labels).unwrap();
            lemma_for_labels(start, i, c, b, q, l);
        },
        SpecStatement::Null => lemma_nothing_drawn(),
    }
}

/// Translating one statement draws its labels fresh: the `true`, `false`,
/// `end` and `else` labels that its code defines are all different and lie
/// in `[l, l + n)`, `n` being the number of labels it drew, so that a later
/// translation, which draws from `l + n` on, never defines them again. It
/// holds of a statement whose loops carry loop labels.
pub proof fn lemma_statement_labels_fresh(s: SpecStatement, v: int, l: int)
    requires
        stmt_ir(s, v, l) is Some,
        marked_stmt(s),
        0 <= l,
        l + stmt_ir(s, v, l).unwrap().labels <= u32::MAX + 1,
    ensures
        ({
            let ids = drawn_labels(stmt_ir(s, v, l).unwrap().code);
            &&& no_repeats(ids)
            &&& forall|k: int| 0 <= k < ids.len() ==> l <= #[trigger] ids[k] < l + stmt_ir(s, v, l).unwrap().labels
        }),
{
    lemma_stmt_labels(s, v, l);
}

proof fn lemma_item_labels(it: SpecBlockItem, v: int, l: int)
    requires
        item_ir(it, v, l) is Some,
        marked_item(it),
        0 <= l,
        l + item_ir(it, v, l).unwrap().labels <= u32::MAX + 1,
    ensures
        within(drawn_labels(item_ir(it, v, l).unwrap().code), l, l + item_ir(it, v, l).unwrap().labels),
    decreases it, 0int,
{
    match it {
        SpecBlockItem::Statement(s) => lemma_stmt_labels(s, v, l),
        SpecBlockItem::Declaration(SpecDeclaration::VarDecl(d)) => lemma_var_decl_labels(d, v, l),
        SpecBlockItem::Declaration(SpecDeclaration::FnDecl(f)) => match f.body {
            Some(b) => {
                lemma_items_labels(b, v, l);
                let c = items_ir(b, v, l).unwrap();
                lemma_push_plain(c.code, SpecIRInstruction::Return(IRVal::Constant(0)));
            },
            None => lemma_nothing_drawn(),
        },
    }
}

proof fn lemma_items_labels(items: Seq<SpecBlockItem>, v: int, l: int)
    requires
        items_ir(items, v, l) is Some,
        marked_items(items),
        0 <= l,
        l + items_ir(items, v, l).unwrap().labels <= u32::MAX + 1,
    ensures
        within(drawn_labels(items_ir(items, v, l).unwrap().code), l, l + items_ir(items, v, l).unwrap().labels),
    decreases items, 0int,
{
    if items.len() == 0 {
        lemma_nothing_drawn();
    } else {
        lemma_item_labels(items[0], v, l);
        let a = item_ir(items[0], v, l).unwrap();
        lemma_items_labels(items.drop_first(), v + a.temps, l + a.labels);
        let b = items_ir(items.drop_first(), v + a.temps, l + a.labels).unwrap();
        lemma_drawn_add(a.code, b.code);
        lemma_join(drawn_labels(a.code), drawn_labels(b.code), l, l + a.labels, l + a.labels + b.labels, true);
    }
}

/// Label uniqueness: in the three-address code of a program, taken as one
/// sequence of instructions, no `true`, `false`, `end` or `else` label is
/// defined twice, and each was drawn from the window `[l, l + lb)` of the
/// label counter, `lb` being the number of labels that translation drew.
/// It holds of any program whose loops carry loop labels, as loop
/// labelling gives them.
pub proof fn lemma_program_labels_distinct(fs: Seq<SpecFnDecl>, v: int, l: int)
    requires
        program_ir(fs, v, l) is Some,
        forall|i: int| 0 <= i < fs.len() ==> marked_fn(#[trigger] fs[i]),
        0 <= l,
        l + program_ir(fs, v, l).unwrap().2 <= u32::MAX + 1,
    ensures
        ({
            let (fns, _t, lb) = program_ir(fs, v, l).unwrap();
            let ids = drawn_labels(program_code(fns));
            &&& forall|i: int, j: int| 0 <= i < j < ids.len() ==> #[trigger] ids[i] != #[trigger] ids[j]
            &&& forall|k: int| 0 <= k < ids.len() ==> l <= #[trigger] ids[k] < l + lb
        }),
{
    lemma_program_labels(fs, v, l);
}

proof fn lemma_program_labels(fs: Seq<SpecFnDecl>, v: int, l: int)
    requires
        program_ir(fs, v, l) is Some,
        forall|i: int| 0 <= i < fs.len() ==> marked_fn(#[trigger] fs[i]),
        0 <= l,
        l + program_ir(fs, v, l).unwrap().2 <= u32::MAX + 1,
    ensures
        within(drawn_labels(program_code(program_ir(fs, v, l).unwrap().0)), l, l + program_ir(fs, v, l).unwrap().2),
    decreases fs.len(),
{
    if fs.len() == 0 {
        lemma_nothing_drawn();
    } else {
        assert(marked_fn(fs[0]));
        assert forall|i: int| 0 <= i < fs.drop_first().len() implies marked_fn(#[trigger] fs.drop_first()[i]) by {
            assert(fs.drop_first()[i] == fs[i + 1]);
        }
        if fs[0].body is None {
            lemma_program_labels(fs.drop_first(), v, l);
        } else {
            let b = fs[0].body.unwrap();
            let (f, c) = function_ir(fs[0], v, l).unwrap();
            lemma_items_labels(b, v, l);
            let ic = items_ir(b, v, l).unwrap();
            lemma_push_plain(ic.code, SpecIRInstruction::Return(IRVal::Constant(0)));
            assert(c == body_ir(b, v, l).unwrap());
            lemma_program_labels(fs.drop_first(), v + c.temps, l + c.labels);
            let (rest, t, lb) = program_ir(fs.drop_first(), v + c.temps, l + c.labels).unwrap();
            let all = seq![f] + rest;
            assert(all[0] == f);
            assert(all.drop_first() =~= rest);
            assert(program_code(all) == f.instructions + program_code(rest));
            lemma_drawn_add(f.instructions, program_code(rest));
            lemma_join(
                drawn_labels(f.instructions),
                drawn_labels(program_code(rest)),
                l,
                l + c.labels,
                l + c.labels + lb,
                true,
            );
        }
    }
}

/// A kind of label that names a loop: its start, its `break` and its `continue` target.
pub open spec fn loop_kind(k: LabelKind) -> bool {
    k == LabelKind::LoopStart || k == LabelKind::Break || k == LabelKind::Continue
}

/// The number of the label that `x` defines, if `x` defines one of kind `k`.
pub open spec fn kind_of(x: SpecIRInstruction, k: LabelKind) -> Seq<int> {
    match x {
        SpecIRInstruction::Label(lb) => if lb.kind == k { seq![lb.id as int] } else { Seq::<int>::empty() },
        _ => Seq::<int>::empty(),
    }
}

/// The numbers of the labels of kind `k` that `code` defines, in order.
pub open spec fn kind_ids(code: Seq<SpecIRInstruction>, k: LabelKind) -> Seq<int>
    decreases code.len(),
{
    if code.len() == 0 {
        seq![]
    } else {
        kind_of(code[0], k) + kind_ids(code.drop_first(), k)
    }
}

proof fn lemma_kind_add(a: Seq<SpecIRInstruction>, b: Seq<SpecIRInstruction>, k: LabelKind)
    ensures
        kind_ids(a + b, k) == kind_ids(a, k) + kind_ids(b, k),
    decreases a.len(),
{
    if a.len() == 0 {
        assert(a + b =~= b);
        assert(kind_ids(a, k) + kind_ids(b, k) =~= kind_ids(b, k));
    } else {
        assert((a + b).drop_first() =~= a.drop_first() + b);
        assert((a + b)[0] == a[0]);
        lemma_kind_add(a.drop_first(), b, k);
        assert(kind_of(a[0], k) + (kind_ids(a.drop_first(), k) + kind_ids(b, k))
            =~= (kind_of(a[0], k) + kind_ids(a.drop_first(), k)) + kind_ids(b, k));
    }
}

proof fn lemma_kind_one(x: SpecIRInstruction, k: LabelKind)
    ensures
        kind_ids(seq![x], k) == kind_of(x, k),
{
    assert(seq![x].drop_first() =~= Seq::<SpecIRInstruction>::empty());
    assert(seq![x][0] == x);
    assert(kind_ids(Seq::<SpecIRInstruction>::empty(), k) == Seq::<int>::empty());
    assert(kind_of(x, k) + Seq::<int>::empty() =~= kind_of(x, k));
}

proof fn lemma_kind_push(a: Seq<SpecIRInstruction>, x: SpecIRInstruction, k: LabelKind)
    ensures
        kind_ids(a.push(x), k) == kind_ids(a, k) + kind_of(x, k),
{
    assert(a.push(x) =~= a + seq![x]);
    lemma_kind_add(a, seq![x], k);
    lemma_kind_one(x, k);
}

proof fn lemma_kind_lit2(x: SpecIRInstruction, y: SpecIRInstruction, k: LabelKind)
    ensures
        kind_ids(seq![x, y], k) == kind_of(x, k) + kind_of(y, k),
{
    lemma_kind_one(x, k);
    assert(seq![x, y] =~= seq![x].push(y));
    lemma_kind_push(seq![x], y, k);
}

proof fn lemma_kind_lit3(x: SpecIRInstruction, y: SpecIRInstruction, z: SpecIRInstruction, k: LabelKind)
    ensures
        kind_ids(seq![x, y, z], k) == kind_of(x, k) + kind_of(y, k) + kind_of(z, k),
{
    lemma_kind_lit2(x, y, k);
    assert(seq![x, y, z] =~= seq![x, y].push(z));
    lemma_kind_push(seq![x, y], z, k);
}

proof fn lemma_kind_lit6(
    x1: SpecIRInstruction,
    x2: SpecIRInstruction,
    x3: SpecIRInstruction,
    x4: SpecIRInstruction,
    x5: SpecIRInstruction,
    x6: SpecIRInstruction,
    k: LabelKind,
)
    ensures
        kind_ids(seq![x1, x2, x3, x4, x5, x6], k) == kind_of(x1, k) + kind_of(x2, k) + kind_of(x3, k) + kind_of(x4, k)
            + kind_of(x5, k) + kind_of(x6, k),
{
    lemma_kind_lit3(x1, x2, x3, k);
    assert(seq![x1, x2, x3, x4] =~= seq![x1, x2, x3].push(x4));
    lemma_kind_push(seq![x1, x2, x3], x4, k);
    assert(seq![x1, x2, x3, x4, x5] =~= seq![x1, x2, x3, x4].push(x5));
    lemma_kind_push(seq![x1, x2, x3, x4], x5, k);
    assert(seq![x1, x2, x3, x4, x5, x6] =~= seq![x1, x2, x3, x4, x5].push(x6));
    lemma_kind_push(seq![x1, x2, x3, x4, x5], x6, k);
}

proof fn lemma_kind_push_none(a: Seq<SpecIRInstruction>, x: SpecIRInstruction, k: LabelKind)
    requires
        kind_of(x, k) == Seq::<int>::empty(),
    ensures
        kind_ids(a.push(x), k) == kind_ids(a, k),
{
    lemma_kind_push(a, x, k);
    assert(kind_ids(a, k) + Seq::<int>::empty() =~= kind_ids(a, k));
}

proof fn lemma_kind_none_add(a: Seq<SpecIRInstruction>, b: Seq<SpecIRInstruction>, k: LabelKind)
    requires
        kind_ids(a, k) == Seq::<int>::empty(),
        kind_ids(b, k) == Seq::<int>::empty(),
    ensures
        kind_ids(a + b, k) == Seq::<int>::empty(),
{
    lemma_kind_add(a, b, k);
    assert(Seq::<int>::empty() + Seq::<int>::empty() =~= Seq::<int>::empty());
}

/// The code of an expression defines no loop labels.
pub(crate) proof fn lemma_expr_no_loop_labels(e: SpecExpression, v: int, l: int, k: LabelKind)
    requires
        exp_ir(e, v, l) is Some,
        loop_kind(k),
    ensures
        kind_ids(exp_ir(e, v, l).unwrap().code, k) == Seq::<int>::empty(),
    decreases e, 1int,
{
    match e {
        SpecExpression::Factor(f) => lemma_factor_no_loop_labels(*f, v, l, k),
        SpecExpression::Binary(op, a, b) => {
            lemma_expr_no_loop_labels(*a, v, l, k);
            let r1 = exp_ir(*a, v, l).unwrap();
            lemma_expr_no_loop_labels(*b, v + r1.temps, l + r1.labels, k);
            let r2 = exp_ir(*b, v + r1.temps, l + r1.labels).unwrap();
            lemma_binop_no_loop_labels(op, r1, r2, v, l, k);
        },
        SpecExpression::Assign(a, b) => {
            lemma_expr_no_loop_labels(*b, v, l, k);
            let r = exp_ir(*b, v, l).unwrap();
            let id = crate::ir::assign_target(*a).unwrap();
            lemma_kind_push_none(r.code, SpecIRInstruction::Copy(r.val, IRVal::Var(id)), k);
        },
        SpecExpression::Conditional { cond, then, else_ } => {
            lemma_expr_no_loop_labels(*cond, v + 1, l, k);
            let c = exp_ir(*cond, v + 1, l).unwrap();
            lemma_expr_no_loop_labels(*then, v + 1 + c.temps, l + c.labels, k);
            let t = exp_ir(*then, v + 1 + c.temps, l + c.labels).unwrap();
            lemma_expr_no_loop_labels(*else_, v + 1 + c.temps + t.temps, l + c.labels + t.labels, k);
            let f = exp_ir(*else_, v + 1 + c.temps + t.temps, l + c.labels + t.labels).unwrap();
            let lb = l + c.labels + t.labels + f.labels;
            let else_label = label_at(LabelKind::Else, lb);
            let end_label = label_at(LabelKind::End, lb + 1);
            let res = crate::ir::temp(v);
            let j = seq![SpecIRInstruction::JumpIfZero(c.val, else_label)];
            let m = seq![SpecIRInstruction::Copy(t.val, res), SpecIRInstruction::Jump(end_label), SpecIRInstruction::Label(else_label)];
            let z = seq![SpecIRInstruction::Copy(f.val, res), SpecIRInstruction::Label(end_label)];
            lemma_kind_one(j[0], k);
            lemma_kind_lit3(m[0], m[1], m[2], k);
            lemma_kind_lit2(z[0], z[1], k);
            assert(kind_ids(m, k) =~= Seq::<int>::empty());
            assert(kind_ids(z, k) =~= Seq::<int>::empty());
            lemma_kind_none_add(c.code, j, k);
            lemma_kind_none_add(c.code + j, t.code, k);
            lemma_kind_none_add(c.code + j + t.code, m, k);
            lemma_kind_none_add(c.code + j + t.code + m, f.code, k);
            lemma_kind_none_add(c.code + j + t.code + m + f.code, z, k);
        },
    }
}

proof fn lemma_binop_no_loop_labels(op: BinaryOp, r1: ExpCode, r2: ExpCode, v: int, l: int, k: LabelKind)
    requires
        loop_kind(k),
        kind_ids(r1.code, k) == Seq::<int>::empty(),
        kind_ids(r2.code, k) == Seq::<int>::empty(),
    ensures
        kind_ids(binop_code(op, r1, r2, v, l).code, k) == Seq::<int>::empty(),
{
    let lb = l + r1.labels + r2.labels;
    let dst = crate::ir::temp(v + r1.temps + r2.temps);
    lemma_kind_none_add(r1.code, r2.code, k);
    if op == BinaryOp::LogicalAnd || op == BinaryOp::LogicalOr {
        let first = if op == BinaryOp::LogicalAnd { label_at(LabelKind::False, lb) } else { label_at(LabelKind::True, lb) };
        let end = label_at(LabelKind::End, lb + 1);
        let j = if op == BinaryOp::LogicalAnd {
            SpecIRInstruction::JumpIfZero(r1.val, first)
        } else {
            SpecIRInstruction::JumpIfNotZero(r1.val, first)
        };
        let tail = if op == BinaryOp::LogicalAnd {
            seq![
                SpecIRInstruction::JumpIfZero(r2.val, first),
                SpecIRInstruction::Copy(IRVal::Constant(1), dst),
                SpecIRInstruction::Jump(end),
                SpecIRInstruction::Label(first),
                SpecIRInstruction::Copy(IRVal::Constant(0), dst),
                SpecIRInstruction::Label(end),
            ]
        } else {
            seq![
                SpecIRInstruction::JumpIfNotZero(r2.val, first),
                SpecIRInstruction::Copy(IRVal::Constant(0), dst),
                SpecIRInstruction::Jump(end),
                SpecIRInstruction::Label(first),
                SpecIRInstruction::Copy(IRVal::Constant(1), dst),
                SpecIRInstruction::Label(end),
            ]
        };
        assert(binop_code(op, r1, r2, v, l).code == r1.code + seq![j] + r2.code + tail);
        lemma_kind_one(j, k);
        lemma_kind_lit6(tail[0], tail[1], tail[2], tail[3], tail[4], tail[5], k);
        assert(tail == seq![tail[0], tail[1], tail[2], tail[3], tail[4], tail[5]]);
        assert(kind_ids(tail, k) =~= Seq::<int>::empty());
        lemma_kind_none_add(r1.code, seq![j], k);
        lemma_kind_none_add(r1.code + seq![j], r2.code, k);
        lemma_kind_none_add(r1.code + seq![j] + r2.code, tail, k);
    } else {
        let x = SpecIRInstruction::Binary(op, r1.val, r2.val, dst);
        lemma_kind_push_none(r1.code + r2.code, x, k);
        assert((r1.code + r2.code).push(x) =~= r1.code + r2.code + seq![x]);
    }
}

proof fn lemma_factor_no_loop_labels(f: SpecFactor, v: int, l: int, k: LabelKind)
    requires
        factor_ir(f, v, l) is Some,
        loop_kind(k),
    ensures
        kind_ids(factor_ir(f, v, l).unwrap().code, k) == Seq::<int>::empty(),
    decreases f, 1int,
{
    match f {
        SpecFactor::Unary(op, g) => {
            lemma_factor_no_loop_labels(*g, v, l, k);
            let r = factor_ir(*g, v, l).unwrap();
            lemma_kind_push_none(r.code, SpecIRInstruction::Unary(op, r.val, crate::ir::temp(v + r.temps)), k);
        },
        SpecFactor::Expression(e) => lemma_expr_no_loop_labels(e, v, l, k),
        SpecFactor::FunctionCall(name, args) => {
            lemma_args_no_loop_labels(args, v + 1, l, k);
            let (vals, a) = args_ir(args, v + 1, l).unwrap();
            lemma_kind_push_none(a.code, SpecIRInstruction::FnCall(name, vals, crate::ir::temp(v)), k);
        },
        _ => {
            assert(kind_ids(Seq::<SpecIRInstruction>::empty(), k) == Seq::<int>::empty());
        },
    }
}

proof fn lemma_args_no_loop_labels(args: Seq<SpecExpression>, v: int, l: int, k: LabelKind)
    requires
        args_ir(args, v, l) is Some,
        loop_kind(k),
    ensures
        kind_ids(args_ir(args, v, l).unwrap().1.code, k) == Seq::<int>::empty(),
    decreases args, 1int,
{
    if args.len() > 0 {
        lemma_expr_no_loop_labels(args[0], v, l, k);
        let r = exp_ir(args[0], v, l).unwrap();
        lemma_args_no_loop_labels(args.drop_first(), v + r.temps, l + r.labels, k);
        let rest = args_ir(args.drop_first(), v + r.temps, l + r.labels).unwrap().1;
        lemma_kind_none_add(r.code, rest.code, k);
    } else {
        assert(kind_ids(Seq::<SpecIRInstruction>::empty(), k) == Seq::<int>::empty());
    }
}

/// How many loops `s` holds.
pub open spec fn loops_in_stmt(s: SpecStatement) -> nat
    decreases s,
{
    match s {
        SpecStatement::While { cond: _, body, label: _ } => 1 + loops_in_stmt(*body),
        SpecStatement::DoWhile { body, cond: _, label: _ } => 1 + loops_in_stmt(*body),
        SpecStatement::For { init: _, cond: _, post: _, body, label: _ } => 1 + loops_in_stmt(*body),
        SpecStatement::If { cond: _, then, else_ } => loops_in_stmt(*then) + match else_ {
            Some(es) => loops_in_stmt(*es),
            None => 0,
        },
        SpecStatement::Compound(items) => loops_in_items(items),
        _ => 0,
    }
}

/// How many loops the statements among the items hold.
pub open spec fn loops_in_items(items: Seq<SpecBlockItem>) -> nat
    decreases items,
{
    if items.len() == 0 {
        0
    } else {
        loops_in_item(items[0]) + loops_in_items(items.drop_first())
    }
}

pub open spec fn loops_in_item(it: SpecBlockItem) -> nat
    decreases it,
{
    match it {
        SpecBlockItem::Statement(s) => loops_in_stmt(s),
        _ => 0,
    }
}

/// How many loops the body of `f` holds.
pub open spec fn loops_in_fn(f: SpecFnDecl) -> nat {
    match f.body {
        Some(b) => loops_in_items(b),
        None => 0,
    }
}

/// How many loops the functions hold.
pub open spec fn loops_in_fns(fs: Seq<SpecFnDecl>) -> nat
    decreases fs.len(),
{
    if fs.len() == 0 {
        0
    } else {
        loops_in_fn(fs[0]) + loops_in_fns(fs.drop_first())
    }
}

/// The loops of `s`, in the order they begin, carry the loop labels
/// numbered `lo`, `lo + 1`, and so on.
pub open spec fn numbered_stmt(s: SpecStatement, lo: int) -> bool
    decreases s,
{
    match s {
        SpecStatement::While { cond: _, body, label } => label == Some(loop_label(lo)) && numbered_stmt(*body, lo + 1),
        SpecStatement::DoWhile { body, cond: _, label } => label == Some(loop_label(lo)) && numbered_stmt(*body, lo + 1),
        SpecStatement::For { init: _, cond: _, post: _, body, label } => label == Some(loop_label(lo))
            && numbered_stmt(*body, lo + 1),
        SpecStatement::If { cond: _, then, else_ } => numbered_stmt(*then, lo) && match else_ {
            Some(es) => numbered_stmt(*es, lo + loops_in_stmt(*then)),
            None => true,
        },
        SpecStatement::Compound(items) => numbered_items(items, lo),
        _ => true,
    }
}

/// The loops among the items are numbered from `lo` on; a function declared
/// inside a block has no body.
pub open spec fn numbered_items(items: Seq<SpecBlockItem>, lo: int) -> bool
    decreases items,
{
    items.len() == 0 || (numbered_item(items[0], lo) && numbered_items(items.drop_first(), lo + loops_in_item(items[0])))
}

pub open spec fn numbered_item(it: SpecBlockItem, lo: int) -> bool
    decreases it,
{
    match it {
        SpecBlockItem::Statement(s) => numbered_stmt(s, lo),
        SpecBlockItem::Declaration(SpecDeclaration::FnDecl(f)) => f.body is None,
        SpecBlockItem::Declaration(SpecDeclaration::VarDecl(_)) => true,
    }
}

/// The loops of the functions are numbered from `lo` on, function after function.
pub open spec fn numbered_fns(fs: Seq<SpecFnDecl>, lo: int) -> bool
    decreases fs.len(),
{
    fs.len() == 0 || ((match fs[0].body {
        Some(b) => numbered_items(b, lo),
        None => true,
    }) && numbered_fns(fs.drop_first(), lo + loops_in_fn(fs[0])))
}

/// A loop label sits either before or after the labels of the loop's body.
proof fn lemma_wrap(pre: Seq<int>, mid: Seq<int>, post: Seq<int>, lo: int, hi: int)
    requires
        lo < hi,
        within(mid, lo + 1, hi),
        (pre == Seq::<int>::empty() && post == seq![lo]) || (pre == seq![lo] && post == Seq::<int>::empty())
            || (pre == Seq::<int>::empty() && post == Seq::<int>::empty()),
    ensures
        within(pre + mid + post, lo, hi),
{
    lemma_within_one(lo);
    if post == seq![lo] {
        assert(pre + mid + post =~= mid + seq![lo]);
        lemma_join(mid, seq![lo], lo, lo + 1, hi, false);
    } else if pre == seq![lo] {
        assert(pre + mid + post =~= seq![lo] + mid);
        lemma_join(seq![lo], mid, lo, lo + 1, hi, true);
    } else {
        assert(pre + mid + post =~= mid);
        lemma_widen(mid, lo + 1, hi, lo, hi);
    }
}

pub(crate) proof fn lemma_effect_no_loop_labels(e: Option<SpecExpression>, v: int, l: int, k: LabelKind)
    requires
        effect_ir(e, v, l) is Some,
        loop_kind(k),
    ensures
        kind_ids(effect_ir(e, v, l).unwrap().code, k) == Seq::<int>::empty(),
{
    match e {
        Some(x) => lemma_expr_no_loop_labels(x, v, l, k),
        None => assert(kind_ids(Seq::<SpecIRInstruction>::empty(), k) == Seq::<int>::empty()),
    }
}

proof fn lemma_var_decl_no_loop_labels(d: SpecVarDecl, v: int, l: int, k: LabelKind)
    requires
        var_decl_ir(d, v, l) is Some,
        loop_kind(k),
    ensures
        kind_ids(var_decl_ir(d, v, l).unwrap().code, k) == Seq::<int>::empty(),
{
    match d.init {
        Some(e) => {
            lemma_expr_no_loop_labels(e, v, l, k);
            let r = exp_ir(e, v, l).unwrap();
            lemma_kind_push_none(r.code, SpecIRInstruction::Copy(r.val, IRVal::Var(d.var.id.unwrap())), k);
        },
        None => assert(kind_ids(Seq::<SpecIRInstruction>::empty(), k) == Seq::<int>::empty()),
    }
}

pub(crate) proof fn lemma_for_init_no_loop_labels(init: SpecForInit, v: int, l: int, k: LabelKind)
    requires
        for_init_ir(init, v, l) is Some,
        loop_kind(k),
    ensures
        kind_ids(for_init_ir(init, v, l).unwrap().code, k) == Seq::<int>::empty(),
{
    match init {
        SpecForInit::InitDecl(d) => lemma_var_decl_no_loop_labels(d, v, l, k),
        SpecForInit::InitExp(e) => lemma_effect_no_loop_labels(e, v, l, k),
    }
}

proof fn lemma_for_cond_no_loop_labels(cond: Option<SpecExpression>, start: Label, v: int, l: int, k: LabelKind)
    requires
        for_cond_ir(cond, start, v, l) is Some,
        loop_kind(k),
    ensures
        kind_ids(for_cond_ir(cond, start, v, l).unwrap().code, k) == Seq::<int>::empty(),
{
    match cond {
        Some(c) => {
            lemma_expr_no_loop_labels(c, v, l, k);
            let r = exp_ir(c, v, l).unwrap();
            lemma_kind_push_none(r.code, SpecIRInstruction::JumpIfZero(r.val, break_of(start)), k);
        },
        None => assert(kind_ids(Seq::<SpecIRInstruction>::empty(), k) == Seq::<int>::empty()),
    }
}

proof fn lemma_while_loop_labels(c: ExpCode, b: Code, lo: int, n: int, k: LabelKind)
    requires
        0 <= lo <= u32::MAX,
        0 <= n,
        loop_kind(k),
        kind_ids(c.code, k) == Seq::<int>::empty(),
        within(kind_ids(b.code, k), lo + 1, lo + 1 + n),
    ensures
        within(kind_ids(while_code(loop_label(lo), c, b).code, k), lo, lo + 1 + n),
{
    let start = loop_label(lo);
    let a = seq![SpecIRInstruction::Label(continue_of(start))];
    let j = seq![SpecIRInstruction::JumpIfZero(c.val, break_of(start))];
    let z = seq![SpecIRInstruction::Jump(continue_of(start)), SpecIRInstruction::Label(break_of(start))];
    lemma_kind_one(a[0], k);
    lemma_kind_one(j[0], k);
    lemma_kind_lit2(z[0], z[1], k);
    lemma_kind_add(a, c.code, k);
    lemma_kind_add(a + c.code, j, k);
    lemma_kind_add(a + c.code + j, b.code, k);
    lemma_kind_add(a + c.code + j + b.code, z, k);
    let pre = kind_of(a[0], k);
    let post = kind_of(z[0], k) + kind_of(z[1], k);
    let kb = kind_ids(b.code, k);
    assert(kind_ids(while_code(start, c, b).code, k) =~= pre + kb + post);
    if k == LabelKind::Continue {
        assert(pre =~= seq![lo]);
        assert(post =~= Seq::<int>::empty());
    } else if k == LabelKind::Break {
        assert(pre =~= Seq::<int>::empty());
        assert(post =~= seq![lo]);
    } else {
        assert(pre =~= Seq::<int>::empty());
        assert(post =~= Seq::<int>::empty());
    }
    lemma_wrap(pre, kb, post, lo, lo + 1 + n);
}

proof fn lemma_do_while_loop_labels(c: ExpCode, b: Code, lo: int, n: int, k: LabelKind)
    requires
        0 <= lo <= u32::MAX,
        0 <= n,
        loop_kind(k),
        kind_ids(c.code, k) == Seq::<int>::empty(),
        within(kind_ids(b.code, k), lo + 1, lo + 1 + n),
    ensures
        within(kind_ids(do_while_code(loop_label(lo), c, b).code, k), lo, lo + 1 + n),
{
    let start = loop_label(lo);
    let a = seq![SpecIRInstruction::Label(start)];
    let m = seq![SpecIRInstruction::Label(continue_of(start))];
    let z = seq![SpecIRInstruction::JumpIfNotZero(c.val, start), SpecIRInstruction::Label(break_of(start))];
    lemma_kind_one(a[0], k);
    lemma_kind_one(m[0], k);
    lemma_kind_lit2(z[0], z[1], k);
    lemma_kind_add(a, b.code, k);
    lemma_kind_add(a + b.code, m, k);
    lemma_kind_add(a + b.code + m, c.code, k);
    lemma_kind_add(a + b.code + m + c.code, z, k);
    let pre = kind_of(a[0], k);
    let post = kind_of(m[0], k) + (kind_of(z[0], k) + kind_of(z[1], k));
    let kb = kind_ids(b.code, k);
    assert(kind_ids(do_while_code(start, c, b).code, k) =~= pre + kb + post);
    if k == LabelKind::LoopStart {
        assert(pre =~= seq![lo]);
        assert(post =~= Seq::<int>::empty());
    } else {
        assert(pre =~= Seq::<int>::empty());
        assert(post =~= seq![lo]);
    }
    lemma_wrap(pre, kb, post, lo, lo + 1 + n);
}

proof fn lemma_for_loop_labels(i: Code, c: Code, b: Code, p: Code, lo: int, n: int, k: LabelKind)
    requires
        0 <= lo <= u32::MAX,
        0 <= n,
        loop_kind(k),
        kind_ids(i.code, k) == Seq::<int>::empty(),
        kind_ids(c.code, k) == Seq::<int>::empty(),
        kind_ids(p.code, k) == Seq::<int>::empty(),
        within(kind_ids(b.code, k), lo + 1, lo + 1 + n),
    ensures
        within(kind_ids(for_code(loop_label(lo), i, c, b, p).code, k), lo, lo + 1 + n),
{
    let start = loop_label(lo);
    let a = seq![SpecIRInstruction::Label(start)];
    let m = seq![SpecIRInstruction::Label(continue_of(start))];
    let z = seq![SpecIRInstruction::Jump(start), SpecIRInstruction::Label(break_of(start))];
    lemma_kind_one(a[0], k);
    lemma_kind_one(m[0], k);
    lemma_kind_lit2(z[0], z[1], k);
    lemma_kind_add(i.code, a, k);
    lemma_kind_add(i.code + a, c.code, k);
    lemma_kind_add(i.code + a + c.code, b.code, k);
    lemma_kind_add(i.code + a + c.code + b.code, m, k);
    lemma_kind_add(i.code + a + c.code + b.code + m, p.code, k);
    lemma_kind_add(i.code + a + c.code + b.code + m + p.code, z, k);
    let pre = kind_of(a[0], k);
    let post = kind_of(m[0], k) + (kind_of(z[0], k) + kind_of(z[1], k));
    let kb = kind_ids(b.code, k);
    assert(kind_ids(for_code(start, i, c, b, p).code, k) =~= pre + kb + post);
    if k == LabelKind::LoopStart {
        assert(pre =~= seq![lo]);
        assert(post =~= Seq::<int>::empty());
    } else {
        assert(pre =~= Seq::<int>::empty());
        assert(post =~= seq![lo]);
    }
    lemma_wrap(pre, kb, post, lo, lo + 1 + n);
}

proof fn lemma_if_loop_labels(c: ExpCode, t: Code, l: int, k: LabelKind)
    requires
        loop_kind(k),
        kind_ids(c.code, k) == Seq::<int>::empty(),
    ensures
        kind_ids(if_code(c, t, l).code, k) == kind_ids(t.code, k),
{
    let lb = l + c.labels + t.labels;
    let j = seq![SpecIRInstruction::JumpIfZero(c.val, label_at(LabelKind::End, lb))];
    let z = seq![SpecIRInstruction::Label(label_at(LabelKind::End, lb))];
    lemma_kind_one(j[0], k);
    lemma_kind_one(z[0], k);
    lemma_kind_add(c.code, j, k);
    lemma_kind_add(c.code + j, t.code, k);
    lemma_kind_add(c.code + j + t.code, z, k);
    assert(kind_ids(if_code(c, t, l).code, k) =~= kind_ids(t.code, k));
}

proof fn lemma_if_else_loop_labels(c: ExpCode, t: Code, e: Code, l: int, k: LabelKind)
    requires
        loop_kind(k),
        kind_ids(c.code, k) == Seq::<int>::empty(),
    ensures
        kind_ids(if_else_code(c, t, e, l).code, k) == kind_ids(t.code, k) + kind_ids(e.code, k),
{
    let lb = l + c.labels + t.labels;
    let j = seq![SpecIRInstruction::JumpIfZero(c.val, label_at(LabelKind::Else, lb + 1 + e.labels))];
    let m = seq![
        SpecIRInstruction::Jump(label_at(LabelKind::End, lb)),
        SpecIRInstruction::Label(label_at(LabelKind::Else, lb + 1 + e.labels)),
    ];
    let z = seq![SpecIRInstruction::Label(label_at(LabelKind::End, lb))];
    lemma_kind_one(j[0], k);
    lemma_kind_lit2(m[0], m[1], k);
    lemma_kind_one(z[0], k);
    lemma_kind_add(c.code, j, k);
    lemma_kind_add(c.code + j, t.code, k);
    lemma_kind_add(c.code + j + t.code, m, k);
    lemma_kind_add(c.code + j + t.code + m, e.code, k);
    lemma_kind_add(c.code + j + t.code + m + e.code, z, k);
    assert(kind_ids(if_else_code(c, t, e, l).code, k) =~= kind_ids(t.code, k) + kind_ids(e.code, k));
}

pub(crate) proof fn lemma_stmt_loop_labels(s: SpecStatement, v: int, l: int, lo: int, k: LabelKind)
    requires
        stmt_ir(s, v, l) is Some,
        numbered_stmt(s, lo),
        loop_kind(k),
        0 <= lo,
        lo + loops_in_stmt(s) <= u32::MAX + 1,
    ensures
        within(kind_ids(stmt_ir(s, v, l).unwrap().code, k), lo, lo + loops_in_stmt(s)),
    decreases s, 0int,
{
    match s {
        SpecStatement::Return(e) => {
            lemma_expr_no_loop_labels(e, v, l, k);
            let r = exp_ir(e, v, l).unwrap();
            lemma_kind_push_none(r.code, SpecIRInstruction::Return(r.val), k);
        },
        SpecStatement::Expression(e) => lemma_expr_no_loop_labels(e, v, l, k),
        SpecStatement::If { cond, then, else_ } => {
            lemma_expr_no_loop_labels(cond, v, l, k);
            let c = exp_ir(cond, v, l).unwrap();
            lemma_stmt_loop_labels(*then, v + c.temps, l + c.labels, lo, k);
            let t = stmt_ir(*then, v + c.temps, l + c.labels).unwrap();
            let nt = loops_in_stmt(*then);
            let kt = kind_ids(t.code, k);
            match else_ {
                Some(es) => {
                    lemma_stmt_loop_labels(*es, v + c.temps + t.temps, l + c.labels + t.labels + 1, lo + nt, k);
                    let e = stmt_ir(*es, v + c.temps + t.temps, l + c.labels + t.labels + 1).unwrap();
                    lemma_if_else_loop_labels(c, t, e, l, k);
                    lemma_join(kt, kind_ids(e.code, k), lo, lo + nt, lo + loops_in_stmt(s), true);
                },
                None => lemma_if_loop_labels(c, t, l, k),
            }
        },
        SpecStatement::Compound(items) => lemma_items_loop_labels(items, v, l, lo, k),
        SpecStatement::Break(label) => lemma_kind_one(SpecIRInstruction::Jump(label.unwrap()), k),
        SpecStatement::Continue(label) => lemma_kind_one(SpecIRInstruction::Jump(label.unwrap()), k),
        SpecStatement::While { cond, body, label: _ } => {
            lemma_expr_no_loop_labels(cond, v, l, k);
            let c = exp_ir(cond, v, l).unwrap();
            lemma_stmt_loop_labels(*body, v + c.temps, l + c.labels, lo + 1, k);
            let b = stmt_ir(*body, v + c.temps, l + c.labels).unwrap();
            lemma_while_loop_labels(c, b, lo, loops_in_stmt(*body) as int, k);
        },
        SpecStatement::DoWhile { body, cond, label: _ } => {
            lemma_expr_no_loop_labels(cond, v, l, k);
            let c = exp_ir(cond, v, l).unwrap();
            lemma_stmt_loop_labels(*body, v + c.temps, l + c.labels, lo + 1, k);
            let b = stmt_ir(*body, v + c.temps, l + c.labels).unwrap();
            lemma_do_while_loop_labels(c, b, lo, loops_in_stmt(*body) as int, k);
        },
        SpecStatement::For { init, cond, post, body, label } => {
            let start = label.unwrap();
            lemma_for_init_no_loop_labels(init, v, l, k);
            let i = for_init_ir(init, v, l).unwrap();
            lemma_for_cond_no_loop_labels(cond, start, v + i.temps, l + i.labels, k);
            let c = for_cond_ir(cond, start, v + i.temps, l + i.labels).unwrap();
            lemma_stmt_loop_labels(*body, v + i.temps + c.temps, l + i.labels + c.labels, lo + 1, k);
            let b = stmt_ir(*body, v + i.temps + c.temps, l + i.labels + c.labels).unwrap();
            lemma_effect_no_loop_labels(post, v + i.temps + c.temps + b.temps, l + i.labels + c.labels + b.labels, k);
            let q = effect_ir(post, v + i.temps + c.temps + b.temps, l + i.labels + c.labels + b.labels).unwrap();
            lemma_for_loop_labels(i, c, b, q, lo, loops_in_stmt(*body) as int, k);
        },
        SpecStatement::Null => assert(kind_ids(Seq::<SpecIRInstruction>::empty(), k) == Seq::<int>::empty()),
    }
}

proof fn lemma_item_loop_labels(it: SpecBlockItem, v: int, l: int, lo: int, k: LabelKind)
    requires
        item_ir(it, v, l) is Some,
        numbered_item(it, lo),
        loop_kind(k),
        0 <= lo,
        lo + loops_in_item(it) <= u32::MAX + 1,
    ensures
        within(kind_ids(item_ir(it, v, l).unwrap().code, k), lo, lo + loops_in_item(it)),
    decreases it, 0int,
{
    match it {
        SpecBlockItem::Statement(s) => lemma_stmt_loop_labels(s, v, l, lo, k),
        SpecBlockItem::Declaration(SpecDeclaration::VarDecl(d)) => lemma_var_decl_no_loop_labels(d, v, l, k),
        SpecBlockItem::Declaration(SpecDeclaration::FnDecl(_)) => {
            assert(kind_ids(Seq::<SpecIRInstruction>::empty(), k) == Seq::<int>::empty());
        },
    }
}

proof fn lemma_items_loop_labels(items: Seq<SpecBlockItem>, v: int, l: int, lo: int, k: LabelKind)
    requires
        items_ir(items, v, l) is Some,
        numbered_items(items, lo),
        loop_kind(k),
        0 <= lo,
        lo + loops_in_items(items) <= u32::MAX + 1,
    ensures
        within(kind_ids(items_ir(items, v, l).unwrap().code, k), lo, lo + loops_in_items(items)),
    decreases items, 0int,
{
    if items.len() == 0 {
        assert(kind_ids(Seq::<SpecIRInstruction>::empty(), k) == Seq::<int>::empty());
    } else {
        let n0 = loops_in_item(items[0]);
        lemma_item_loop_labels(items[0], v, l, lo, k);
        let a = item_ir(items[0], v, l).unwrap();
        lemma_items_loop_labels(items.drop_first(), v + a.temps, l + a.labels, lo + n0, k);
        let b = items_ir(items.drop_first(), v + a.temps, l + a.labels).unwrap();
        lemma_kind_add(a.code, b.code, k);
        lemma_join(kind_ids(a.code, k), kind_ids(b.code, k), lo, lo + n0, lo + loops_in_items(items), true);
    }
}

proof fn lemma_program_loop_labels(fs: Seq<SpecFnDecl>, v: int, l: int, lo: int, k: LabelKind)
    requires
        program_ir(fs, v, l) is Some,
        numbered_fns(fs, lo),
        loop_kind(k),
        0 <= lo,
        lo + loops_in_fns(fs) <= u32::MAX + 1,
    ensures
        within(kind_ids(program_code(program_ir(fs, v, l).unwrap().0), k), lo, lo + loops_in_fns(fs)),
    decreases fs.len(),
{
    if fs.len() == 0 {
        assert(kind_ids(Seq::<SpecIRInstruction>::empty(), k) == Seq::<int>::empty());
    } else if fs[0].body is None {
        lemma_program_loop_labels(fs.drop_first(), v, l, lo, k);
    } else {
        let b = fs[0].body.unwrap();
        let n0 = loops_in_fn(fs[0]);
        let (f, c) = function_ir(fs[0], v, l).unwrap();
        lemma_items_loop_labels(b, v, l, lo, k);
        let ic = items_ir(b, v, l).unwrap();
        lemma_kind_push_none(ic.code, SpecIRInstruction::Return(IRVal::Constant(0)), k);
        assert(c == body_ir(b, v, l).unwrap());
        lemma_program_loop_labels(fs.drop_first(), v + c.temps, l + c.labels, lo + n0, k);
        let (rest, _t, _lb) = program_ir(fs.drop_first(), v + c.temps, l + c.labels).unwrap();
        let all = seq![f] + rest;
        assert(all[0] == f);
        assert(all.drop_first() =~= rest);
        assert(program_code(all) == f.instructions + program_code(rest));
        lemma_kind_add(f.instructions, program_code(rest), k);
        lemma_join(
            kind_ids(f.instructions, k),
            kind_ids(program_code(rest), k),
            lo,
            lo + n0,
            lo + loops_in_fns(fs),
            true,
        );
    }
}

/// Loop labels are defined once: in the three-address code of a program
/// whose loops are numbered from `lo` on, the `start_loop`, `break_loop` and
/// `continue_loop` labels of each kind are all different, and each lies in
/// the window `[lo, lo + n)`, `n` being the number of loops.
pub proof fn lemma_program_loop_labels_distinct(fs: Seq<SpecFnDecl>, v: int, l: int, lo: int, k: LabelKind)
    requires
        program_ir(fs, v, l) is Some,
        numbered_fns(fs, lo),
        loop_kind(k),
        0 <= lo,
        lo + loops_in_fns(fs) <= u32::MAX + 1,
    ensures
        ({
            let ids = kind_ids(program_code(program_ir(fs, v, l).unwrap().0), k);
            &&& no_repeats(ids)
            &&& forall|i: int| 0 <= i < ids.len() ==> lo <= #[trigger] ids[i] < lo + loops_in_fns(fs)
        }),
{
    lemma_program_loop_labels(fs, v, l, lo, k);
}

/// The labels of one drawn kind are among the drawn labels, and are
/// different from each other where the drawn labels are.
proof fn lemma_drawn_kind_ids(code: Seq<SpecIRInstruction>, k: LabelKind)
    requires
        drawn_kind(k),
    ensures
        forall|x: int| kind_ids(code, k).contains(x) ==> drawn_labels(code).contains(x),
        no_repeats(drawn_labels(code)) ==> no_repeats(kind_ids(code, k)),
    decreases code.len(),
{
    if code.len() > 0 {
        let rest = code.drop_first();
        lemma_drawn_kind_ids(rest, k);
        let kr = kind_ids(rest, k);
        let dr = drawn_labels(rest);
        let kk = kind_ids(code, k);
        let dd = drawn_labels(code);
        let head = kind_of(code[0], k);
        assert(kk == head + kr);
        let in_front = code[0] is Label && drawn_kind(code[0]->Label_0.kind);
        if in_front {
            assert(dd == seq![code[0]->Label_0.id as int] + dr);
        } else {
            assert(dd == dr);
        }
        assert forall|x: int| kk.contains(x) implies dd.contains(x) by {
            let i = choose|i: int| 0 <= i < kk.len() && kk[i] == x;
            if i < head.len() {
                assert(in_front);
                assert(dd[0] == x);
                assert(dd.contains(x));
            } else {
                assert(kr[i - head.len()] == x);
                assert(kr.contains(x));
                assert(dr.contains(x));
                let j = choose|j: int| 0 <= j < dr.len() && dr[j] == x;
                if in_front {
                    assert(dd[j + 1] == x);
                } else {
                    assert(dd[j] == x);
                }
                assert(dd.contains(x));
            }
        }
        if no_repeats(dd) {
            assert forall|i: int, j: int| 0 <= i < j < dr.len() implies #[trigger] dr[i] != #[trigger] dr[j] by {
                if in_front {
                    assert(dd[i + 1] == dr[i] && dd[j + 1] == dr[j]);
                } else {
                    assert(dd[i] == dr[i] && dd[j] == dr[j]);
                }
            }
            assert(no_repeats(kr));
            assert forall|i: int, j: int| 0 <= i < j < kk.len() implies #[trigger] kk[i] != #[trigger] kk[j] by {
                if i < head.len() {
                    assert(in_front);
                    assert(kk[j] == kr[j - 1]);
                    assert(kr.contains(kk[j]));
                    assert(dr.contains(kk[j]));
                    let m = choose|m: int| 0 <= m < dr.len() && dr[m] == kk[j];
                    assert(dd[m + 1] == dr[m]);
                    assert(dd[0] == kk[i]);
                } else {
                    assert(kk[i] == kr[i - head.len()] && kk[j] == kr[j - head.len()]);
                }
            }
        }
    }
}

proof fn lemma_numbered_marked_stmt(s: SpecStatement, lo: int)
    requires
        numbered_stmt(s, lo),
    ensures
        marked_stmt(s),
    decreases s, 0int,
{
    match s {
        SpecStatement::While { cond: _, body, label: _ } => lemma_numbered_marked_stmt(*body, lo + 1),
        SpecStatement::DoWhile { body, cond: _, label: _ } => lemma_numbered_marked_stmt(*body, lo + 1),
        SpecStatement::For { init: _, cond: _, post: _, body, label: _ } => lemma_numbered_marked_stmt(*body, lo + 1),
        SpecStatement::If { cond: _, then, else_ } => {
            lemma_numbered_marked_stmt(*then, lo);
            if let Some(es) = else_ {
                lemma_numbered_marked_stmt(*es, lo + loops_in_stmt(*then));
            }
        },
        SpecStatement::Compound(items) => lemma_numbered_marked_items(items, lo),
        _ => {},
    }
}

proof fn lemma_numbered_marked_items(items: Seq<SpecBlockItem>, lo: int)
    requires
        numbered_items(items, lo),
    ensures
        marked_items(items),
    decreases items, 0int,
{
    if items.len() > 0 {
        assert(numbered_item(items[0], lo));
        if let SpecBlockItem::Statement(st) = items[0] {
            lemma_numbered_marked_stmt(st, lo);
        }
        assert(marked_item(items[0]));
        lemma_numbered_marked_items(items.drop_first(), lo + loops_in_item(items[0]));
    }
}

proof fn lemma_numbered_fns_marked(fs: Seq<SpecFnDecl>, lo: int)
    requires
        numbered_fns(fs, lo),
    ensures
        forall|i: int| 0 <= i < fs.len() ==> marked_fn(#[trigger] fs[i]),
    decreases fs.len(),
{
    if fs.len() > 0 {
        if let Some(b) = fs[0].body {
            lemma_numbered_marked_items(b, lo);
        }
        lemma_numbered_fns_marked(fs.drop_first(), lo + loops_in_fn(fs[0]));
        assert forall|i: int| 0 <= i < fs.len() implies marked_fn(#[trigger] fs[i]) by {
            if i > 0 {
                assert(fs[i] == fs.drop_first()[i - 1]);
            }
        }
    }
}

/// No label is defined twice: in the three-address code of a program whose
/// loops are numbered from `lo` on, and whose translation drew its labels
/// from `l` on, the labels of each kind are all different.
pub proof fn lemma_program_labels_unique(fs: Seq<SpecFnDecl>, v: int, l: int, lo: int)
    requires
        program_ir(fs, v, l) is Some,
        numbered_fns(fs, lo),
        0 <= l,
        l + program_ir(fs, v, l).unwrap().2 <= u32::MAX + 1,
        0 <= lo,
        lo + loops_in_fns(fs) <= u32::MAX + 1,
    ensures
        forall|k: LabelKind| no_repeats(#[trigger] kind_ids(program_code(program_ir(fs, v, l).unwrap().0), k)),
{
    lemma_numbered_fns_marked(fs, lo);
    lemma_program_labels(fs, v, l);
    let code = program_code(program_ir(fs, v, l).unwrap().0);
    assert forall|k: LabelKind| no_repeats(#[trigger] kind_ids(code, k)) by {
        if drawn_kind(k) {
            lemma_drawn_kind_ids(code, k);
        } else {
            lemma_program_loop_labels(fs, v, l, lo, k);
        }
    }
}

} // verus!
