//! Every jump lands: in the three-address code of a function, each jump
//! targets a label that the same function defines.
use vstd::prelude::*;

use crate::common::BinaryOp;
use crate::ir::ir_ast::{IRVal, Label, LabelKind, SpecIRInstruction};
use crate::ir::{
    args_ir, binop_code, body_ir, break_of, continue_of, do_while_code, effect_ir, exp_ir, factor_ir,
    for_code, for_cond_ir, for_init_ir, function_ir, if_code, if_else_code, item_ir, items_ir, label_at,
    program_ir, stmt_ir, temp, var_decl_ir, while_code, Code, ExpCode,
};
use crate::parser::c_ast::{
    SpecBlockItem, SpecDeclaration, SpecExpression, SpecFactor, SpecFnDecl, SpecForInit, SpecStatement,
    SpecVarDecl,
};

verus! {

/// The label that `x` may jump to.
pub open spec fn target_of(x: SpecIRInstruction) -> Set<Label> {
    match x {
        SpecIRInstruction::Jump(l) => set![l],
        SpecIRInstruction::JumpIfZero(_, l) => set![l],
        SpecIRInstruction::JumpIfNotZero(_, l) => set![l],
        _ => Set::empty(),
    }
}

/// The label that `x` defines.
pub open spec fn defined_of(x: SpecIRInstruction) -> Set<Label> {
    match x {
        SpecIRInstruction::Label(l) => set![l],
        _ => Set::empty(),
    }
}

/// The labels that `code` jumps to.
pub open spec fn targets(code: Seq<SpecIRInstruction>) -> Set<Label>
    decreases code.len(),
{
    if code.len() == 0 {
        Set::empty()
    } else {
        target_of(code[0]) + targets(code.drop_first())
    }
}

/// The labels that `code` defines.
pub open spec fn defines(code: Seq<SpecIRInstruction>) -> Set<Label>
    decreases code.len(),
{
    if code.len() == 0 {
        Set::empty()
    } else {
        defined_of(code[0]) + defines(code.drop_first())
    }
}

/// Every jump of `code` lands on a label that `code` defines, or on one of `outer`.
pub open spec fn closed(code: Seq<SpecIRInstruction>, outer: Set<Label>) -> bool {
    targets(code).subset_of(defines(code) + outer)
}

proof fn lemma_flow_add(a: Seq<SpecIRInstruction>, b: Seq<SpecIRInstruction>)
    ensures
        targets(a + b) == targets(a) + targets(b),
        defines(a + b) == defines(a) + defines(b),
    decreases a.len(),
{
    if a.len() == 0 {
        assert(a + b =~= b);
        assert(targets(a) + targets(b) =~= targets(b));
        assert(defines(a) + defines(b) =~= defines(b));
    } else {
        assert((a + b).drop_first() =~= a.drop_first() + b);
        assert((a + b)[0] == a[0]);
        lemma_flow_add(a.drop_first(), b);
        assert(target_of(a[0]) + (targets(a.drop_first()) + targets(b))
            =~= (target_of(a[0]) + targets(a.drop_first())) + targets(b));
        assert(defined_of(a[0]) + (defines(a.drop_first()) + defines(b))
            =~= (defined_of(a[0]) + defines(a.drop_first())) + defines(b));
    }
}

proof fn lemma_flow_one(x: SpecIRInstruction)
    ensures
        targets(seq![x]) == target_of(x),
        defines(seq![x]) == defined_of(x),
{
    let e = Seq::<SpecIRInstruction>::empty();
    assert(seq![x].drop_first() =~= e);
    assert(seq![x][0] == x);
    assert(targets(e) == Set::<Label>::empty());
    assert(defines(e) == Set::<Label>::empty());
    assert(targets(seq![x]) == target_of(x) + targets(e));
    assert(defines(seq![x]) == defined_of(x) + defines(e));
    assert(target_of(x) + Set::<Label>::empty() =~= target_of(x));
    assert(defined_of(x) + Set::<Label>::empty() =~= defined_of(x));
}

proof fn lemma_flow_push(a: Seq<SpecIRInstruction>, x: SpecIRInstruction)
    ensures
        targets(a.push(x)) == targets(a) + target_of(x),
        defines(a.push(x)) == defines(a) + defined_of(x),
{
    assert(a.push(x) =~= a + seq![x]);
    lemma_flow_add(a, seq![x]);
    lemma_flow_one(x);
}

proof fn lemma_flow_lit2(x: SpecIRInstruction, y: SpecIRInstruction)
    ensures
        targets(seq![x, y]) == target_of(x) + target_of(y),
        defines(seq![x, y]) == defined_of(x) + defined_of(y),
{
    lemma_flow_one(x);
    assert(seq![x, y] =~= seq![x].push(y));
    lemma_flow_push(seq![x], y);
}

proof fn lemma_flow_lit3(x: SpecIRInstruction, y: SpecIRInstruction, z: SpecIRInstruction)
    ensures
        targets(seq![x, y, z]) == target_of(x) + target_of(y) + target_of(z),
        defines(seq![x, y, z]) == defined_of(x) + defined_of(y) + defined_of(z),
{
    lemma_flow_lit2(x, y);
    assert(seq![x, y, z] =~= seq![x, y].push(z));
    lemma_flow_push(seq![x, y], z);
}

proof fn lemma_flow_lit6(
    x1: SpecIRInstruction,
    x2: SpecIRInstruction,
    x3: SpecIRInstruction,
    x4: SpecIRInstruction,
    x5: SpecIRInstruction,
    x6: SpecIRInstruction,
)
    ensures
        targets(seq![x1, x2, x3, x4, x5, x6]) == target_of(x1) + target_of(x2) + target_of(x3) + target_of(x4)
            + target_of(x5) + target_of(x6),
        defines(seq![x1, x2, x3, x4, x5, x6]) == defined_of(x1) + defined_of(x2) + defined_of(x3) + defined_of(x4)
            + defined_of(x5) + defined_of(x6),
{
    lemma_flow_lit3(x1, x2, x3);
    assert(seq![x1, x2, x3, x4] =~= seq![x1, x2, x3].push(x4));
    lemma_flow_push(seq![x1, x2, x3], x4);
    assert(seq![x1, x2, x3, x4, x5] =~= seq![x1, x2, x3, x4].push(x5));
    lemma_flow_push(seq![x1, x2, x3, x4], x5);
    assert(seq![x1, x2, x3, x4, x5, x6] =~= seq![x1, x2, x3, x4, x5].push(x6));
    lemma_flow_push(seq![x1, x2, x3, x4, x5], x6);
}

/// Code that neither jumps nor defines a label stays closed when appended.
proof fn lemma_closed_push(a: Seq<SpecIRInstruction>, x: SpecIRInstruction, o: Set<Label>)
    requires
        closed(a, o),
        target_of(x) == Set::<Label>::empty(),
    ensures
        closed(a.push(x), o),
{
    lemma_flow_push(a, x);
    assert(targets(a) + Set::<Label>::empty() =~= targets(a));
}

proof fn lemma_closed_add(a: Seq<SpecIRInstruction>, b: Seq<SpecIRInstruction>, o: Set<Label>)
    requires
        closed(a, o),
        closed(b, o),
    ensures
        closed(a + b, o),
{
    lemma_flow_add(a, b);
}

proof fn lemma_nothing_closed(o: Set<Label>)
    ensures
        closed(Seq::<SpecIRInstruction>::empty(), o),
{
    assert(targets(Seq::<SpecIRInstruction>::empty()) == Set::<Label>::empty());
}

/// The code of an expression jumps only to labels it defines.
proof fn lemma_expr_closed(e: SpecExpression, v: int, l: int)
    requires
        exp_ir(e, v, l) is Some,
    ensures
        closed(exp_ir(e, v, l).unwrap().code, Set::empty()),
    decreases e, 1int,
{
    match e {
        SpecExpression::Factor(f) => lemma_factor_closed(*f, v, l),
        SpecExpression::Binary(op, a, b) => {
            lemma_expr_closed(*a, v, l);
            let r1 = exp_ir(*a, v, l).unwrap();
            lemma_expr_closed(*b, v + r1.temps, l + r1.labels);
            let r2 = exp_ir(*b, v + r1.temps, l + r1.labels).unwrap();
            lemma_binop_closed(op, r1, r2, v, l);
        },
        SpecExpression::Assign(a, b) => {
            lemma_expr_closed(*b, v, l);
            let r = exp_ir(*b, v, l).unwrap();
            let id = crate::ir::assign_target(*a).unwrap();
            lemma_closed_push(r.code, SpecIRInstruction::Copy(r.val, IRVal::Var(id)), Set::empty());
        },
        SpecExpression::Conditional { cond, then, else_ } => {
            lemma_expr_closed(*cond, v + 1, l);
            let c = exp_ir(*cond, v + 1, l).unwrap();
            lemma_expr_closed(*then, v + 1 + c.temps, l + c.labels);
            let t = exp_ir(*then, v + 1 + c.temps, l + c.labels).unwrap();
            lemma_expr_closed(*else_, v + 1 + c.temps + t.temps, l + c.labels + t.labels);
            let f = exp_ir(*else_, v + 1 + c.temps + t.temps, l + c.labels + t.labels).unwrap();
            lemma_conditional_closed(c, t, f, v, l);
        },
    }
}

proof fn lemma_conditional_closed(c: ExpCode, t: ExpCode, f: ExpCode, v: int, l: int)
    requires
        closed(c.code, Set::empty()),
        closed(t.code, Set::empty()),
        closed(f.code, Set::empty()),
    ensures
        ({
            let lb = l + c.labels + t.labels + f.labels;
            let else_label = label_at(LabelKind::Else, lb);
            let end_label = label_at(LabelKind::End, lb + 1);
            let res = temp(v);
            closed(
                c.code + seq![SpecIRInstruction::JumpIfZero(c.val, else_label)] + t.code + seq![
                    SpecIRInstruction::Copy(t.val, res),
                    SpecIRInstruction::Jump(end_label),
                    SpecIRInstruction::Label(else_label),
                ] + f.code + seq![SpecIRInstruction::Copy(f.val, res), SpecIRInstruction::Label(end_label)],
                Set::empty(),
            )
        }),
{
    let lb = l + c.labels + t.labels + f.labels;
    let else_label = label_at(LabelKind::Else, lb);
    let end_label = label_at(LabelKind::End, lb + 1);
    let res = temp(v);
    let j = seq![SpecIRInstruction::JumpIfZero(c.val, else_label)];
    let m = seq![SpecIRInstruction::Copy(t.val, res), SpecIRInstruction::Jump(end_label), SpecIRInstruction::Label(else_label)];
    let z = seq![SpecIRInstruction::Copy(f.val, res), SpecIRInstruction::Label(end_label)];
    lemma_flow_one(j[0]);
    lemma_flow_lit3(m[0], m[1], m[2]);
    lemma_flow_lit2(z[0], z[1]);
    lemma_flow_add(c.code, j);
    lemma_flow_add(c.code + j, t.code);
    lemma_flow_add(c.code + j + t.code, m);
    lemma_flow_add(c.code + j + t.code + m, f.code);
    lemma_flow_add(c.code + j + t.code + m + f.code, z);
}

proof fn lemma_binop_closed(op: BinaryOp, r1: ExpCode, r2: ExpCode, v: int, l: int)
    requires
        closed(r1.code, Set::empty()),
        closed(r2.code, Set::empty()),
    ensures
        closed(binop_code(op, r1, r2, v, l).code, Set::empty()),
{
    let lb = l + r1.labels + r2.labels;
    let dst = temp(v + r1.temps + r2.temps);
    lemma_closed_add(r1.code, r2.code, Set::empty());
    if op == BinaryOp::LogicalAnd || op == BinaryOp::LogicalOr {
        let first = if op == BinaryOp::LogicalAnd { label_at(LabelKind::False, lb) } else { label_at(LabelKind::True, lb) };
        let end = label_at(LabelKind::End, lb + 1);
        let j = if op == BinaryOp::LogicalAnd {
            SpecIRInstruction::JumpIfZero(r1.val, first)
        } else {
            SpecIRInstruction::JumpIfNotZero(r1.val, first)
        };
        let tail = if op == BinaryOp::LogicalAnd {
            seq![
                SpecIRInstruction::JumpIfZero(r2.val, first),
                SpecIRInstruction::Copy(IRVal::Constant(1), dst),
                SpecIRInstruction::Jump(end),
                SpecIRInstruction::Label(first),
                SpecIRInstruction::Copy(IRVal::Constant(0), dst),
                SpecIRInstruction::Label(end),
            ]
        } else {
            seq![
                SpecIRInstruction::JumpIfNotZero(r2.val, first),
                SpecIRInstruction::Copy(IRVal::Constant(0), dst),
                SpecIRInstruction::Jump(end),
                SpecIRInstruction::Label(first),
                SpecIRInstruction::Copy(IRVal::Constant(1), dst),
                SpecIRInstruction::Label(end),
            ]
        };
        assert(binop_code(op, r1, r2, v, l).code == r1.code + seq![j] + r2.code + tail);
        lemma_flow_one(j);
        lemma_flow_lit6(tail[0], tail[1], tail[2], tail[3], tail[4], tail[5]);
        assert(tail == seq![tail[0], tail[1], tail[2], tail[3], tail[4], tail[5]]);
        lemma_flow_add(r1.code, seq![j]);
        lemma_flow_add(r1.code + seq![j], r2.code);
        lemma_flow_add(r1.code + seq![j] + r2.code, tail);
    } else {
        let x = SpecIRInstruction::Binary(op, r1.val, r2.val, dst);
        lemma_closed_push(r1.code + r2.code, x, Set::empty());
        assert((r1.code + r2.code).push(x) =~= r1.code + r2.code + seq![x]);
    }
}

proof fn lemma_factor_closed(f: SpecFactor, v: int, l: int)
    requires
        factor_ir(f, v, l) is Some,
    ensures
        closed(factor_ir(f, v, l).unwrap().code, Set::empty()),
    decreases f, 1int,
{
    match f {
        SpecFactor::Unary(op, g) => {
            lemma_factor_closed(*g, v, l);
            let r = factor_ir(*g, v, l).unwrap();
            lemma_closed_push(r.code, SpecIRInstruction::Unary(op, r.val, temp(v + r.temps)), Set::empty());
        },
        SpecFactor::Expression(e) => lemma_expr_closed(e, v, l),
        SpecFactor::FunctionCall(name, args) => {
            lemma_args_closed(args, v + 1, l);
            let (vals, a) = args_ir(args, v + 1, l).unwrap();
            lemma_closed_push(a.code, SpecIRInstruction::FnCall(name, vals, temp(v)), Set::empty());
        },
        _ => lemma_nothing_closed(Set::empty()),
    }
}

proof fn lemma_args_closed(args: Seq<SpecExpression>, v: int, l: int)
    requires
        args_ir(args, v, l) is Some,
    ensures
        closed(args_ir(args, v, l).unwrap().1.code, Set::empty()),
    decreases args, 1int,
{
    if args.len() > 0 {
        lemma_expr_closed(args[0], v, l);
        let r = exp_ir(args[0], v, l).unwrap();
        lemma_args_closed(args.drop_first(), v + r.temps, l + r.labels);
        let rest = args_ir(args.drop_first(), v + r.temps, l + r.labels).unwrap().1;
        lemma_closed_add(r.code, rest.code, Set::empty());
    } else {
        lemma_nothing_closed(Set::empty());
    }
}

/// Where `break` and `continue` inside the loop labelled `cur` may go.
pub open spec fn exits(cur: Option<Label>) -> Set<Label> {
    match cur {
        Some(start) => set![break_of(start), continue_of(start)],
        None => Set::empty(),
    }
}

/// Every `break` and `continue` of `s` goes to the loop `cur` it sits in,
/// and loops pass their own label to their bodies.
pub open spec fn aimed_stmt(s: SpecStatement, cur: Option<Label>) -> bool
    decreases s,
{
    match s {
        SpecStatement::Break(l) => l matches Some(t) && exits(cur).contains(t),
        SpecStatement::Continue(l) => l matches Some(t) && exits(cur).contains(t),
        SpecStatement::While { cond: _, body, label } => aimed_stmt(*body, label),
        SpecStatement::DoWhile { body, cond: _, label } => aimed_stmt(*body, label),
        SpecStatement::For { init: _, cond: _, post: _, body, label } => aimed_stmt(*body, label),
        SpecStatement::If { cond: _, then, else_ } => aimed_stmt(*then, cur) && match else_ {
            Some(es) => aimed_stmt(*es, cur),
            None => true,
        },
        SpecStatement::Compound(items) => aimed_items(items, cur),
        _ => true,
    }
}

/// Every statement among the items is aimed; nested definitions start outside any loop.
pub open spec fn aimed_items(items: Seq<SpecBlockItem>, cur: Option<Label>) -> bool
    decreases items,
{
    items.len() == 0 || (aimed_item(items[0], cur) && aimed_items(items.drop_first(), cur))
}

pub open spec fn aimed_item(it: SpecBlockItem, cur: Option<Label>) -> bool
    decreases it,
{
    match it {
        SpecBlockItem::Statement(s) => aimed_stmt(s, cur),
        SpecBlockItem::Declaration(SpecDeclaration::FnDecl(f)) => match f.body {
            Some(b) => aimed_items(b, None),
            None => true,
        },
        SpecBlockItem::Declaration(SpecDeclaration::VarDecl(_)) => true,
    }
}

/// The body of `f` is aimed.
pub open spec fn aimed_fn(f: SpecFnDecl) -> bool {
    match f.body {
        Some(b) => aimed_items(b, None),
        None => true,
    }
}

proof fn lemma_closed_widen(a: Seq<SpecIRInstruction>, o1: Set<Label>, o2: Set<Label>)
    requires
        closed(a, o1),
        o1.subset_of(o2),
    ensures
        closed(a, o2),
{
}

proof fn lemma_var_decl_closed(d: SpecVarDecl, v: int, l: int)
    requires
        var_decl_ir(d, v, l) is Some,
    ensures
        closed(var_decl_ir(d, v, l).unwrap().code, Set::empty()),
{
    match d.init {
        Some(e) => {
            lemma_expr_closed(e, v, l);
            let r = exp_ir(e, v, l).unwrap();
            lemma_closed_push(r.code, SpecIRInstruction::Copy(r.val, IRVal::Var(d.var.id.unwrap())), Set::empty());
        },
        None => lemma_nothing_closed(Set::empty()),
    }
}

proof fn lemma_effect_closed(e: Option<SpecExpression>, v: int, l: int)
    requires
        effect_ir(e, v, l) is Some,
    ensures
        closed(effect_ir(e, v, l).unwrap().code, Set::empty()),
{
    match e {
        Some(x) => lemma_expr_closed(x, v, l),
        None => lemma_nothing_closed(Set::empty()),
    }
}

proof fn lemma_for_init_closed(init: SpecForInit, v: int, l: int)
    requires
        for_init_ir(init, v, l) is Some,
    ensures
        closed(for_init_ir(init, v, l).unwrap().code, Set::empty()),
{
    match init {
        SpecForInit::InitDecl(d) => lemma_var_decl_closed(d, v, l),
        SpecForInit::InitExp(e) => lemma_effect_closed(e, v, l),
    }
}

proof fn lemma_for_cond_closed(cond: Option<SpecExpression>, start: Label, v: int, l: int)
    requires
        for_cond_ir(cond, start, v, l) is Some,
    ensures
        closed(for_cond_ir(cond, start, v, l).unwrap().code, set![break_of(start)]),
{
    match cond {
        Some(c) => {
            lemma_expr_closed(c, v, l);
            let r = exp_ir(c, v, l).unwrap();
            lemma_flow_push(r.code, SpecIRInstruction::JumpIfZero(r.val, break_of(start)));
        },
        None => lemma_nothing_closed(set![break_of(start)]),
    }
}

proof fn lemma_if_closed(c: ExpCode, t: Code, l: int, o: Set<Label>)
    requires
        closed(c.code, Set::empty()),
        closed(t.code, o),
    ensures
        closed(if_code(c, t, l).code, o),
{
    let end_label = label_at(LabelKind::End, l + c.labels + t.labels);
    let j = seq![SpecIRInstruction::JumpIfZero(c.val, end_label)];
    let z = seq![SpecIRInstruction::Label(end_label)];
    lemma_flow_one(j[0]);
    lemma_flow_one(z[0]);
    lemma_flow_add(c.code, j);
    lemma_flow_add(c.code + j, t.code);
    lemma_flow_add(c.code + j + t.code, z);
}

proof fn lemma_if_else_closed(c: ExpCode, t: Code, e: Code, l: int, o: Set<Label>)
    requires
        closed(c.code, Set::empty()),
        closed(t.code, o),
        closed(e.code, o),
    ensures
        closed(if_else_code(c, t, e, l).code, o),
{
    let lb = l + c.labels + t.labels;
    let end_label = label_at(LabelKind::End, lb);
    let else_label = label_at(LabelKind::Else, lb + 1 + e.labels);
    let j = seq![SpecIRInstruction::JumpIfZero(c.val, else_label)];
    let m = seq![SpecIRInstruction::Jump(end_label), SpecIRInstruction::Label(else_label)];
    let z = seq![SpecIRInstruction::Label(end_label)];
    lemma_flow_one(j[0]);
    lemma_flow_lit2(m[0], m[1]);
    lemma_flow_one(z[0]);
    lemma_flow_add(c.code, j);
    lemma_flow_add(c.code + j, t.code);
    lemma_flow_add(c.code + j + t.code, m);
    lemma_flow_add(c.code + j + t.code + m, e.code);
    lemma_flow_add(c.code + j + t.code + m + e.code, z);
}

proof fn lemma_while_closed(start: Label, c: ExpCode, b: Code, o: Set<Label>)
    requires
        closed(c.code, Set::empty()),
        closed(b.code, exits(Some(start))),
    ensures
        closed(while_code(start, c, b).code, o),
{
    let a = seq![SpecIRInstruction::Label(continue_of(start))];
    let j = seq![SpecIRInstruction::JumpIfZero(c.val, break_of(start))];
    let z = seq![SpecIRInstruction::Jump(continue_of(start)), SpecIRInstruction::Label(break_of(start))];
    lemma_flow_one(a[0]);
    lemma_flow_one(j[0]);
    lemma_flow_lit2(z[0], z[1]);
    lemma_flow_add(a, c.code);
    lemma_flow_add(a + c.code, j);
    lemma_flow_add(a + c.code + j, b.code);
    lemma_flow_add(a + c.code + j + b.code, z);
}

proof fn lemma_do_while_closed(start: Label, c: ExpCode, b: Code, o: Set<Label>)
    requires
        closed(c.code, Set::empty()),
        closed(b.code, exits(Some(start))),
    ensures
        closed(do_while_code(start, c, b).code, o),
{
    let a = seq![SpecIRInstruction::Label(start)];
    let m = seq![SpecIRInstruction::Label(continue_of(start))];
    let z = seq![SpecIRInstruction::JumpIfNotZero(c.val, start), SpecIRInstruction::Label(break_of(start))];
    lemma_flow_one(a[0]);
    lemma_flow_one(m[0]);
    lemma_flow_lit2(z[0], z[1]);
    lemma_flow_add(a, b.code);
    lemma_flow_add(a + b.code, m);
    lemma_flow_add(a + b.code + m, c.code);
    lemma_flow_add(a + b.code + m + c.code, z);
}

proof fn lemma_for_closed(start: Label, i: Code, c: Code, b: Code, p: Code, o: Set<Label>)
    requires
        closed(i.code, Set::empty()),
        closed(c.code, set![break_of(start)]),
        closed(b.code, exits(Some(start))),
        closed(p.code, Set::empty()),
    ensures
        closed(for_code(start, i, c, b, p).code, o),
{
    let a = seq![SpecIRInstruction::Label(start)];
    let m = seq![SpecIRInstruction::Label(continue_of(start))];
    let z = seq![SpecIRInstruction::Jump(start), SpecIRInstruction::Label(break_of(start))];
    lemma_flow_one(a[0]);
    lemma_flow_one(m[0]);
    lemma_flow_lit2(z[0], z[1]);
    lemma_flow_add(i.code, a);
    lemma_flow_add(i.code + a, c.code);
    lemma_flow_add(i.code + a + c.code, b.code);
    lemma_flow_add(i.code + a + c.code + b.code, m);
    lemma_flow_add(i.code + a + c.code + b.code + m, p.code);
    lemma_flow_add(i.code + a + c.code + b.code + m + p.code, z);
}

proof fn lemma_stmt_closed(s: SpecStatement, v: int, l: int, cur: Option<Label>)
    requires
        stmt_ir(s, v, l) is Some,
        aimed_stmt(s, cur),
    ensures
        closed(stmt_ir(s, v, l).unwrap().code, exits(cur)),
    decreases s, 0int,
{
    match s {
        SpecStatement::Return(e) => {
            lemma_expr_closed(e, v, l);
            let r = exp_ir(e, v, l).unwrap();
            lemma_closed_push(r.code, SpecIRInstruction::Return(r.val), Set::empty());
            lemma_closed_widen(r.code.push(SpecIRInstruction::Return(r.val)), Set::empty(), exits(cur));
        },
        SpecStatement::Expression(e) => {
            lemma_expr_closed(e, v, l);
            lemma_closed_widen(exp_ir(e, v, l).unwrap().code, Set::empty(), exits(cur));
        },
        SpecStatement::If { cond, then, else_ } => {
            lemma_expr_closed(cond, v, l);
            let c = exp_ir(cond, v, l).unwrap();
            lemma_stmt_closed(*then, v + c.temps, l + c.labels, cur);
            let t = stmt_ir(*then, v + c.temps, l + c.labels).unwrap();
            match else_ {
                Some(es) => {
                    lemma_stmt_closed(*es, v + c.temps + t.temps, l + c.labels + t.labels + 1, cur);
                    let e = stmt_ir(*es, v + c.temps + t.temps, l + c.labels + t.labels + 1).unwrap();
                    lemma_if_else_closed(c, t, e, l, exits(cur));
                },
                None => lemma_if_closed(c, t, l, exits(cur)),
            }
        },
        SpecStatement::Compound(items) => lemma_items_closed(items, v, l, cur),
        SpecStatement::Break(label) => lemma_flow_one(SpecIRInstruction::Jump(label.unwrap())),
        SpecStatement::Continue(label) => lemma_flow_one(SpecIRInstruction::Jump(label.unwrap())),
        SpecStatement::While { cond, body, label } => {
            lemma_expr_closed(cond, v, l);
            let c = exp_ir(cond, v, l).unwrap();
            lemma_stmt_closed(*body, v + c.temps, l + c.labels, label);
            let b = stmt_ir(*body, v + c.temps, l + c.labels).unwrap();
            lemma_while_closed(label.unwrap(), c, b, exits(cur));
        },
        SpecStatement::DoWhile { body, cond, label } => {
            lemma_expr_closed(cond, v, l);
            let c = exp_ir(cond, v, l).unwrap();
            lemma_stmt_closed(*body, v + c.temps, l + c.labels, label);
            let b = stmt_ir(*body, v + c.temps, l + c.labels).unwrap();
            lemma_do_while_closed(label.unwrap(), c, b, exits(cur));
        },
        SpecStatement::For { init, cond, post, body, label } => {
            let start = label.unwrap();
            lemma_for_init_closed(init, v, l);
            let i = for_init_ir(init, v, l).unwrap();
            lemma_for_cond_closed(cond, start, v + i.temps, l + i.labels);
            let c = for_cond_ir(cond, start, v + i.temps, l + i.labels).unwrap();
            lemma_stmt_closed(*body, v + i.temps + c.temps, l + i.labels + c.labels, label);
            let b = stmt_ir(*body, v + i.temps + c.temps, l + i.labels + c.labels).unwrap();
            lemma_effect_closed(post, v + i.temps + c.temps + b.temps, l + i.labels + c.labels + b.labels);
            let q = effect_ir(post, v + i.temps + c.temps + b.temps, l + i.labels + c.labels + b.labels).unwrap();
            lemma_for_closed(start, i, c, b, q, exits(cur));
        },
        SpecStatement::Null => lemma_nothing_closed(exits(cur)),
    }
}

proof fn lemma_item_closed(it: SpecBlockItem, v: int, l: int, cur: Option<Label>)
    requires
        item_ir(it, v, l) is Some,
        aimed_item(it, cur),
    ensures
        closed(item_ir(it, v, l).unwrap().code, exits(cur)),
    decreases it, 0int,
{
    match it {
        SpecBlockItem::Statement(s) => lemma_stmt_closed(s, v, l, cur),
        SpecBlockItem::Declaration(SpecDeclaration::VarDecl(d)) => {
            lemma_var_decl_closed(d, v, l);
            lemma_closed_widen(var_decl_ir(d, v, l).unwrap().code, Set::empty(), exits(cur));
        },
        SpecBlockItem::Declaration(SpecDeclaration::FnDecl(f)) => match f.body {
            Some(b) => {
                lemma_items_closed(b, v, l, None);
                let c = items_ir(b, v, l).unwrap();
                lemma_closed_push(c.code, SpecIRInstruction::Return(IRVal::Constant(0)), Set::empty());
                lemma_closed_widen(body_ir(b, v, l).unwrap().code, Set::empty(), exits(cur));
            },
            None => lemma_nothing_closed(exits(cur)),
        },
    }
}

proof fn lemma_items_closed(items: Seq<SpecBlockItem>, v: int, l: int, cur: Option<Label>)
    requires
        items_ir(items, v, l) is Some,
        aimed_items(items, cur),
    ensures
        closed(items_ir(items, v, l).unwrap().code, exits(cur)),
    decreases items, 0int,
{
    if items.len() == 0 {
        lemma_nothing_closed(exits(cur));
    } else {
        lemma_item_closed(items[0], v, l, cur);
        let a = item_ir(items[0], v, l).unwrap();
        lemma_items_closed(items.drop_first(), v + a.temps, l + a.labels, cur);
        let b = items_ir(items.drop_first(), v + a.temps, l + a.labels).unwrap();
        lemma_closed_add(a.code, b.code, exits(cur));
    }
}

/// Every jump lands: in the three-address code of each function of a
/// program whose `break` and `continue` statements go to the loop they sit
/// in, every jump targets a label that the same function defines.
pub proof fn lemma_program_jumps_land(fs: Seq<SpecFnDecl>, v: int, l: int)
    requires
        program_ir(fs, v, l) is Some,
        forall|i: int| 0 <= i < fs.len() ==> aimed_fn(#[trigger] fs[i]),
    ensures
        forall|i: int| #![trigger program_ir(fs, v, l).unwrap().0[i]]
            0 <= i < program_ir(fs, v, l).unwrap().0.len()
            ==> targets(program_ir(fs, v, l).unwrap().0[i].instructions).subset_of(
                defines(program_ir(fs, v, l).unwrap().0[i].instructions),
            ),
    decreases fs.len(),
{
    if fs.len() > 0 {
        assert(aimed_fn(fs[0]));
        assert forall|i: int| 0 <= i < fs.drop_first().len() implies aimed_fn(#[trigger] fs.drop_first()[i]) by {
            assert(fs.drop_first()[i] == fs[i + 1]);
        }
        if fs[0].body is None {
            lemma_program_jumps_land(fs.drop_first(), v, l);
        } else {
            let b = fs[0].body.unwrap();
            let (f, c) = function_ir(fs[0], v, l).unwrap();
            lemma_items_closed(b, v, l, None);
            let ic = items_ir(b, v, l).unwrap();
            lemma_closed_push(ic.code, SpecIRInstruction::Return(IRVal::Constant(0)), Set::empty());
            assert(c == body_ir(b, v, l).unwrap());
            assert(defines(f.instructions) + Set::<Label>::empty() =~= defines(f.instructions));
            lemma_program_jumps_land(fs.drop_first(), v + c.temps, l + c.labels);
            let (rest, _t, _lb) = program_ir(fs.drop_first(), v + c.temps, l + c.labels).unwrap();
            let all = seq![f] + rest;
            assert forall|i: int| #![trigger all[i]] 0 <= i < all.len()
                implies targets(all[i].instructions).subset_of(defines(all[i].instructions)) by {
                if i > 0 {
                    assert(all[i] == rest[i - 1]);
                }
            }
        }
    }
}

} // verus!
