//! The temporaries that translation draws are fresh: within the code of a
//! statement, the destinations of unary, binary and call instructions are
//! all different temporaries, drawn from the window of numbers that the
//! translation used.
use vstd::prelude::*;

use crate::common::BinaryOp;
use crate::fresh::{lemma_join, lemma_widen, lemma_within_one, no_repeats, within};
use crate::ir::ir_ast::{IRVal, LabelKind, SpecIRInstruction};
use crate::ir::{
    args_ir, binop_code, break_of, continue_of, do_while_code, effect_ir, exp_ir, factor_ir,
    for_code, for_cond_ir, for_init_ir, if_code, if_else_code, item_ir, items_ir, label_at, stmt_ir, temp,
    var_decl_ir, while_code, Code, ExpCode,
};
use crate::parser::c_ast::{
    SpecBlockItem, SpecDeclaration, SpecExpression, SpecFactor, SpecForInit, SpecStatement, SpecVarDecl,
};

verus! {

/// The number of the temporary that `x` computes into, if `x` is a unary,
/// binary or call instruction with a temporary destination.
pub open spec fn dst_of(x: SpecIRInstruction) -> Seq<int> {
    match x {
        SpecIRInstruction::Unary(_, _, IRVal::Var(t)) => seq![t.0 as int],
        SpecIRInstruction::Binary(_, _, _, IRVal::Var(t)) => seq![t.0 as int],
        SpecIRInstruction::FnCall(_, _, IRVal::Var(t)) => seq![t.0 as int],
        _ => Seq::<int>::empty(),
    }
}

/// The destinations of the unary, binary and call instructions of `code`, in order.
pub open spec fn dsts(code: Seq<SpecIRInstruction>) -> Seq<int>
    decreases code.len(),
{
    if code.len() == 0 {
        seq![]
    } else {
        dst_of(code[0]) + dsts(code.drop_first())
    }
}

proof fn lemma_dsts_add(a: Seq<SpecIRInstruction>, b: Seq<SpecIRInstruction>)
    ensures
        dsts(a + b) == dsts(a) + dsts(b),
    decreases a.len(),
{
    if a.len() == 0 {
        assert(a + b =~= b);
        assert(dsts(a) + dsts(b) =~= dsts(b));
    } else {
        assert((a + b).drop_first() =~= a.drop_first() + b);
        assert((a + b)[0] == a[0]);
        lemma_dsts_add(a.drop_first(), b);
        assert(dst_of(a[0]) + (dsts(a.drop_first()) + dsts(b)) =~= (dst_of(a[0]) + dsts(a.drop_first())) + dsts(b));
    }
}

proof fn lemma_dsts_one(x: SpecIRInstruction)
    ensures
        dsts(seq![x]) == dst_of(x),
{
    let e = Seq::<SpecIRInstruction>::empty();
    assert(seq![x].drop_first() =~= e);
    assert(seq![x][0] == x);
    assert(dsts(e) == Seq::<int>::empty());
    assert(dst_of(x) + Seq::<int>::empty() =~= dst_of(x));
}

proof fn lemma_dsts_push(a: Seq<SpecIRInstruction>, x: SpecIRInstruction)
    ensures
        dsts(a.push(x)) == dsts(a) + dst_of(x),
{
    assert(a.push(x) =~= a + seq![x]);
    lemma_dsts_add(a, seq![x]);
    lemma_dsts_one(x);
}

/// Appending an instruction that computes into no temporary changes nothing.
proof fn lemma_dsts_push_none(a: Seq<SpecIRInstruction>, x: SpecIRInstruction)
    requires
        dst_of(x) == Seq::<int>::empty(),
    ensures
        dsts(a.push(x)) == dsts(a),
{
    lemma_dsts_push(a, x);
    assert(dsts(a) + Seq::<int>::empty() =~= dsts(a));
}

proof fn lemma_dsts_lit2(x: SpecIRInstruction, y: SpecIRInstruction)
    ensures
        dsts(seq![x, y]) == dst_of(x) + dst_of(y),
{
    lemma_dsts_one(x);
    assert(seq![x, y] =~= seq![x].push(y));
    lemma_dsts_push(seq![x], y);
}

proof fn lemma_dsts_lit3(x: SpecIRInstruction, y: SpecIRInstruction, z: SpecIRInstruction)
    ensures
        dsts(seq![x, y, z]) == dst_of(x) + dst_of(y) + dst_of(z),
{
    lemma_dsts_lit2(x, y);
    assert(seq![x, y, z] =~= seq![x, y].push(z));
    lemma_dsts_push(seq![x, y], z);
}

proof fn lemma_dsts_lit6(
    x1: SpecIRInstruction,
    x2: SpecIRInstruction,
    x3: SpecIRInstruction,
    x4: SpecIRInstruction,
    x5: SpecIRInstruction,
    x6: SpecIRInstruction,
)
    ensures
        dsts(seq![x1, x2, x3, x4, x5, x6]) == dst_of(x1) + dst_of(x2) + dst_of(x3) + dst_of(x4) + dst_of(x5)
            + dst_of(x6),
{
    lemma_dsts_lit3(x1, x2, x3);
    assert(seq![x1, x2, x3, x4] =~= seq![x1, x2, x3].push(x4));
    lemma_dsts_push(seq![x1, x2, x3], x4);
    assert(seq![x1, x2, x3, x4, x5] =~= seq![x1, x2, x3, x4].push(x5));
    lemma_dsts_push(seq![x1, x2, x3, x4], x5);
    assert(seq![x1, x2, x3, x4, x5, x6] =~= seq![x1, x2, x3, x4, x5].push(x6));
    lemma_dsts_push(seq![x1, x2, x3, x4, x5], x6);
}

proof fn lemma_no_dsts()
    ensures
        dsts(Seq::<SpecIRInstruction>::empty()) == Seq::<int>::empty(),
{
}

proof fn lemma_expr_temps(e: SpecExpression, v: int, l: int)
    requires
        exp_ir(e, v, l) is Some,
        0 <= v,
        v + exp_ir(e, v, l).unwrap().temps <= u32::MAX + 1,
    ensures
        within(dsts(exp_ir(e, v, l).unwrap().code), v, v + exp_ir(e, v, l).unwrap().temps),
    decreases e, 1int,
{
    match e {
        SpecExpression::Factor(f) => lemma_factor_temps(*f, v, l),
        SpecExpression::Binary(op, a, b) => {
            lemma_expr_temps(*a, v, l);
            let r1 = exp_ir(*a, v, l).unwrap();
            lemma_expr_temps(*b, v + r1.temps, l + r1.labels);
            let r2 = exp_ir(*b, v + r1.temps, l + r1.labels).unwrap();
            lemma_binop_temps(op, r1, r2, v, l);
        },
        SpecExpression::Assign(a, b) => {
            lemma_expr_temps(*b, v, l);
            let r = exp_ir(*b, v, l).unwrap();
            let id = crate::ir::assign_target(*a).unwrap();
            lemma_dsts_push_none(r.code, SpecIRInstruction::Copy(r.val, IRVal::Var(id)));
        },
        SpecExpression::Conditional { cond, then, else_ } => {
            lemma_expr_temps(*cond, v + 1, l);
            let c = exp_ir(*cond, v + 1, l).unwrap();
            lemma_expr_temps(*then, v + 1 + c.temps, l + c.labels);
            let t = exp_ir(*then, v + 1 + c.temps, l + c.labels).unwrap();
            lemma_expr_temps(*else_, v + 1 + c.temps + t.temps, l + c.labels + t.labels);
            let f = exp_ir(*else_, v + 1 + c.temps + t.temps, l + c.labels + t.labels).unwrap();
            let lb = l + c.labels + t.labels + f.labels;
            let else_label = label_at(LabelKind::Else, lb);
            let end_label = label_at(LabelKind::End, lb + 1);
            let res = temp(v);
            let j = seq![SpecIRInstruction::JumpIfZero(c.val, else_label)];
            let m = seq![SpecIRInstruction::Copy(t.val, res), SpecIRInstruction::Jump(end_label), SpecIRInstruction::Label(else_label)];
            let z = seq![SpecIRInstruction::Copy(f.val, res), SpecIRInstruction::Label(end_label)];
            lemma_dsts_one(j[0]);
            lemma_dsts_lit3(m[0], m[1], m[2]);
            lemma_dsts_lit2(z[0], z[1]);
            lemma_dsts_add(c.code, j);
            lemma_dsts_add(c.code + j, t.code);
            lemma_dsts_add(c.code + j + t.code, m);
            lemma_dsts_add(c.code + j + t.code + m, f.code);
            lemma_dsts_add(c.code + j + t.code + m + f.code, z);
            let dc = dsts(c.code);
            let dt = dsts(t.code);
            let df = dsts(f.code);
            assert(dsts(exp_ir(e, v, l).unwrap().code) =~= (dc + dt) + df);
            let v1 = v + 1;
            lemma_join(dc, dt, v1, v1 + c.temps, v1 + c.temps + t.temps, true);
            lemma_join(dc + dt, df, v1, v1 + c.temps + t.temps, v1 + c.temps + t.temps + f.temps, true);
            lemma_widen(dc + dt + df, v1, v1 + c.temps + t.temps + f.temps, v, v1 + c.temps + t.temps + f.temps);
        },
    }
}

proof fn lemma_binop_temps(op: BinaryOp, r1: ExpCode, r2: ExpCode, v: int, l: int)
    requires
        0 <= v,
        v + r1.temps + r2.temps + 1 <= u32::MAX + 1,
        within(dsts(r1.code), v, v + r1.temps),
        within(dsts(r2.code), v + r1.temps, v + r1.temps + r2.temps),
    ensures
        within(dsts(binop_code(op, r1, r2, v, l).code), v, v + binop_code(op, r1, r2, v, l).temps),
{
    let d1 = dsts(r1.code);
    let d2 = dsts(r2.code);
    let lb = l + r1.labels + r2.labels;
    let top = v + r1.temps + r2.temps;
    let dst = temp(top);
    lemma_join(d1, d2, v, v + r1.temps, top, true);
    if op == BinaryOp::LogicalAnd || op == BinaryOp::LogicalOr {
        let first = if op == BinaryOp::LogicalAnd { label_at(LabelKind::False, lb) } else { label_at(LabelKind::True, lb) };
        let end = label_at(LabelKind::End, lb + 1);
        let j = if op == BinaryOp::LogicalAnd {
            SpecIRInstruction::JumpIfZero(r1.val, first)
        } else {
            SpecIRInstruction::JumpIfNotZero(r1.val, first)
        };
        let tail = if op == BinaryOp::LogicalAnd {
            seq![
                SpecIRInstruction::JumpIfZero(r2.val, first),
                SpecIRInstruction::Copy(IRVal::Constant(1), dst),
                SpecIRInstruction::Jump(end),
                SpecIRInstruction::Label(first),
                SpecIRInstruction::Copy(IRVal::Constant(0), dst),
                SpecIRInstruction::Label(end),
            ]
        } else {
            seq![
                SpecIRInstruction::JumpIfNotZero(r2.val, first),
                SpecIRInstruction::Copy(IRVal::Constant(0), dst),
                SpecIRInstruction::Jump(end),
                SpecIRInstruction::Label(first),
                SpecIRInstruction::Copy(IRVal::Constant(1), dst),
                SpecIRInstruction::Label(end),
            ]
        };
        assert(binop_code(op, r1, r2, v, l).code == r1.code + seq![j] + r2.code + tail);
        lemma_dsts_one(j);
        lemma_dsts_lit6(tail[0], tail[1], tail[2], tail[3], tail[4], tail[5]);
        assert(tail == seq![tail[0], tail[1], tail[2], tail[3], tail[4], tail[5]]);
        assert(dsts(tail) =~= Seq::<int>::empty());
        lemma_dsts_add(r1.code, seq![j]);
        lemma_dsts_add(r1.code + seq![j], r2.code);
        lemma_dsts_add(r1.code + seq![j] + r2.code, tail);
        assert(dsts(binop_code(op, r1, r2, v, l).code) =~= d1 + d2);
        lemma_widen(d1 + d2, v, top, v, top + 1);
    } else {
        let x = SpecIRInstruction::Binary(op, r1.val, r2.val, dst);
        lemma_dsts_add(r1.code, r2.code);
        lemma_dsts_push(r1.code + r2.code, x);
        assert((r1.code + r2.code).push(x) =~= r1.code + r2.code + seq![x]);
        assert(dst_of(x) =~= seq![top]);
        lemma_within_one(top);
        lemma_join(d1 + d2, seq![top], v, top, top + 1, true);
    }
}

proof fn lemma_factor_temps(f: SpecFactor, v: int, l: int)
    requires
        factor_ir(f, v, l) is Some,
        0 <= v,
        v + factor_ir(f, v, l).unwrap().temps <= u32::MAX + 1,
    ensures
        within(dsts(factor_ir(f, v, l).unwrap().code), v, v + factor_ir(f, v, l).unwrap().temps),
    decreases f, 1int,
{
    match f {
        SpecFactor::Unary(op, g) => {
            lemma_factor_temps(*g, v, l);
            let r = factor_ir(*g, v, l).unwrap();
            let top = v + r.temps;
            let x = SpecIRInstruction::Unary(op, r.val, temp(top));
            lemma_dsts_push(r.code, x);
            assert(dst_of(x) =~= seq![top]);
            lemma_within_one(top);
            lemma_join(dsts(r.code), seq![top], v, top, top + 1, true);
        },
        SpecFactor::Expression(e) => lemma_expr_temps(e, v, l),
        SpecFactor::FunctionCall(name, args) => {
            lemma_args_temps(args, v + 1, l);
            let (vals, a) = args_ir(args, v + 1, l).unwrap();
            let x = SpecIRInstruction::FnCall(name, vals, temp(v));
            lemma_dsts_push(a.code, x);
            assert(dst_of(x) =~= seq![v]);
            lemma_within_one(v);
            lemma_join(dsts(a.code), seq![v], v, v + 1, v + 1 + a.temps, false);
        },
        _ => lemma_no_dsts(),
    }
}

proof fn lemma_args_temps(args: Seq<SpecExpression>, v: int, l: int)
    requires
        args_ir(args, v, l) is Some,
        0 <= v,
        v + args_ir(args, v, l).unwrap().1.temps <= u32::MAX + 1,
    ensures
        within(dsts(args_ir(args, v, l).unwrap().1.code), v, v + args_ir(args, v, l).unwrap().1.temps),
    decreases args, 1int,
{
    if args.len() > 0 {
        lemma_expr_temps(args[0], v, l);
        let r = exp_ir(args[0], v, l).unwrap();
        lemma_args_temps(args.drop_first(), v + r.temps, l + r.labels);
        let rest = args_ir(args.drop_first(), v + r.temps, l + r.labels).unwrap().1;
        lemma_dsts_add(r.code, rest.code);
        lemma_join(dsts(r.code), dsts(rest.code), v, v + r.temps, v + r.temps + rest.temps, true);
    } else {
        lemma_no_dsts();
    }
}

proof fn lemma_effect_temps(e: Option<SpecExpression>, v: int, l: int)
    requires
        effect_ir(e, v, l) is Some,
        0 <= v,
        v + effect_ir(e, v, l).unwrap().temps <= u32::MAX + 1,
    ensures
        within(dsts(effect_ir(e, v, l).unwrap().code), v, v + effect_ir(e, v, l).unwrap().temps),
{
    match e {
        Some(x) => lemma_expr_temps(x, v, l),
        None => lemma_no_dsts(),
    }
}

proof fn lemma_var_decl_temps(d: SpecVarDecl, v: int, l: int)
    requires
        var_decl_ir(d, v, l) is Some,
        0 <= v,
        v + var_decl_ir(d, v, l).unwrap().temps <= u32::MAX + 1,
    ensures
        within(dsts(var_decl_ir(d, v, l).unwrap().code), v, v + var_decl_ir(d, v, l).unwrap().temps),
{
    match d.init {
        Some(e) => {
            lemma_expr_temps(e, v, l);
            let r = exp_ir(e, v, l).unwrap();
            lemma_dsts_push_none(r.code, SpecIRInstruction::Copy(r.val, IRVal::Var(d.var.id.unwrap())));
        },
        None => lemma_no_dsts(),
    }
}

proof fn lemma_for_init_temps(init: SpecForInit, v: int, l: int)
    requires
        for_init_ir(init, v, l) is Some,
        0 <= v,
        v + for_init_ir(init, v, l).unwrap().temps <= u32::MAX + 1,
    ensures
        within(dsts(for_init_ir(init, v, l).unwrap().code), v, v + for_init_ir(init, v, l).unwrap().temps),
{
    match init {
        SpecForInit::InitDecl(d) => lemma_var_decl_temps(d, v, l),
        SpecForInit::InitExp(e) => lemma_effect_temps(e, v, l),
    }
}

proof fn lemma_for_cond_temps(cond: Option<SpecExpression>, start: crate::ir::ir_ast::Label, v: int, l: int)
    requires
        for_cond_ir(cond, start, v, l) is Some,
        0 <= v,
        v + for_cond_ir(cond, start, v, l).unwrap().temps <= u32::MAX + 1,
    ensures
        within(dsts(for_cond_ir(cond, start, v, l).unwrap().code), v, v + for_cond_ir(cond, start, v, l).unwrap().temps),
{
    match cond {
        Some(c) => {
            lemma_expr_temps(c, v, l);
            let r = exp_ir(c, v, l).unwrap();
            lemma_dsts_push_none(r.code, SpecIRInstruction::JumpIfZero(r.val, break_of(start)));
        },
        None => lemma_no_dsts(),
    }
}

proof fn lemma_stmt_temps(s: SpecStatement, v: int, l: int)
    requires
        stmt_ir(s, v, l) is Some,
        0 <= v,
        v + stmt_ir(s, v, l).unwrap().temps <= u32::MAX + 1,
    ensures
        within(dsts(stmt_ir(s, v, l).unwrap().code), v, v + stmt_ir(s, v, l).unwrap().temps),
    decreases s, 0int,
{
    match s {
        SpecStatement::Return(e) => {
            lemma_expr_temps(e, v, l);
            let r = exp_ir(e, v, l).unwrap();
            lemma_dsts_push_none(r.code, SpecIRInstruction::Return(r.val));
        },
        SpecStatement::Expression(e) => lemma_expr_temps(e, v, l),
        SpecStatement::If { cond, then, else_ } => {
            lemma_expr_temps(cond, v, l);
            let c = exp_ir(cond, v, l).unwrap();
            lemma_stmt_temps(*then, v + c.temps, l + c.labels);
            let t = stmt_ir(*then, v + c.temps, l + c.labels).unwrap();
            match else_ {
                Some(es) => {
                    lemma_stmt_temps(*es, v + c.temps + t.temps, l + c.labels + t.labels + 1);
                    let e = stmt_ir(*es, v + c.temps + t.temps, l + c.labels + t.labels + 1).unwrap();
                    lemma_if_else_temps(c, t, e, v, l);
                },
                None => lemma_if_temps(c, t, v, l),
            }
        },
        SpecStatement::Compound(items) => lemma_items_temps(items, v, l),
        SpecStatement::Break(label) => lemma_dsts_one(SpecIRInstruction::Jump(label.unwrap())),
        SpecStatement::Continue(label) => lemma_dsts_one(SpecIRInstruction::Jump(label.unwrap())),
        SpecStatement::While { cond, body, label } => {
            lemma_expr_temps(cond, v, l);
            let c = exp_ir(cond, v, l).unwrap();
            lemma_stmt_temps(*body, v + c.temps, l + c.labels);
            let b = stmt_ir(*body, v + c.temps, l + c.labels).unwrap();
            lemma_while_temps(label.unwrap(), c, b, v);
        },
        SpecStatement::DoWhile { body, cond, label } => {
            lemma_expr_temps(cond, v, l);
            let c = exp_ir(cond, v, l).unwrap();
            lemma_stmt_temps(*body, v + c.temps, l + c.labels);
            let b = stmt_ir(*body, v + c.temps, l + c.labels).unwrap();
            lemma_do_while_temps(label.unwrap(), c, b, v);
        },
        SpecStatement::For { init, cond, post, body, label } => {
            let start = label.unwrap();
            lemma_for_init_temps(init, v, l);
            let i = for_init_ir(init, v, l).unwrap();
            lemma_for_cond_temps(cond, start, v + i.temps, l + i.labels);
            let c = for_cond_ir(cond, start, v + i.temps, l + i.labels).unwrap();
            lemma_stmt_temps(*body, v + i.temps + c.temps, l + i.labels + c.labels);
            let b = stmt_ir(*body, v + i.temps + c.temps, l + i.labels + c.labels).unwrap();
            lemma_effect_temps(post, v + i.temps + c.temps + b.temps, l + i.labels + c.labels + b.labels);
            let q = effect_ir(post, v + i.temps + c.temps + b.temps, l + i.labels + c.labels + b.labels).unwrap();
            lemma_for_temps(start, i, c, b, q, v);
        },
        SpecStatement::Null => lemma_no_dsts(),
    }
}

proof fn lemma_while_temps(start: crate::ir::ir_ast::Label, c: ExpCode, b: Code, v: int)
    requires
        within(dsts(c.code), v, v + c.temps),
        within(dsts(b.code), v + c.temps, v + c.temps + b.temps),
    ensures
        within(dsts(while_code(start, c, b).code), v, v + while_code(start, c, b).temps),
{
    let a = seq![SpecIRInstruction::Label(continue_of(start))];
    let j = seq![SpecIRInstruction::JumpIfZero(c.val, break_of(start))];
    let z = seq![SpecIRInstruction::Jump(continue_of(start)), SpecIRInstruction::Label(break_of(start))];
    lemma_dsts_one(a[0]);
    lemma_dsts_one(j[0]);
    lemma_dsts_lit2(z[0], z[1]);
    lemma_dsts_add(a, c.code);
    lemma_dsts_add(a + c.code, j);
    lemma_dsts_add(a + c.code + j, b.code);
    lemma_dsts_add(a + c.code + j + b.code, z);
    assert(dsts(while_code(start, c, b).code) =~= dsts(c.code) + dsts(b.code));
    lemma_join(dsts(c.code), dsts(b.code), v, v + c.temps, v + c.temps + b.temps, true);
}

proof fn lemma_do_while_temps(start: crate::ir::ir_ast::Label, c: ExpCode, b: Code, v: int)
    requires
        within(dsts(c.code), v, v + c.temps),
        within(dsts(b.code), v + c.temps, v + c.temps + b.temps),
    ensures
        within(dsts(do_while_code(start, c, b).code), v, v + do_while_code(start, c, b).temps),
{
    let a = seq![SpecIRInstruction::Label(start)];
    let m = seq![SpecIRInstruction::Label(continue_of(start))];
    let z = seq![SpecIRInstruction::JumpIfNotZero(c.val, start), SpecIRInstruction::Label(break_of(start))];
    lemma_dsts_one(a[0]);
    lemma_dsts_one(m[0]);
    lemma_dsts_lit2(z[0], z[1]);
    lemma_dsts_add(a, b.code);
    lemma_dsts_add(a + b.code, m);
    lemma_dsts_add(a + b.code + m, c.code);
    lemma_dsts_add(a + b.code + m + c.code, z);
    assert(dsts(do_while_code(start, c, b).code) =~= dsts(b.code) + dsts(c.code));
    lemma_join(dsts(b.code), dsts(c.code), v, v + c.temps, v + c.temps + b.temps, false);
}

proof fn lemma_if_temps(c: ExpCode, t: Code, v: int, l: int)
    requires
        within(dsts(c.code), v, v + c.temps),
        within(dsts(t.code), v + c.temps, v + c.temps + t.temps),
    ensures
        within(dsts(if_code(c, t, l).code), v, v + if_code(c, t, l).temps),
{
    let end_label = label_at(LabelKind::End, l + c.labels + t.labels);
    let j = seq![SpecIRInstruction::JumpIfZero(c.val, end_label)];
    let z = seq![SpecIRInstruction::Label(end_label)];
    lemma_dsts_one(j[0]);
    lemma_dsts_one(z[0]);
    lemma_dsts_add(c.code, j);
    lemma_dsts_add(c.code + j, t.code);
    lemma_dsts_add(c.code + j + t.code, z);
    assert(dsts(if_code(c, t, l).code) =~= dsts(c.code) + dsts(t.code));
    lemma_join(dsts(c.code), dsts(t.code), v, v + c.temps, v + c.temps + t.temps, true);
}

proof fn lemma_if_else_temps(c: ExpCode, t: Code, e: Code, v: int, l: int)
    requires
        within(dsts(c.code), v, v + c.temps),
        within(dsts(t.code), v + c.temps, v + c.temps + t.temps),
        within(dsts(e.code), v + c.temps + t.temps, v + c.temps + t.temps + e.temps),
    ensures
        within(dsts(if_else_code(c, t, e, l).code), v, v + if_else_code(c, t, e, l).temps),
{
    let lb = l + c.labels + t.labels;
    let end_label = label_at(LabelKind::End, lb);
    let else_label = label_at(LabelKind::Else, lb + 1 + e.labels);
    let j = seq![SpecIRInstruction::JumpIfZero(c.val, else_label)];
    let m = seq![SpecIRInstruction::Jump(end_label), SpecIRInstruction::Label(else_label)];
    let z = seq![SpecIRInstruction::Label(end_label)];
    lemma_dsts_one(j[0]);
    lemma_dsts_lit2(m[0], m[1]);
    lemma_dsts_one(z[0]);
    lemma_dsts_add(c.code, j);
    lemma_dsts_add(c.code + j, t.code);
    lemma_dsts_add(c.code + j + t.code, m);
    lemma_dsts_add(c.code + j + t.code + m, e.code);
    lemma_dsts_add(c.code + j + t.code + m + e.code, z);
    let dc = dsts(c.code);
    let dt = dsts(t.code);
    let de = dsts(e.code);
    assert(dsts(if_else_code(c, t, e, l).code) =~= (dc + dt) + de);
    lemma_join(dc, dt, v, v + c.temps, v + c.temps + t.temps, true);
    lemma_join(dc + dt, de, v, v + c.temps + t.temps, v + c.temps + t.temps + e.temps, true);
}

proof fn lemma_for_temps(start: crate::ir::ir_ast::Label, i: Code, c: Code, b: Code, p: Code, v: int)
    requires
        within(dsts(i.code), v, v + i.temps),
        within(dsts(c.code), v + i.temps, v + i.temps + c.temps),
        within(dsts(b.code), v + i.temps + c.temps, v + i.temps + c.temps + b.temps),
        within(dsts(p.code), v + i.temps + c.temps + b.temps, v + i.temps + c.temps + b.temps + p.temps),
    ensures
        within(dsts(for_code(start, i, c, b, p).code), v, v + for_code(start, i, c, b, p).temps),
{
    let a = seq![SpecIRInstruction::Label(start)];
    let m = seq![SpecIRInstruction::Label(continue_of(start))];
    let z = seq![SpecIRInstruction::Jump(start), SpecIRInstruction::Label(break_of(start))];
    lemma_dsts_one(a[0]);
    lemma_dsts_one(m[0]);
    lemma_dsts_lit2(z[0], z[1]);
    lemma_dsts_add(i.code, a);
    lemma_dsts_add(i.code + a, c.code);
    lemma_dsts_add(i.code + a + c.code, b.code);
    lemma_dsts_add(i.code + a + c.code + b.code, m);
    lemma_dsts_add(i.code + a + c.code + b.code + m, p.code);
    lemma_dsts_add(i.code + a + c.code + b.code + m + p.code, z);
    let di = dsts(i.code);
    let dc = dsts(c.code);
    let db = dsts(b.code);
    let dp = dsts(p.code);
    assert(dsts(for_code(start, i, c, b, p).code) =~= ((di + dc) + db) + dp);
    let v1 = v + i.temps;
    let v2 = v1 + c.temps;
    let v3 = v2 + b.temps;
    lemma_join(di, dc, v, v1, v2, true);
    lemma_join(di + dc, db, v, v2, v3, true);
    lemma_join((di + dc) + db, dp, v, v3, v3 + p.temps, true);
}

proof fn lemma_item_temps(it: SpecBlockItem, v: int, l: int)
    requires
        item_ir(it, v, l) is Some,
        0 <= v,
        v + item_ir(it, v, l).unwrap().temps <= u32::MAX + 1,
    ensures
        within(dsts(item_ir(it, v, l).unwrap().code), v, v + item_ir(it, v, l).unwrap().temps),
    decreases it, 0int,
{
    match it {
        SpecBlockItem::Statement(s) => lemma_stmt_temps(s, v, l),
        SpecBlockItem::Declaration(SpecDeclaration::VarDecl(d)) => lemma_var_decl_temps(d, v, l),
        SpecBlockItem::Declaration(SpecDeclaration::FnDecl(f)) => match f.body {
            Some(b) => {
                lemma_items_temps(b, v, l);
                let c = items_ir(b, v, l).unwrap();
                lemma_dsts_push_none(c.code, SpecIRInstruction::Return(IRVal::Constant(0)));
            },
            None => lemma_no_dsts(),
        },
    }
}

proof fn lemma_items_temps(items: Seq<SpecBlockItem>, v: int, l: int)
    requires
        items_ir(items, v, l) is Some,
        0 <= v,
        v + items_ir(items, v, l).unwrap().temps <= u32::MAX + 1,
    ensures
        within(dsts(items_ir(items, v, l).unwrap().code), v, v + items_ir(items, v, l).unwrap().temps),
    decreases items, 0int,
{
    if items.len() == 0 {
        lemma_no_dsts();
    } else {
        lemma_item_temps(items[0], v, l);
        let a = item_ir(items[0], v, l).unwrap();
        lemma_items_temps(items.drop_first(), v + a.temps, l + a.labels);
        let b = items_ir(items.drop_first(), v + a.temps, l + a.labels).unwrap();
        lemma_dsts_add(a.code, b.code);
        lemma_join(dsts(a.code), dsts(b.code), v, v + a.temps, v + a.temps + b.temps, true);
    }
}

/// Translating one statement draws its temporaries fresh: the unary,
/// binary and call instructions of its code compute into temporaries that
/// are all different and lie in `[v, v + t)`, `t` being the number of
/// temporaries it drew, so that a later translation, which draws from
/// `v + t` on, never computes into them again.
pub proof fn lemma_statement_temps_fresh(s: SpecStatement, v: int, l: int)
    requires
        stmt_ir(s, v, l) is Some,
        0 <= v,
        v + stmt_ir(s, v, l).unwrap().temps <= u32::MAX + 1,
    ensures
        ({
            let ids = dsts(stmt_ir(s, v, l).unwrap().code);
            &&& no_repeats(ids)
            &&& forall|k: int| 0 <= k < ids.len() ==> v <= #[trigger] ids[k] < v + stmt_ir(s, v, l).unwrap().temps
        }),
{
    lemma_stmt_temps(s, v, l);
}

} // verus!
