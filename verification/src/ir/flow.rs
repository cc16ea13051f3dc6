use vstd::prelude::*;

use crate::common::TempId;
use crate::fresh::within;
use crate::ir::ir_ast::{IRVal, Label, LabelKind, SpecIRInstruction};
use crate::ir::labels::{
    drawn_kind, drawn_labels, kind_ids, lemma_expr_labels, lemma_effect_no_loop_labels, lemma_expr_no_loop_labels, lemma_for_init_no_loop_labels,
    lemma_statement_labels_fresh,
    lemma_stmt_loop_labels, loop_kind, loops_in_stmt, marked_stmt, numbered_stmt,
};
use crate::ir::{break_of, continue_of, effect_ir, exp_ir, for_cond_ir, for_init_ir, label_at, stmt_ir};
use crate::parser::semantic_analysis::loop_label;
use crate::parser::c_ast::{SpecExpression, SpecForInit, SpecStatement};

verus! {

/// The value of an operand when each location `t` holds `env(t)`.
pub open spec fn ir_value(env: spec_fn(TempId) -> int, v: IRVal) -> int {
    match v {
        IRVal::Constant(n) => n as int,
        IRVal::Var(t) => env(t),
    }
}

/// Instruction `k` of `code` defines the label `lb`.
pub open spec fn defines(code: Seq<SpecIRInstruction>, k: int, lb: Label) -> bool {
    0 <= k < code.len() && code[k] == SpecIRInstruction::Label(lb)
}

/// Control passes from instruction `pc` of `code` to instruction `target`
/// when the locations hold `env`: a jump that is taken goes to an
/// instruction that defines its label, any other instruction but a return
/// goes on to the next one, and a return leaves the code.
pub open spec fn ir_transfers(code: Seq<SpecIRInstruction>, pc: int, env: spec_fn(TempId) -> int, target: int) -> bool {
    0 <= pc < code.len() && match code[pc] {
        SpecIRInstruction::Return(_) => false,
        SpecIRInstruction::Jump(lb) => defines(code, target, lb),
        SpecIRInstruction::JumpIfZero(x, lb) => if ir_value(env, x) == 0 {
            defines(code, target, lb)
        } else {
            target == pc + 1
        },
        SpecIRInstruction::JumpIfNotZero(x, lb) => if ir_value(env, x) != 0 {
            defines(code, target, lb)
        } else {
            target == pc + 1
        },
        _ => target == pc + 1,
    }
}

proof fn lemma_defined_label_drawn(code: Seq<SpecIRInstruction>, k: int, lb: Label)
    requires
        defines(code, k, lb),
        drawn_kind(lb.kind),
    ensures
        drawn_labels(code).contains(lb.id as int),
    decreases code.len(),
{
    if k == 0 {
        assert(drawn_labels(code)[0] == lb.id as int);
    } else {
        assert(code.drop_first()[k - 1] == code[k]);
        lemma_defined_label_drawn(code.drop_first(), k - 1, lb);
        let rest = drawn_labels(code.drop_first());
        let j = choose|j: int| 0 <= j < rest.len() && rest[j] == lb.id as int;
        match code[0] {
            SpecIRInstruction::Label(l0) => if drawn_kind(l0.kind) {
                assert(drawn_labels(code)[j + 1] == rest[j]);
            } else {
                assert(drawn_labels(code) == rest);
            },
            _ => assert(drawn_labels(code) == rest),
        }
    }
}

proof fn lemma_not_defined_in(part: Seq<SpecIRInstruction>, lo: int, hi: int, lb: Label)
    requires
        within(drawn_labels(part), lo, hi),
        drawn_kind(lb.kind),
        !(lo <= lb.id as int && (lb.id as int) < hi),
    ensures
        forall|k: int| !defines(part, k, lb),
{
    assert forall|k: int| !defines(part, k, lb) by {
        if defines(part, k, lb) {
            lemma_defined_label_drawn(part, k, lb);
            let ids = drawn_labels(part);
            let i = choose|i: int| 0 <= i < ids.len() && ids[i] == lb.id as int;
            assert(lo <= ids[i] < hi);
        }
    }
}

/// An `if` without `else` decides at the jump that follows the code of its
/// condition: when the condition's value is zero, control passes over the
/// whole then-part to the end; otherwise it enters the then-part. So the
/// then-part runs exactly when the condition is nonzero. It holds of a
/// statement whose loops carry loop labels, with labels drawn within `u32`.
pub proof fn lemma_if_runs_then_part_iff_nonzero(
    cond: SpecExpression,
    then: SpecStatement,
    v: int,
    l: int,
    env: spec_fn(TempId) -> int,
)
    requires
        stmt_ir(SpecStatement::If { cond, then: Box::new(then), else_: None }, v, l) is Some,
        marked_stmt(then),
        0 <= l,
        l + stmt_ir(SpecStatement::If { cond, then: Box::new(then), else_: None }, v, l).unwrap().labels <= u32::MAX + 1,
    ensures
        ({
            let c = exp_ir(cond, v, l).unwrap();
            let t = stmt_ir(then, v + c.temps, l + c.labels).unwrap();
            let code = stmt_ir(SpecStatement::If { cond, then: Box::new(then), else_: None }, v, l).unwrap().code;
            let pc = c.code.len() as int;
            &&& code.take(pc) == c.code
            &&& code.subrange(pc + 1, pc + 1 + t.code.len()) == t.code
            &&& forall|target: int|
                ir_transfers(code, pc, env, target) <==> target == (if ir_value(env, c.val) == 0 {
                    pc + 1 + t.code.len()
                } else {
                    pc + 1
                })
        }),
{
    let c = exp_ir(cond, v, l).unwrap();
    let t = stmt_ir(then, v + c.temps, l + c.labels).unwrap();
    let code = stmt_ir(SpecStatement::If { cond, then: Box::new(then), else_: None }, v, l).unwrap().code;
    let pc = c.code.len() as int;
    let n = l + c.labels + t.labels;
    let end_label = label_at(LabelKind::End, n);
    let j = SpecIRInstruction::JumpIfZero(c.val, end_label);
    assert(code == c.code + seq![j] + t.code + seq![SpecIRInstruction::Label(end_label)]);
    assert(code.take(pc) =~= c.code);
    assert(code.subrange(pc + 1, pc + 1 + t.code.len()) =~= t.code);
    assert(code[pc] == j);
    let last = pc + 1 + t.code.len();
    assert(code[last] == SpecIRInstruction::Label(end_label));
    assert(code.len() == last + 1);
    assert(end_label.id as int == n);
    lemma_expr_labels(cond, v, l);
    lemma_statement_labels_fresh(then, v + c.temps, l + c.labels);
    assert forall|target: int| defines(code, target, end_label) implies target == last by {
        if target < pc {
            assert(c.code[target] == code[target]);
            lemma_defined_label_drawn(c.code, target, end_label);
            let ids = drawn_labels(c.code);
            let k = choose|k: int| 0 <= k < ids.len() && ids[k] == n;
            assert(within(ids, l, l + c.labels));
            assert(ids[k] < l + c.labels);
        } else if target > pc && target < last {
            assert(t.code[target - pc - 1] == code[target]);
            lemma_defined_label_drawn(t.code, target - pc - 1, end_label);
            let ids = drawn_labels(t.code);
            let k = choose|k: int| 0 <= k < ids.len() && ids[k] == n;
            assert(ids[k] < l + c.labels + t.labels);
        }
    }
}

/// An `if` with `else` decides at the jump that follows the code of its
/// condition: when the condition's value is zero, control passes over the
/// then-part to the else-part; otherwise it enters the then-part, at whose
/// end a jump passes over the else-part to the end. So exactly one of the
/// two parts runs: the then-part when the condition is nonzero, the
/// else-part when it is zero.
pub proof fn lemma_if_else_runs_one_part(
    cond: SpecExpression,
    then: SpecStatement,
    else_: SpecStatement,
    v: int,
    l: int,
    env: spec_fn(TempId) -> int,
)
    requires
        stmt_ir(SpecStatement::If { cond, then: Box::new(then), else_: Some(Box::new(else_)) }, v, l) is Some,
        marked_stmt(then),
        marked_stmt(else_),
        0 <= l,
        l + stmt_ir(SpecStatement::If { cond, then: Box::new(then), else_: Some(Box::new(else_)) }, v, l).unwrap().labels
            <= u32::MAX + 1,
    ensures
        ({
            let c = exp_ir(cond, v, l).unwrap();
            let t = stmt_ir(then, v + c.temps, l + c.labels).unwrap();
            let e = stmt_ir(else_, v + c.temps + t.temps, l + c.labels + t.labels + 1).unwrap();
            let code = stmt_ir(SpecStatement::If { cond, then: Box::new(then), else_: Some(Box::new(else_)) }, v, l).unwrap().code;
            let pc = c.code.len() as int;
            let then_end = pc + 1 + t.code.len();
            let else_at = then_end + 1;
            let else_start = else_at + 1;
            let last = else_start + e.code.len();
            &&& code.take(pc) == c.code
            &&& code.subrange(pc + 1, then_end) == t.code
            &&& code.subrange(else_start, last) == e.code
            &&& code.len() == last + 1
            &&& forall|target: int|
                ir_transfers(code, pc, env, target) <==> target == (if ir_value(env, c.val) == 0 {
                    else_at
                } else {
                    pc + 1
                })
            &&& forall|target: int| ir_transfers(code, then_end, env, target) <==> target == last
            &&& forall|target: int| ir_transfers(code, else_at, env, target) <==> target == else_start
        }),
{
    let c = exp_ir(cond, v, l).unwrap();
    let t = stmt_ir(then, v + c.temps, l + c.labels).unwrap();
    let e = stmt_ir(else_, v + c.temps + t.temps, l + c.labels + t.labels + 1).unwrap();
    let code = stmt_ir(SpecStatement::If { cond, then: Box::new(then), else_: Some(Box::new(else_)) }, v, l).unwrap().code;
    let pc = c.code.len() as int;
    let then_end = pc + 1 + t.code.len();
    let else_start = then_end + 2;
    let last = else_start + e.code.len();
    let n = l + c.labels + t.labels;
    let end_label = label_at(LabelKind::End, n);
    let else_label = label_at(LabelKind::Else, n + 1 + e.labels);
    let j = SpecIRInstruction::JumpIfZero(c.val, else_label);
    assert(code == c.code + seq![j] + t.code + seq![
        SpecIRInstruction::Jump(end_label),
        SpecIRInstruction::Label(else_label),
    ] + e.code + seq![SpecIRInstruction::Label(end_label)]);
    assert(code.take(pc) =~= c.code);
    assert(code.subrange(pc + 1, then_end) =~= t.code);
    assert(code.subrange(else_start, last) =~= e.code);
    assert(code[pc] == j);
    assert(code[then_end] == SpecIRInstruction::Jump(end_label));
    assert(code[else_start - 1] == SpecIRInstruction::Label(else_label));
    assert(code[last] == SpecIRInstruction::Label(end_label));
    assert(end_label.id as int == n);
    assert(else_label.id as int == n + 1 + e.labels);
    lemma_expr_labels(cond, v, l);
    lemma_statement_labels_fresh(then, v + c.temps, l + c.labels);
    lemma_statement_labels_fresh(else_, v + c.temps + t.temps, n + 1);
    lemma_not_defined_in(c.code, l, l + c.labels, end_label);
    lemma_not_defined_in(c.code, l, l + c.labels, else_label);
    lemma_not_defined_in(t.code, l + c.labels, n, end_label);
    lemma_not_defined_in(t.code, l + c.labels, n, else_label);
    lemma_not_defined_in(e.code, n + 1, n + 1 + e.labels, end_label);
    lemma_not_defined_in(e.code, n + 1, n + 1 + e.labels, else_label);
    assert forall|target: int| defines(code, target, end_label) implies target == last by {
        if target < pc {
            assert(c.code[target] == code[target]);
            assert(defines(c.code, target, end_label));
        } else if pc < target < then_end {
            assert(t.code[target - pc - 1] == code[target]);
            assert(defines(t.code, target - pc - 1, end_label));
        } else if else_start <= target < last {
            assert(e.code[target - else_start] == code[target]);
            assert(defines(e.code, target - else_start, end_label));
        }
    }
    assert forall|target: int| defines(code, target, else_label) implies target == else_start - 1 by {
        if target < pc {
            assert(c.code[target] == code[target]);
            assert(defines(c.code, target, else_label));
        } else if pc < target < then_end {
            assert(t.code[target - pc - 1] == code[target]);
            assert(defines(t.code, target - pc - 1, else_label));
        } else if else_start <= target < last {
            assert(e.code[target - else_start] == code[target]);
            assert(defines(e.code, target - else_start, else_label));
        }
    }
}

proof fn lemma_defined_kind_listed(code: Seq<SpecIRInstruction>, k: int, lb: Label)
    requires
        defines(code, k, lb),
    ensures
        kind_ids(code, lb.kind).contains(lb.id as int),
    decreases code.len(),
{
    if k == 0 {
        assert(kind_ids(code, lb.kind)[0] == lb.id as int);
    } else {
        assert(code.drop_first()[k - 1] == code[k]);
        lemma_defined_kind_listed(code.drop_first(), k - 1, lb);
        let rest = kind_ids(code.drop_first(), lb.kind);
        let j = choose|j: int| 0 <= j < rest.len() && rest[j] == lb.id as int;
        let head = match code[0] {
            SpecIRInstruction::Label(l0) => if l0.kind == lb.kind { seq![l0.id as int] } else { Seq::<int>::empty() },
            _ => Seq::<int>::empty(),
        };
        assert(kind_ids(code, lb.kind) == head + rest);
        assert(kind_ids(code, lb.kind)[head.len() + j] == rest[j]);
    }
}

proof fn lemma_kind_not_defined_in(part: Seq<SpecIRInstruction>, lo: int, hi: int, lb: Label)
    requires
        within(kind_ids(part, lb.kind), lo, hi),
        !(lo <= lb.id as int && (lb.id as int) < hi),
    ensures
        forall|k: int| !defines(part, k, lb),
{
    assert forall|k: int| !defines(part, k, lb) by {
        if defines(part, k, lb) {
            lemma_defined_kind_listed(part, k, lb);
            let ids = kind_ids(part, lb.kind);
            let i = choose|i: int| 0 <= i < ids.len() && ids[i] == lb.id as int;
            assert(lo <= ids[i] < hi);
        }
    }
}

/// A `while` loop tests its condition before each pass: control enters at
/// the condition's code; at the jump that follows it, a zero value leaves
/// the loop (to its last instruction, past the body) and a nonzero value
/// enters the body; at the end of the body control goes back to the start,
/// to test again. It holds of a loop labelled with the number `lo` whose
/// inner loops carry the numbers after it.
pub proof fn lemma_while_tests_before_each_pass(
    cond: SpecExpression,
    body: SpecStatement,
    lo: int,
    v: int,
    l: int,
    env: spec_fn(TempId) -> int,
)
    requires
        stmt_ir(SpecStatement::While { cond, body: Box::new(body), label: Some(loop_label(lo)) }, v, l) is Some,
        numbered_stmt(body, lo + 1),
        0 <= lo,
        lo + 1 + loops_in_stmt(body) <= u32::MAX + 1,
    ensures
        ({
            let c = exp_ir(cond, v, l).unwrap();
            let b = stmt_ir(body, v + c.temps, l + c.labels).unwrap();
            let code = stmt_ir(SpecStatement::While { cond, body: Box::new(body), label: Some(loop_label(lo)) }, v, l).unwrap().code;
            let pc = 1 + c.code.len() as int;
            let back = pc + 1 + b.code.len();
            let last = back + 1;
            &&& code.subrange(1, pc) == c.code
            &&& code.subrange(pc + 1, back) == b.code
            &&& code.len() == last + 1
            &&& forall|target: int| ir_transfers(code, 0, env, target) <==> target == 1
            &&& forall|target: int|
                ir_transfers(code, pc, env, target) <==> target == (if ir_value(env, c.val) == 0 {
                    last
                } else {
                    pc + 1
                })
            &&& forall|target: int| ir_transfers(code, back, env, target) <==> target == 0
        }),
{
    let c = exp_ir(cond, v, l).unwrap();
    let b = stmt_ir(body, v + c.temps, l + c.labels).unwrap();
    let code = stmt_ir(SpecStatement::While { cond, body: Box::new(body), label: Some(loop_label(lo)) }, v, l).unwrap().code;
    let pc = 1 + c.code.len() as int;
    let back = pc + 1 + b.code.len();
    let last = back + 1;
    let start = loop_label(lo);
    let cont = continue_of(start);
    let brk = break_of(start);
    assert(code == seq![SpecIRInstruction::Label(cont)] + c.code + seq![SpecIRInstruction::JumpIfZero(c.val, brk)]
        + b.code + seq![SpecIRInstruction::Jump(cont), SpecIRInstruction::Label(brk)]);
    assert(code.subrange(1, pc) =~= c.code);
    assert(code.subrange(pc + 1, back) =~= b.code);
    assert(code[0] == SpecIRInstruction::Label(cont));
    assert(code[pc] == SpecIRInstruction::JumpIfZero(c.val, brk));
    assert(code[back] == SpecIRInstruction::Jump(cont));
    assert(code[last] == SpecIRInstruction::Label(brk));
    assert(cont.id as int == lo && brk.id as int == lo);
    lemma_expr_no_loop_labels(cond, v, l, LabelKind::Continue);
    lemma_expr_no_loop_labels(cond, v, l, LabelKind::Break);
    lemma_stmt_loop_labels(body, v + c.temps, l + c.labels, lo + 1, LabelKind::Continue);
    lemma_stmt_loop_labels(body, v + c.temps, l + c.labels, lo + 1, LabelKind::Break);
    lemma_kind_not_defined_in(c.code, 0, 0, cont);
    lemma_kind_not_defined_in(c.code, 0, 0, brk);
    lemma_kind_not_defined_in(b.code, lo + 1, lo + 1 + loops_in_stmt(body), cont);
    lemma_kind_not_defined_in(b.code, lo + 1, lo + 1 + loops_in_stmt(body), brk);
    assert forall|target: int| defines(code, target, brk) implies target == last by {
        if 1 <= target < pc {
            assert(c.code[target - 1] == code[target]);
            assert(defines(c.code, target - 1, brk));
        } else if pc < target < back {
            assert(b.code[target - pc - 1] == code[target]);
            assert(defines(b.code, target - pc - 1, brk));
        }
    }
    assert forall|target: int| defines(code, target, cont) implies target == 0 by {
        if 1 <= target < pc {
            assert(c.code[target - 1] == code[target]);
            assert(defines(c.code, target - 1, cont));
        } else if pc < target < back {
            assert(b.code[target - pc - 1] == code[target]);
            assert(defines(b.code, target - pc - 1, cont));
        }
    }
}

/// A `do`-`while` loop runs its body first and tests after each pass: at
/// the jump that follows the condition's code, a nonzero value goes back to
/// the start of the body and a zero value leaves the loop.
pub proof fn lemma_do_while_tests_after_each_pass(
    body: SpecStatement,
    cond: SpecExpression,
    lo: int,
    v: int,
    l: int,
    env: spec_fn(TempId) -> int,
)
    requires
        stmt_ir(SpecStatement::DoWhile { body: Box::new(body), cond, label: Some(loop_label(lo)) }, v, l) is Some,
        numbered_stmt(body, lo + 1),
        0 <= lo,
        lo + 1 + loops_in_stmt(body) <= u32::MAX + 1,
    ensures
        ({
            let c = exp_ir(cond, v, l).unwrap();
            let b = stmt_ir(body, v + c.temps, l + c.labels).unwrap();
            let code = stmt_ir(SpecStatement::DoWhile { body: Box::new(body), cond, label: Some(loop_label(lo)) }, v, l).unwrap().code;
            let test = 1 + b.code.len() as int + 1 + c.code.len() as int;
            &&& code.subrange(1, 1 + b.code.len() as int) == b.code
            &&& code.subrange(test - c.code.len(), test) == c.code
            &&& code.len() == test + 2
            &&& forall|target: int|
                ir_transfers(code, test, env, target) <==> target == (if ir_value(env, c.val) != 0 {
                    0
                } else {
                    test + 1
                })
        }),
{
    let c = exp_ir(cond, v, l).unwrap();
    let b = stmt_ir(body, v + c.temps, l + c.labels).unwrap();
    let code = stmt_ir(SpecStatement::DoWhile { body: Box::new(body), cond, label: Some(loop_label(lo)) }, v, l).unwrap().code;
    let blen = b.code.len() as int;
    let test = 1 + blen + 1 + c.code.len() as int;
    let start = loop_label(lo);
    let cont = continue_of(start);
    let brk = break_of(start);
    assert(code == seq![SpecIRInstruction::Label(start)] + b.code + seq![SpecIRInstruction::Label(cont)]
        + c.code + seq![SpecIRInstruction::JumpIfNotZero(c.val, start), SpecIRInstruction::Label(brk)]);
    assert(code.subrange(1, 1 + blen) =~= b.code);
    assert(code.subrange(test - c.code.len(), test) =~= c.code);
    assert(code[0] == SpecIRInstruction::Label(start));
    assert(code[1 + blen] == SpecIRInstruction::Label(cont));
    assert(code[test] == SpecIRInstruction::JumpIfNotZero(c.val, start));
    assert(code[test + 1] == SpecIRInstruction::Label(brk));
    lemma_expr_no_loop_labels(cond, v, l, LabelKind::LoopStart);
    lemma_stmt_loop_labels(body, v + c.temps, l + c.labels, lo + 1, LabelKind::LoopStart);
    lemma_kind_not_defined_in(c.code, 0, 0, start);
    lemma_kind_not_defined_in(b.code, lo + 1, lo + 1 + loops_in_stmt(body), start);
    assert forall|target: int| defines(code, target, start) implies target == 0 by {
        if 1 <= target < 1 + blen {
            assert(b.code[target - 1] == code[target]);
            assert(defines(b.code, target - 1, start));
        } else if 1 + blen < target < test {
            assert(c.code[target - 2 - blen] == code[target]);
            assert(defines(c.code, target - 2 - blen, start));
        }
    }
}

/// A `for` loop runs its first clause once, then tests its condition, if it
/// has one, before each pass: at the jump that follows the condition's code
/// a zero value leaves the loop (to its last instruction) and a nonzero
/// value enters the body; after the body and the third clause control goes
/// back to the test.
#[verifier::rlimit(80)]
#[verifier::spinoff_prover]
pub proof fn lemma_for_tests_before_each_pass(
    init: SpecForInit,
    cond: Option<SpecExpression>,
    post: Option<SpecExpression>,
    body: SpecStatement,
    lo: int,
    v: int,
    l: int,
    env: spec_fn(TempId) -> int,
)
    requires
        stmt_ir(
            SpecStatement::For { init, cond, post, body: Box::new(body), label: Some(loop_label(lo)) },
            v,
            l,
        ) is Some,
        numbered_stmt(body, lo + 1),
        0 <= lo,
        lo + 1 + loops_in_stmt(body) <= u32::MAX + 1,
    ensures
        ({
            let start = loop_label(lo);
            let i = for_init_ir(init, v, l).unwrap();
            let c = for_cond_ir(cond, start, v + i.temps, l + i.labels).unwrap();
            let b = stmt_ir(body, v + i.temps + c.temps, l + i.labels + c.labels).unwrap();
            let p = effect_ir(post, v + i.temps + c.temps + b.temps, l + i.labels + c.labels + b.labels).unwrap();
            let code = stmt_ir(
                SpecStatement::For { init, cond, post, body: Box::new(body), label: Some(loop_label(lo)) },
                v,
                l,
            ).unwrap().code;
            let top = i.code.len() as int;
            let body_at = top + 1 + c.code.len();
            let back = body_at + b.code.len() + 1 + p.code.len();
            &&& code.take(top) == i.code
            &&& code.subrange(body_at, body_at + b.code.len()) == b.code
            &&& code.len() == back + 2
            &&& forall|target: int| ir_transfers(code, back, env, target) <==> target == top
            &&& cond matches Some(e) ==> ({
                let r = exp_ir(e, v + i.temps, l + i.labels).unwrap();
                let test = top + 1 + r.code.len();
                &&& test + 1 == body_at
                &&& code.subrange(top + 1, test) == r.code
                &&& forall|target: int|
                    ir_transfers(code, test, env, target) <==> target == (if ir_value(env, r.val) == 0 {
                        back + 1
                    } else {
                        body_at
                    })
            })
        }),
{
    let start = loop_label(lo);
    let brk = break_of(start);
    let cont = continue_of(start);
    let i = for_init_ir(init, v, l).unwrap();
    let c = for_cond_ir(cond, start, v + i.temps, l + i.labels).unwrap();
    let b = stmt_ir(body, v + i.temps + c.temps, l + i.labels + c.labels).unwrap();
    let p = effect_ir(post, v + i.temps + c.temps + b.temps, l + i.labels + c.labels + b.labels).unwrap();
    let code = stmt_ir(
        SpecStatement::For { init, cond, post, body: Box::new(body), label: Some(loop_label(lo)) },
        v,
        l,
    ).unwrap().code;
    let top = i.code.len() as int;
    let body_at = top + 1 + c.code.len();
    let cont_at = body_at + b.code.len();
    let back = cont_at + 1 + p.code.len();
    assert(code == i.code + seq![SpecIRInstruction::Label(start)] + c.code + b.code
        + seq![SpecIRInstruction::Label(cont)] + p.code
        + seq![SpecIRInstruction::Jump(start), SpecIRInstruction::Label(brk)]);
    assert(code.take(top) =~= i.code);
    assert(code.subrange(body_at, cont_at) =~= b.code);
    assert(code[top] == SpecIRInstruction::Label(start));
    assert(code[cont_at] == SpecIRInstruction::Label(cont));
    assert(code[back] == SpecIRInstruction::Jump(start));
    assert(code[back + 1] == SpecIRInstruction::Label(brk));
    lemma_for_init_no_loop_labels(init, v, l, LabelKind::LoopStart);
    lemma_for_init_no_loop_labels(init, v, l, LabelKind::Break);
    lemma_stmt_loop_labels(body, v + i.temps + c.temps, l + i.labels + c.labels, lo + 1, LabelKind::LoopStart);
    lemma_stmt_loop_labels(body, v + i.temps + c.temps, l + i.labels + c.labels, lo + 1, LabelKind::Break);
    lemma_effect_no_loop_labels(post, v + i.temps + c.temps + b.temps, l + i.labels + c.labels + b.labels, LabelKind::LoopStart);
    lemma_effect_no_loop_labels(post, v + i.temps + c.temps + b.temps, l + i.labels + c.labels + b.labels, LabelKind::Break);
    lemma_kind_not_defined_in(i.code, 0, 0, start);
    lemma_kind_not_defined_in(i.code, 0, 0, brk);
    lemma_kind_not_defined_in(b.code, lo + 1, lo + 1 + loops_in_stmt(body), start);
    lemma_kind_not_defined_in(b.code, lo + 1, lo + 1 + loops_in_stmt(body), brk);
    lemma_kind_not_defined_in(p.code, 0, 0, start);
    lemma_kind_not_defined_in(p.code, 0, 0, brk);
    match cond {
        Some(e) => {
            let r = exp_ir(e, v + i.temps, l + i.labels).unwrap();
            assert(c.code == r.code.push(SpecIRInstruction::JumpIfZero(r.val, brk)));
            lemma_expr_no_loop_labels(e, v + i.temps, l + i.labels, LabelKind::LoopStart);
            lemma_expr_no_loop_labels(e, v + i.temps, l + i.labels, LabelKind::Break);
            lemma_kind_not_defined_in(r.code, 0, 0, start);
            lemma_kind_not_defined_in(r.code, 0, 0, brk);
            let test = top + 1 + r.code.len();
            assert(code.subrange(top + 1, test) =~= r.code);
            assert(code[test] == SpecIRInstruction::JumpIfZero(r.val, brk));
            assert forall|target: int| defines(code, target, brk) implies target == back + 1 by {
                if target < top {
                    assert(i.code[target] == code[target]);
                    assert(defines(i.code, target, brk));
                } else if top < target < test {
                    assert(r.code[target - top - 1] == code[target]);
                    assert(defines(r.code, target - top - 1, brk));
                } else if body_at <= target < cont_at {
                    assert(b.code[target - body_at] == code[target]);
                    assert(defines(b.code, target - body_at, brk));
                } else if cont_at < target < back {
                    assert(p.code[target - cont_at - 1] == code[target]);
                    assert(defines(p.code, target - cont_at - 1, brk));
                }
            }
            assert forall|target: int| defines(code, target, start) implies target == top by {
                if target < top {
                    assert(i.code[target] == code[target]);
                    assert(defines(i.code, target, start));
                } else if top < target < test {
                    assert(r.code[target - top - 1] == code[target]);
                    assert(defines(r.code, target - top - 1, start));
                } else if body_at <= target < cont_at {
                    assert(b.code[target - body_at] == code[target]);
                    assert(defines(b.code, target - body_at, start));
                } else if cont_at < target < back {
                    assert(p.code[target - cont_at - 1] == code[target]);
                    assert(defines(p.code, target - cont_at - 1, start));
                }
            }
        },
        None => {
            assert(c.code.len() == 0);
            assert forall|target: int| defines(code, target, start) implies target == top by {
                if target < top {
                    assert(i.code[target] == code[target]);
                    assert(defines(i.code, target, start));
                } else if body_at <= target < cont_at {
                    assert(b.code[target - body_at] == code[target]);
                    assert(defines(b.code, target - body_at, start));
                } else if cont_at < target < back {
                    assert(p.code[target - cont_at - 1] == code[target]);
                    assert(defines(p.code, target - cont_at - 1, start));
                }
            }
        },
    }
}

} // verus!
