pub mod ir_ast;
pub mod jumps;
pub mod budget;
pub mod labels;
pub mod temps;
pub mod flow;

use vstd::prelude::*;

use crate::common::{BinaryOp, TempId};
use crate::parser::c_ast::{
    exprs_view, fns_view, items_view, params_view, CBlock, CBlockItem, CDeclaration, CExpression,
    CFactor, CFnDecl, CForInit, CProgram, CStatement, CVarDecl, SpecBlockItem,
    SpecDeclaration, SpecExpression, SpecFactor, SpecFnDecl, SpecForInit, SpecParam,
    SpecStatement, SpecVarDecl,
};
use ir_ast::{
    names_view, IRFunction, IRInstruction, IRProgram, IRVal, Label, LabelKind, SpecIRFunction,
    SpecIRInstruction, SpecIRProgram,
};

verus! {

/// Code that computes a value, and how many temporaries and labels it drew.
pub struct ExpCode {
    pub val: IRVal,
    pub code: Seq<SpecIRInstruction>,
    pub temps: nat,
    pub labels: nat,
}

/// Code, and how many temporaries and labels it drew.
pub struct Code {
    pub code: Seq<SpecIRInstruction>,
    pub temps: nat,
    pub labels: nat,
}

/// The temporary numbered `n`.
pub open spec fn temp(n: int) -> IRVal {
    IRVal::Var(TempId(n as u32))
}

/// The label of `kind` numbered `n`.
pub open spec fn label_at(kind: LabelKind, n: int) -> Label {
    Label { kind, id: n as u32 }
}

/// The number of the variable that `e` is, when `e` is a resolved variable.
pub open spec fn assign_target(e: SpecExpression) -> Option<TempId> {
    match e {
        SpecExpression::Factor(f) => match *f {
            SpecFactor::Var(var) => var.id,
            _ => None,
        },
        _ => None,
    }
}

/// The code for `e`, with temporaries from `v` on and labels from `l` on;
/// `None` where translation cannot proceed (an unresolved variable, or an
/// assignment to something other than a variable).
pub open spec fn exp_ir(e: SpecExpression, v: int, l: int) -> Option<ExpCode>
    decreases e, 1int,
{
    match e {
        SpecExpression::Factor(f) => factor_ir(*f, v, l),
        SpecExpression::Binary(op, a, b) => match exp_ir(*a, v, l) {
            None => None,
            Some(r1) => match exp_ir(*b, v + r1.temps, l + r1.labels) {
                None => None,
                Some(r2) => Some(binop_code(op, r1, r2, v, l)),
            },
        },
        SpecExpression::Assign(a, b) => match assign_target(*a) {
            Some(id) => match exp_ir(*b, v, l) {
                Some(r) => Some(ExpCode {
                    val: IRVal::Var(id),
                    code: r.code.push(SpecIRInstruction::Copy(r.val, IRVal::Var(id))),
                    temps: r.temps,
                    labels: r.labels,
                }),
                None => None,
            },
            None => None,
        },
        SpecExpression::Conditional { cond, then, else_ } => {
            let res = temp(v);
            match exp_ir(*cond, v + 1, l) {
                None => None,
                Some(c) => match exp_ir(*then, v + 1 + c.temps, l + c.labels) {
                    None => None,
                    Some(t) => match exp_ir(*else_, v + 1 + c.temps + t.temps, l + c.labels + t.labels) {
                        None => None,
                        Some(f) => {
                            let lb = l + c.labels + t.labels + f.labels;
                            let else_label = label_at(LabelKind::Else, lb);
                            let end_label = label_at(LabelKind::End, lb + 1);
                            Some(ExpCode {
                                val: res,
                                code: c.code + seq![SpecIRInstruction::JumpIfZero(c.val, else_label)] + t.code
                                    + seq![
                                    SpecIRInstruction::Copy(t.val, res),
                                    SpecIRInstruction::Jump(end_label),
                                    SpecIRInstruction::Label(else_label),
                                ] + f.code + seq![
                                    SpecIRInstruction::Copy(f.val, res),
                                    SpecIRInstruction::Label(end_label),
                                ],
                                temps: 1 + c.temps + t.temps + f.temps,
                                labels: c.labels + t.labels + f.labels + 2,
                            })
                        },
                    },
                },
            }
        },
    }
}

pub open spec fn factor_ir(f: SpecFactor, v: int, l: int) -> Option<ExpCode>
    decreases f, 1int,
{
    match f {
        SpecFactor::Constant(i) => Some(ExpCode { val: IRVal::Constant(i), code: seq![], temps: 0, labels: 0 }),
        SpecFactor::Unary(op, g) => match factor_ir(*g, v, l) {
            Some(r) => {
                let dst = temp(v + r.temps);
                Some(ExpCode {
                    val: dst,
                    code: r.code.push(SpecIRInstruction::Unary(op, r.val, dst)),
                    temps: r.temps + 1,
                    labels: r.labels,
                })
            },
            None => None,
        },
        SpecFactor::Expression(e) => exp_ir(e, v, l),
        SpecFactor::Var(var) => match var.id {
            Some(id) => Some(ExpCode { val: IRVal::Var(id), code: seq![], temps: 0, labels: 0 }),
            None => None,
        },
        SpecFactor::FunctionCall(name, args) => {
            let dst = temp(v);
            match args_ir(args, v + 1, l) {
                Some((vals, a)) => Some(ExpCode {
                    val: dst,
                    code: a.code.push(SpecIRInstruction::FnCall(name, vals, dst)),
                    temps: a.temps + 1,
                    labels: a.labels,
                }),
                None => None,
            }
        },
    }
}

/// The code for the arguments in order, and the values they leave.
pub open spec fn args_ir(args: Seq<SpecExpression>, v: int, l: int) -> Option<(Seq<IRVal>, Code)>
    decreases args, 1int,
{
    if args.len() == 0 {
        Some((seq![], Code { code: seq![], temps: 0, labels: 0 }))
    } else {
        match exp_ir(args[0], v, l) {
            None => None,
            Some(r) => match args_ir(args.drop_first(), v + r.temps, l + r.labels) {
                None => None,
                Some((vals, rest)) => Some((seq![r.val] + vals, Code {
                    code: r.code + rest.code,
                    temps: r.temps + rest.temps,
                    labels: r.labels + rest.labels,
                })),
            },
        }
    }
}

/// Both operands in order, then the operation; `&&` and `||` jump past the second operand.
pub open spec fn binop_code(op: BinaryOp, r1: ExpCode, r2: ExpCode, v: int, l: int) -> ExpCode {
    let dst = temp(v + r1.temps + r2.temps);
    let lb = l + r1.labels + r2.labels;
    let temps = r1.temps + r2.temps + 1;
    if op == BinaryOp::LogicalAnd {
        let false_label = label_at(LabelKind::False, lb);
        let end_label = label_at(LabelKind::End, lb + 1);
        ExpCode {
            val: dst,
            code: r1.code + seq![SpecIRInstruction::JumpIfZero(r1.val, false_label)] + r2.code + seq![
                SpecIRInstruction::JumpIfZero(r2.val, false_label),
                SpecIRInstruction::Copy(IRVal::Constant(1), dst),
                SpecIRInstruction::Jump(end_label),
                SpecIRInstruction::Label(false_label),
                SpecIRInstruction::Copy(IRVal::Constant(0), dst),
                SpecIRInstruction::Label(end_label),
            ],
            temps,
            labels: r1.labels + r2.labels + 2,
        }
    } else if op == BinaryOp::LogicalOr {
        let true_label = label_at(LabelKind::True, lb);
        let end_label = label_at(LabelKind::End, lb + 1);
        ExpCode {
            val: dst,
            code: r1.code + seq![SpecIRInstruction::JumpIfNotZero(r1.val, true_label)] + r2.code + seq![
                SpecIRInstruction::JumpIfNotZero(r2.val, true_label),
                SpecIRInstruction::Copy(IRVal::Constant(0), dst),
                SpecIRInstruction::Jump(end_label),
                SpecIRInstruction::Label(true_label),
                SpecIRInstruction::Copy(IRVal::Constant(1), dst),
                SpecIRInstruction::Label(end_label),
            ],
            temps,
            labels: r1.labels + r2.labels + 2,
        }
    } else {
        ExpCode {
            val: dst,
            code: r1.code + r2.code + seq![SpecIRInstruction::Binary(op, r1.val, r2.val, dst)],
            temps,
            labels: r1.labels + r2.labels,
        }
    }
}

/// The code of an expression whose value is not used.
pub open spec fn effect_ir(e: Option<SpecExpression>, v: int, l: int) -> Option<Code> {
    match e {
        Some(x) => match exp_ir(x, v, l) {
            Some(r) => Some(Code { code: r.code, temps: r.temps, labels: r.labels }),
            None => None,
        },
        None => Some(Code { code: seq![], temps: 0, labels: 0 }),
    }
}

/// A declaration stores its initial value, if any, in its variable.
pub open spec fn var_decl_ir(d: SpecVarDecl, v: int, l: int) -> Option<Code> {
    match d.init {
        Some(e) => match exp_ir(e, v, l) {
            Some(r) => match d.var.id {
                Some(id) => Some(Code {
                    code: r.code.push(SpecIRInstruction::Copy(r.val, IRVal::Var(id))),
                    temps: r.temps,
                    labels: r.labels,
                }),
                None => None,
            },
            None => None,
        },
        None => Some(Code { code: seq![], temps: 0, labels: 0 }),
    }
}

/// `a` then `b`.
pub open spec fn seq_code(a: Code, b: Code) -> Code {
    Code { code: a.code + b.code, temps: a.temps + b.temps, labels: a.labels + b.labels }
}

/// `if` without `else`: skip the branch when the condition is zero.
pub open spec fn if_code(c: ExpCode, t: Code, l: int) -> Code {
    let end_label = label_at(LabelKind::End, l + c.labels + t.labels);
    Code {
        code: c.code + seq![SpecIRInstruction::JumpIfZero(c.val, end_label)] + t.code + seq![SpecIRInstruction::Label(end_label)],
        temps: c.temps + t.temps,
        labels: c.labels + t.labels + 1,
    }
}

/// `if` with `else`: the end label is drawn before the else branch, the else label after it.
pub open spec fn if_else_code(c: ExpCode, t: Code, e: Code, l: int) -> Code {
    let end_label = label_at(LabelKind::End, l + c.labels + t.labels);
    let else_label = label_at(LabelKind::Else, l + c.labels + t.labels + 1 + e.labels);
    Code {
        code: c.code + seq![SpecIRInstruction::JumpIfZero(c.val, else_label)] + t.code + seq![
            SpecIRInstruction::Jump(end_label),
            SpecIRInstruction::Label(else_label),
        ] + e.code + seq![SpecIRInstruction::Label(end_label)],
        temps: c.temps + t.temps + e.temps,
        labels: c.labels + t.labels + e.labels + 2,
    }
}

/// The label that `continue` in a loop labelled `start` jumps to.
pub open spec fn continue_of(start: Label) -> Label {
    Label { kind: LabelKind::Continue, id: start.id }
}

/// The label that `break` in a loop labelled `start` jumps to.
pub open spec fn break_of(start: Label) -> Label {
    Label { kind: LabelKind::Break, id: start.id }
}

/// `while`: test at the continue label, leave through the break label.
pub open spec fn while_code(start: Label, c: ExpCode, b: Code) -> Code {
    Code {
        code: seq![SpecIRInstruction::Label(continue_of(start))] + c.code + seq![SpecIRInstruction::JumpIfZero(c.val, break_of(start))]
            + b.code + seq![SpecIRInstruction::Jump(continue_of(start)), SpecIRInstruction::Label(break_of(start))],
        temps: c.temps + b.temps,
        labels: c.labels + b.labels,
    }
}

/// `do`-`while`: the body, then the test at the continue label; the condition was translated first.
pub open spec fn do_while_code(start: Label, c: ExpCode, b: Code) -> Code {
    Code {
        code: seq![SpecIRInstruction::Label(start)] + b.code + seq![SpecIRInstruction::Label(continue_of(start))]
            + c.code + seq![SpecIRInstruction::JumpIfNotZero(c.val, start), SpecIRInstruction::Label(break_of(start))],
        temps: c.temps + b.temps,
        labels: c.labels + b.labels,
    }
}

/// The test of a `for` loop, if any, leaving through the break label.
pub open spec fn for_cond_ir(cond: Option<SpecExpression>, start: Label, v: int, l: int) -> Option<Code> {
    match cond {
        Some(c) => match exp_ir(c, v, l) {
            Some(r) => Some(Code {
                code: r.code.push(SpecIRInstruction::JumpIfZero(r.val, break_of(start))),
                temps: r.temps,
                labels: r.labels,
            }),
            None => None,
        },
        None => Some(Code { code: seq![], temps: 0, labels: 0 }),
    }
}

/// The first clause of a `for` loop.
pub open spec fn for_init_ir(init: SpecForInit, v: int, l: int) -> Option<Code> {
    match init {
        SpecForInit::InitDecl(d) => var_decl_ir(d, v, l),
        SpecForInit::InitExp(e) => effect_ir(e, v, l),
    }
}

/// `for`: init, start label, test, body, continue label, post, jump back, break label.
pub open spec fn for_code(start: Label, i: Code, c: Code, b: Code, p: Code) -> Code {
    Code {
        code: i.code + seq![SpecIRInstruction::Label(start)] + c.code + b.code
            + seq![SpecIRInstruction::Label(continue_of(start))] + p.code
            + seq![SpecIRInstruction::Jump(start), SpecIRInstruction::Label(break_of(start))],
        temps: i.temps + c.temps + b.temps + p.temps,
        labels: i.labels + c.labels + b.labels + p.labels,
    }
}

/// The code for a statement; `None` where translation cannot proceed (an
/// unlabelled loop, `break` or `continue`, or an unresolved variable).
pub open spec fn stmt_ir(s: SpecStatement, v: int, l: int) -> Option<Code>
    decreases s, 0int,
{
    match s {
        SpecStatement::Return(e) => match exp_ir(e, v, l) {
            Some(r) => Some(Code { code: r.code.push(SpecIRInstruction::Return(r.val)), temps: r.temps, labels: r.labels }),
            None => None,
        },
        SpecStatement::Expression(e) => effect_ir(Some(e), v, l),
        SpecStatement::If { cond, then, else_ } => match exp_ir(cond, v, l) {
            None => None,
            Some(c) => match stmt_ir(*then, v + c.temps, l + c.labels) {
                None => None,
                Some(t) => match else_ {
                    Some(es) => match stmt_ir(*es, v + c.temps + t.temps, l + c.labels + t.labels + 1) {
                        None => None,
                        Some(e) => Some(if_else_code(c, t, e, l)),
                    },
                    None => Some(if_code(c, t, l)),
                },
            },
        },
        SpecStatement::Compound(items) => items_ir(items, v, l),
        SpecStatement::Break(label) => match label {
            Some(lb) => Some(Code { code: seq![SpecIRInstruction::Jump(lb)], temps: 0, labels: 0 }),
            None => None,
        },
        SpecStatement::Continue(label) => match label {
            Some(lb) => Some(Code { code: seq![SpecIRInstruction::Jump(lb)], temps: 0, labels: 0 }),
            None => None,
        },
        SpecStatement::While { cond, body, label } => match label {
            None => None,
            Some(start) => match exp_ir(cond, v, l) {
                None => None,
                Some(c) => match stmt_ir(*body, v + c.temps, l + c.labels) {
                    None => None,
                    Some(b) => Some(while_code(start, c, b)),
                },
            },
        },
        SpecStatement::DoWhile { body, cond, label } => match label {
            None => None,
            Some(start) => match exp_ir(cond, v, l) {
                None => None,
                Some(c) => match stmt_ir(*body, v + c.temps, l + c.labels) {
                    None => None,
                    Some(b) => Some(do_while_code(start, c, b)),
                },
            },
        },
        SpecStatement::For { init, cond, post, body, label } => match label {
            None => None,
            Some(start) => match for_init_ir(init, v, l) {
                None => None,
                Some(i) => match for_cond_ir(cond, start, v + i.temps, l + i.labels) {
                    None => None,
                    Some(c) => match stmt_ir(*body, v + i.temps + c.temps, l + i.labels + c.labels) {
                        None => None,
                        Some(b) => match effect_ir(post, v + i.temps + c.temps + b.temps, l + i.labels + c.labels + b.labels) {
                            None => None,
                            Some(p) => Some(for_code(start, i, c, b, p)),
                        },
                    },
                },
            },
        },
        SpecStatement::Null => Some(Code { code: seq![], temps: 0, labels: 0 }),
    }
}

/// The code for the items of a block in order.
pub open spec fn items_ir(items: Seq<SpecBlockItem>, v: int, l: int) -> Option<Code>
    decreases items, 0int,
{
    if items.len() == 0 {
        Some(Code { code: seq![], temps: 0, labels: 0 })
    } else {
        match item_ir(items[0], v, l) {
            None => None,
            Some(a) => match items_ir(items.drop_first(), v + a.temps, l + a.labels) {
                None => None,
                Some(b) => Some(seq_code(a, b)),
            },
        }
    }
}

/// A nested function definition contributes its body; a declaration nothing.
pub open spec fn item_ir(it: SpecBlockItem, v: int, l: int) -> Option<Code>
    decreases it, 0int,
{
    match it {
        SpecBlockItem::Declaration(SpecDeclaration::VarDecl(d)) => var_decl_ir(d, v, l),
        SpecBlockItem::Declaration(SpecDeclaration::FnDecl(f)) => match f.body {
            Some(b) => body_ir(b, v, l),
            None => Some(Code { code: seq![], temps: 0, labels: 0 }),
        },
        SpecBlockItem::Statement(s) => stmt_ir(s, v, l),
    }
}

/// A function body ends with `return 0`.
pub open spec fn body_ir(items: Seq<SpecBlockItem>, v: int, l: int) -> Option<Code>
    decreases items, 1int,
{
    match items_ir(items, v, l) {
        Some(c) => Some(Code { code: c.code.push(SpecIRInstruction::Return(IRVal::Constant(0))), temps: c.temps, labels: c.labels }),
        None => None,
    }
}

/// The parameters all have names and numbers.
pub open spec fn params_ready(ps: Seq<SpecParam>) -> bool {
    forall|i: int| 0 <= i < ps.len() ==> (#[trigger] ps[i]).name is Some && ps[i].id is Some
}

/// The IR of a defined function, and the temporaries and labels its body drew.
pub open spec fn function_ir(f: SpecFnDecl, v: int, l: int) -> Option<(SpecIRFunction, Code)> {
    if !params_ready(f.params) {
        None
    } else {
        let body = match f.body {
            Some(b) => b,
            None => seq![],
        };
        match body_ir(body, v, l) {
            Some(c) => Some((SpecIRFunction {
                name: f.name,
                params: Seq::new(f.params.len(), |i: int| f.params[i].name.unwrap()),
                param_ids: Seq::new(f.params.len(), |i: int| f.params[i].id.unwrap()),
                instructions: c.code,
            }, c)),
            None => None,
        }
    }
}

/// The IR of the defined functions in order; declarations without a body are dropped.
pub open spec fn program_ir(fs: Seq<SpecFnDecl>, v: int, l: int) -> Option<(Seq<SpecIRFunction>, nat, nat)>
    decreases fs.len(),
{
    if fs.len() == 0 {
        Some((seq![], 0, 0))
    } else if fs[0].body is None {
        program_ir(fs.drop_first(), v, l)
    } else {
        match function_ir(fs[0], v, l) {
            None => None,
            Some((f, c)) => match program_ir(fs.drop_first(), v + c.temps, l + c.labels) {
                None => None,
                Some((rest, t, lb)) => Some((seq![f] + rest, c.temps + t, c.labels + lb)),
            },
        }
    }
}

/// Both counters stay within `u32` after drawing `t` temporaries and `lb` labels.
pub open spec fn fits(v: int, l: int, t: nat, lb: nat) -> bool {
    v + t <= u32::MAX && l + lb <= u32::MAX
}

/// The conditional expression `c ? t : e`.
pub open spec fn conditional_of(c: SpecExpression, t: SpecExpression, e: SpecExpression) -> SpecExpression {
    SpecExpression::Conditional { cond: Box::new(c), then: Box::new(t), else_: Box::new(e) }
}

/// The number of the variable that `e` is, when `e` is a resolved variable.
fn assigned_var(e: &CExpression) -> (r: Option<TempId>)
    ensures
        r == assign_target(e@),
{
    match e {
        CExpression::Factor(f) => {
            let g: &CFactor = f;
            assert(e@ == SpecExpression::Factor(Box::new(g.view_of())));
            match g {
                CFactor::Var(var) => var.id,
                _ => None,
            }
        },
        _ => None,
    }
}

fn push_ins(code: &mut Vec<IRInstruction>, ins: IRInstruction)
    ensures
        final(code).deep_view() == old(code).deep_view().push(ins@),
{
    code.push(ins);
    assert(code.deep_view() =~= old(code).deep_view().push(ins@));
}

fn append_ins(code: &mut Vec<IRInstruction>, other: Vec<IRInstruction>)
    ensures
        final(code).deep_view() == old(code).deep_view() + other.deep_view(),
{
    let mut other = other;
    let ghost ov = other.deep_view();
    code.append(&mut other);
    assert(code.deep_view() =~= old(code).deep_view() + ov);
}

/// Translates resolved and labelled C into three-address code.
pub struct IRGenerator {
    next_var_id: u32,
    next_label_id: u32,
}

impl Default for IRGenerator {
    fn default() -> (g: Self)
        ensures
            g.temp_counter() == 0,
            g.label_counter() == 0,
    {
        Self::new(0, 0)
    }
}

impl IRGenerator {
    pub closed spec fn temp_counter(&self) -> int {
        self.next_var_id as int
    }

    pub closed spec fn label_counter(&self) -> int {
        self.next_label_id as int
    }

    /// A generator that numbers temporaries from `next_var_id` and labels from `next_label_id`.
    pub fn new(next_var_id: u32, next_label_id: u32) -> (g: Self)
        ensures
            g.temp_counter() == next_var_id,
            g.label_counter() == next_label_id,
    {
        IRGenerator { next_var_id, next_label_id }
    }

    fn create_temp_var(&mut self) -> (t: TempId)
        requires
            old(self).next_var_id < u32::MAX,
        ensures
            t == TempId(old(self).next_var_id),
            final(self).next_var_id == old(self).next_var_id + 1,
            final(self).next_label_id == old(self).next_label_id,
    {
        let id = self.next_var_id;
        self.next_var_id = self.next_var_id + 1;
        TempId(id)
    }

    fn create_jump_label(&mut self, kind: LabelKind) -> (lb: Label)
        requires
            old(self).next_label_id < u32::MAX,
        ensures
            lb == (Label { kind, id: old(self).next_label_id }),
            final(self).next_label_id == old(self).next_label_id + 1,
            final(self).next_var_id == old(self).next_var_id,
    {
        let id = self.next_label_id;
        self.next_label_id = self.next_label_id + 1;
        Label { kind, id }
    }

    /// The start, continue and break labels of a loop labelled `start`.
    fn resolve_loop_labels(&self, start: Option<Label>) -> (r: (Label, Label, Label))
        requires
            start is Some,
        ensures
            r.0 == start.unwrap(),
            r.1 == (Label { kind: LabelKind::Continue, id: start.unwrap().id }),
            r.2 == (Label { kind: LabelKind::Break, id: start.unwrap().id }),
    {
        let start = start.unwrap();
        let continue_label = Label { kind: LabelKind::Continue, id: start.id };
        let break_label = Label { kind: LabelKind::Break, id: start.id };
        (start, continue_label, break_label)
    }

    /// Whether translating `program` is sure to keep both counters within
    /// `u32`: true exactly when each counter plus what the shape of the
    /// program makes translation draw fits, which is, for a program that
    /// translates, what `c_to_ir` requires of the counters.
    pub fn translation_fits(&self, program: &CProgram) -> (r: bool)
        ensures
            r == (self.temp_counter() + budget::fns_cost(program@.functions).0 <= u32::MAX
                && self.label_counter() + budget::fns_cost(program@.functions).1 <= u32::MAX),
            program_ir(program@.functions, self.temp_counter(), self.label_counter()) matches Some((_, t, lb))
                ==> r == fits(self.temp_counter(), self.label_counter(), t, lb),
    {
        proof {
            if program_ir(program@.functions, self.temp_counter(), self.label_counter()) is Some {
                budget::lemma_program_cost(program@.functions, self.temp_counter(), self.label_counter());
            }
        }
        let (t, l) = budget::program_cost(program);
        self.next_var_id as u64 + t <= 0xffff_ffff && self.next_label_id as u64 + l <= 0xffff_ffff
    }

    /// The three-address code of every defined function, in order.
    pub fn c_to_ir(&mut self, c_program: CProgram) -> (r: IRProgram)
        requires
            program_ir(c_program@.functions, old(self).temp_counter(), old(self).label_counter()) matches Some((_, t, lb))
                && fits(old(self).temp_counter(), old(self).label_counter(), t, lb),
        ensures
            program_ir(c_program@.functions, old(self).temp_counter(), old(self).label_counter()) matches Some((fs, t, lb))
                && r@ == (SpecIRProgram { functions: fs })
                && final(self).temp_counter() == old(self).temp_counter() + t
                && final(self).label_counter() == old(self).label_counter() + lb,
    {
        let ghost fs0 = c_program@.functions;
        let ghost v0 = self.next_var_id as int;
        let ghost l0 = self.next_label_id as int;
        let mut rest = c_program.functions;
        let mut done: Vec<IRFunction> = Vec::new();
        assert(fns_view(rest@) =~= fs0);
        while rest.len() > 0
            invariant
                fs0 == c_program@.functions,
                v0 == old(self).next_var_id,
                l0 == old(self).next_label_id,
                v0 <= self.next_var_id,
                l0 <= self.next_label_id,
                program_ir(fs0, v0, l0) matches Some((_, t, lb)) && fits(v0, l0, t, lb),
                program_ir(fs0, v0, l0) == match program_ir(fns_view(rest@), self.next_var_id as int, self.next_label_id as int) {
                    Some((fs, t, lb)) => Some((done.deep_view() + fs, (self.next_var_id - v0 + t) as nat, (self.next_label_id - l0 + lb) as nat)),
                    None => None::<(Seq<SpecIRFunction>, nat, nat)>,
                },
            decreases rest.len(),
        {
            let ghost rv = fns_view(rest@);
            let ghost dv = done.deep_view();
            let f = rest.remove(0);
            assert(fns_view(rest@) =~= rv.drop_first());
            assert(f.view_of() == rv[0]);
            if f.body.is_some() {
                let irf = self.translate_function(f);
                done.push(irf);
                proof {
                    assert(done.deep_view() =~= dv.push(irf@));
                    match program_ir(fns_view(rest@), self.next_var_id as int, self.next_label_id as int) {
                        Some((fs, t, lb)) => {
                            assert(dv + (seq![irf@] + fs) =~= done.deep_view() + fs);
                        },
                        None => {},
                    }
                }
            }
        }
        assert(done.deep_view() + seq![] =~= done.deep_view());
        IRProgram { functions: done }
    }

    fn translate_function(&mut self, c_function: CFnDecl) -> (r: IRFunction)
        requires
            c_function.body is Some,
            function_ir(c_function@, old(self).next_var_id as int, old(self).next_label_id as int) matches Some((_, c))
                && fits(old(self).next_var_id as int, old(self).next_label_id as int, c.temps, c.labels),
        ensures
            function_ir(c_function@, old(self).next_var_id as int, old(self).next_label_id as int) matches Some((f, c))
                && r@ == f
                && final(self).next_var_id == old(self).next_var_id + c.temps
                && final(self).next_label_id == old(self).next_label_id + c.labels,
    {
        let ghost fv = c_function@;
        let CFnDecl { name, params, body } = c_function;
        let mut names: Vec<String> = Vec::new();
        let mut ids: Vec<TempId> = Vec::new();
        let mut i: usize = 0;
        while i < params.len()
            invariant
                fv.params == params_view(params@),
                params_ready(fv.params),
                i <= params@.len(),
                names@.len() == i,
                ids@.len() == i,
                forall|j: int| 0 <= j < i ==> (#[trigger] names@[j])@ == fv.params[j].name.unwrap(),
                forall|j: int| 0 <= j < i ==> #[trigger] ids@[j] == fv.params[j].id.unwrap(),
            decreases params@.len() - i,
        {
            assert(fv.params[i as int] == params@[i as int].view_of());
            let p = &params[i];
            match &p.name {
                Some(n) => names.push(n.clone()),
                None => {
                    assert(false);
                },
            }
            match p.id {
                Some(id) => ids.push(id),
                None => {
                    assert(false);
                },
            }
            i = i + 1;
        }
        let block = match body {
            Some(b) => b,
            None => CBlock(Vec::new()),
        };
        assert(fv.body == Some(block@));
        let instructions = self.translate_function_body(block);
        let r = IRFunction { name, params: names, param_ids: ids, instructions };
        assert(names_view(names@) =~= Seq::new(fv.params.len(), |j: int| fv.params[j].name.unwrap()));
        assert(ids@ =~= Seq::new(fv.params.len(), |j: int| fv.params[j].id.unwrap()));
        r
    }

    fn translate_function_body(&mut self, c_block: CBlock) -> (r: Vec<IRInstruction>)
        requires
            body_ir(c_block@, old(self).next_var_id as int, old(self).next_label_id as int) matches Some(c)
                && fits(old(self).next_var_id as int, old(self).next_label_id as int, c.temps, c.labels),
        ensures
            body_ir(c_block@, old(self).next_var_id as int, old(self).next_label_id as int) matches Some(c)
                && r.deep_view() == c.code
                && final(self).next_var_id == old(self).next_var_id + c.temps
                && final(self).next_label_id == old(self).next_label_id + c.labels,
        decreases c_block@, 1int,
    {
        let mut code = self.translate_items(c_block);
        push_ins(&mut code, IRInstruction::Return(IRVal::Constant(0)));
        code
    }

    fn translate_items(&mut self, c_block: CBlock) -> (r: Vec<IRInstruction>)
        requires
            items_ir(c_block@, old(self).next_var_id as int, old(self).next_label_id as int) matches Some(c)
                && fits(old(self).next_var_id as int, old(self).next_label_id as int, c.temps, c.labels),
        ensures
            items_ir(c_block@, old(self).next_var_id as int, old(self).next_label_id as int) matches Some(c)
                && r.deep_view() == c.code
                && final(self).next_var_id == old(self).next_var_id + c.temps
                && final(self).next_label_id == old(self).next_label_id + c.labels,
        decreases c_block@, 0int,
    {
        let ghost all = c_block@;
        let ghost v0 = self.next_var_id as int;
        let ghost l0 = self.next_label_id as int;
        let mut items = c_block.0;
        let mut code: Vec<IRInstruction> = Vec::new();
        let ghost mut k: int = 0;
        assert(items_view(items@) =~= all.subrange(0, all.len() as int));
        assert(code.deep_view() =~= Seq::<SpecIRInstruction>::empty());
        while items.len() > 0
            invariant
                0 <= k <= all.len(),
                items_view(items@) == all.subrange(k, all.len() as int),
                all == c_block@,
                v0 == old(self).next_var_id,
                l0 == old(self).next_label_id,
                v0 <= self.next_var_id,
                l0 <= self.next_label_id,
                items_ir(all, v0, l0) matches Some(c) && fits(v0, l0, c.temps, c.labels),
                items_ir(all, v0, l0) == match items_ir(items_view(items@), self.next_var_id as int, self.next_label_id as int) {
                    Some(c) => Some(Code { code: code.deep_view() + c.code, temps: (self.next_var_id - v0 + c.temps) as nat, labels: (self.next_label_id - l0 + c.labels) as nat }),
                    None => None::<Code>,
                },
            decreases items.len(),
        {
            let ghost iv = items_view(items@);
            let ghost cv = code.deep_view();
            let item = items.remove(0);
            assert(items_view(items@) =~= iv.drop_first());
            assert(item.view_of() == all[k]);
            assert(decreases_to!(all => all[k]));
            proof {
                k = k + 1;
                assert(items_view(items@) =~= all.subrange(k, all.len() as int));
            }
            let part = self.translate_block_item(item);
            let ghost pv = part.deep_view();
            append_ins(&mut code, part);
            proof {
                match items_ir(items_view(items@), self.next_var_id as int, self.next_label_id as int) {
                    Some(c) => {
                        assert(cv + (pv + c.code) =~= code.deep_view() + c.code);
                    },
                    None => {},
                }
            }
        }
        assert(code.deep_view() + seq![] =~= code.deep_view());
        code
    }

    fn translate_block_item(&mut self, c_block_item: CBlockItem) -> (r: Vec<IRInstruction>)
        requires
            item_ir(c_block_item@, old(self).next_var_id as int, old(self).next_label_id as int) matches Some(c)
                && fits(old(self).next_var_id as int, old(self).next_label_id as int, c.temps, c.labels),
        ensures
            item_ir(c_block_item@, old(self).next_var_id as int, old(self).next_label_id as int) matches Some(c)
                && r.deep_view() == c.code
                && final(self).next_var_id == old(self).next_var_id + c.temps
                && final(self).next_label_id == old(self).next_label_id + c.labels,
        decreases c_block_item@, 0int,
    {
        match c_block_item {
            CBlockItem::Declaration(CDeclaration::VarDecl(vdec)) => self.var_declaration_to_instructions(vdec),
            CBlockItem::Declaration(CDeclaration::FnDecl(fdec)) => match fdec.body {
                Some(block) => self.translate_function_body(block),
                None => {
                    let v: Vec<IRInstruction> = Vec::new();
                    assert(v.deep_view() =~= Seq::<SpecIRInstruction>::empty());
                    v
                },
            },
            CBlockItem::Statement(stmnt) => self.statement_to_instructions(stmnt),
        }
    }

    fn var_declaration_to_instructions(&mut self, var_decl: CVarDecl) -> (r: Vec<IRInstruction>)
        requires
            var_decl_ir(var_decl@, old(self).next_var_id as int, old(self).next_label_id as int) matches Some(c)
                && fits(old(self).next_var_id as int, old(self).next_label_id as int, c.temps, c.labels),
        ensures
            var_decl_ir(var_decl@, old(self).next_var_id as int, old(self).next_label_id as int) matches Some(c)
                && r.deep_view() == c.code
                && final(self).next_var_id == old(self).next_var_id + c.temps
                && final(self).next_label_id == old(self).next_label_id + c.labels,
    {
        match var_decl.init {
            Some(exp) => {
                let (result, mut instructions) = self.exp_to_instructions(exp);
                let ir_var = IRVal::Var(var_decl.var.id.unwrap());
                push_ins(&mut instructions, IRInstruction::Copy(result, ir_var));
                instructions
            },
            None => {
                let v: Vec<IRInstruction> = Vec::new();
                assert(v.deep_view() =~= Seq::<SpecIRInstruction>::empty());
                v
            },
        }
    }

    fn effect_to_instructions(&mut self, exp: Option<CExpression>) -> (r: Vec<IRInstruction>)
        requires
            effect_ir(crate::parser::c_ast::opt_expr_view(exp), old(self).next_var_id as int, old(self).next_label_id as int) matches Some(c)
                && fits(old(self).next_var_id as int, old(self).next_label_id as int, c.temps, c.labels),
        ensures
            effect_ir(crate::parser::c_ast::opt_expr_view(exp), old(self).next_var_id as int, old(self).next_label_id as int) matches Some(c)
                && r.deep_view() == c.code
                && final(self).next_var_id == old(self).next_var_id + c.temps
                && final(self).next_label_id == old(self).next_label_id + c.labels,
    {
        match exp {
            Some(e) => {
                let (_, instructions) = self.exp_to_instructions(e);
                instructions
            },
            None => {
                let v: Vec<IRInstruction> = Vec::new();
                assert(v.deep_view() =~= Seq::<SpecIRInstruction>::empty());
                v
            },
        }
    }

    fn statement_to_instructions(&mut self, c_statement: CStatement) -> (r: Vec<IRInstruction>)
        requires
            stmt_ir(c_statement@, old(self).next_var_id as int, old(self).next_label_id as int) matches Some(c)
                && fits(old(self).next_var_id as int, old(self).next_label_id as int, c.temps, c.labels),
        ensures
            stmt_ir(c_statement@, old(self).next_var_id as int, old(self).next_label_id as int) matches Some(c)
                && r.deep_view() == c.code
                && final(self).next_var_id == old(self).next_var_id + c.temps
                && final(self).next_label_id == old(self).next_label_id + c.labels,
        decreases c_statement@, 1int,
    {
        match c_statement {
            CStatement::Return(exp) => {
                let (return_val, mut instructions) = self.exp_to_instructions(exp);
                push_ins(&mut instructions, IRInstruction::Return(return_val));
                instructions
            },
            CStatement::Expression(exp) => {
                let (_, instructions) = self.exp_to_instructions(exp);
                instructions
            },
            CStatement::If { .. } => self.if_to_instructions(c_statement),
            CStatement::Compound(block) => self.translate_items(block),
            CStatement::Break(label) => {
                let mut v: Vec<IRInstruction> = Vec::new();
                push_ins(&mut v, IRInstruction::Jump(label.unwrap()));
                v
            },
            CStatement::Continue(label) => {
                let mut v: Vec<IRInstruction> = Vec::new();
                push_ins(&mut v, IRInstruction::Jump(label.unwrap()));
                v
            },
            CStatement::While { .. } => self.while_to_instructions(c_statement),
            CStatement::DoWhile { .. } => self.do_while_to_instructions(c_statement),
            CStatement::For { .. } => self.for_to_instructions(c_statement),
            CStatement::Null => {
                let v: Vec<IRInstruction> = Vec::new();
                assert(v.deep_view() =~= Seq::<SpecIRInstruction>::empty());
                v
            },
        }
    }

    fn if_to_instructions(&mut self, c_statement: CStatement) -> (r: Vec<IRInstruction>)
        requires
            c_statement is If,
            stmt_ir(c_statement@, old(self).next_var_id as int, old(self).next_label_id as int) matches Some(c)
                && fits(old(self).next_var_id as int, old(self).next_label_id as int, c.temps, c.labels),
        ensures
            stmt_ir(c_statement@, old(self).next_var_id as int, old(self).next_label_id as int) matches Some(c)
                && r.deep_view() == c.code
                && final(self).next_var_id == old(self).next_var_id + c.temps
                && final(self).next_label_id == old(self).next_label_id + c.labels,
        decreases c_statement@, 0int,
    {
        match c_statement {
            CStatement::If { cond, then, else_ } => {
                let (cond_val, mut cond_instructions) = self.exp_to_instructions(cond);
                let then_instructions = self.statement_to_instructions(*then);
                let end_label = self.create_jump_label(LabelKind::End);
                match else_ {
                    Some(else_stmnt) => {
                        let else_instructions = self.statement_to_instructions(*else_stmnt);
                        let else_label = self.create_jump_label(LabelKind::Else);
                        push_ins(&mut cond_instructions, IRInstruction::JumpIfZero(cond_val, else_label));
                        append_ins(&mut cond_instructions, then_instructions);
                        push_ins(&mut cond_instructions, IRInstruction::Jump(end_label));
                        push_ins(&mut cond_instructions, IRInstruction::Label(else_label));
                        append_ins(&mut cond_instructions, else_instructions);
                    },
                    None => {
                        push_ins(&mut cond_instructions, IRInstruction::JumpIfZero(cond_val, end_label));
                        append_ins(&mut cond_instructions, then_instructions);
                    },
                }
                push_ins(&mut cond_instructions, IRInstruction::Label(end_label));
                cond_instructions
            },
            _ => {
                assert(false);
                Vec::new()
            },
        }
    }

    fn while_to_instructions(&mut self, c_statement: CStatement) -> (r: Vec<IRInstruction>)
        requires
            c_statement is While,
            stmt_ir(c_statement@, old(self).next_var_id as int, old(self).next_label_id as int) matches Some(c)
                && fits(old(self).next_var_id as int, old(self).next_label_id as int, c.temps, c.labels),
        ensures
            stmt_ir(c_statement@, old(self).next_var_id as int, old(self).next_label_id as int) matches Some(c)
                && r.deep_view() == c.code
                && final(self).next_var_id == old(self).next_var_id + c.temps
                && final(self).next_label_id == old(self).next_label_id + c.labels,
        decreases c_statement@, 0int,
    {
        match c_statement {
            CStatement::While { cond, body, label } => {
                let (_, continue_label, break_label) = self.resolve_loop_labels(label);
                let (cond_val, cond_instructions) = self.exp_to_instructions(cond);
                let mut instructions: Vec<IRInstruction> = Vec::new();
                push_ins(&mut instructions, IRInstruction::Label(continue_label));
                append_ins(&mut instructions, cond_instructions);
                push_ins(&mut instructions, IRInstruction::JumpIfZero(cond_val, break_label));
                let body_instructions = self.statement_to_instructions(*body);
                append_ins(&mut instructions, body_instructions);
                push_ins(&mut instructions, IRInstruction::Jump(continue_label));
                push_ins(&mut instructions, IRInstruction::Label(break_label));
                instructions
            },
            _ => {
                assert(false);
                Vec::new()
            },
        }
    }

    fn do_while_to_instructions(&mut self, c_statement: CStatement) -> (r: Vec<IRInstruction>)
        requires
            c_statement is DoWhile,
            stmt_ir(c_statement@, old(self).next_var_id as int, old(self).next_label_id as int) matches Some(c)
                && fits(old(self).next_var_id as int, old(self).next_label_id as int, c.temps, c.labels),
        ensures
            stmt_ir(c_statement@, old(self).next_var_id as int, old(self).next_label_id as int) matches Some(c)
                && r.deep_view() == c.code
                && final(self).next_var_id == old(self).next_var_id + c.temps
                && final(self).next_label_id == old(self).next_label_id + c.labels,
        decreases c_statement@, 0int,
    {
        match c_statement {
            CStatement::DoWhile { body, cond, label } => {
                let (start, continue_label, break_label) = self.resolve_loop_labels(label);
                let (cond_val, cond_instructions) = self.exp_to_instructions(cond);
                let mut instructions: Vec<IRInstruction> = Vec::new();
                push_ins(&mut instructions, IRInstruction::Label(start));
                let body_instructions = self.statement_to_instructions(*body);
                append_ins(&mut instructions, body_instructions);
                push_ins(&mut instructions, IRInstruction::Label(continue_label));
                append_ins(&mut instructions, cond_instructions);
                push_ins(&mut instructions, IRInstruction::JumpIfNotZero(cond_val, start));
                push_ins(&mut instructions, IRInstruction::Label(break_label));
                instructions
            },
            _ => {
                assert(false);
                Vec::new()
            },
        }
    }

    fn for_init_to_instructions(&mut self, init: CForInit) -> (r: Vec<IRInstruction>)
        requires
            for_init_ir(init@, old(self).next_var_id as int, old(self).next_label_id as int) matches Some(c)
                && fits(old(self).next_var_id as int, old(self).next_label_id as int, c.temps, c.labels),
        ensures
            for_init_ir(init@, old(self).next_var_id as int, old(self).next_label_id as int) matches Some(c)
                && r.deep_view() == c.code
                && final(self).next_var_id == old(self).next_var_id + c.temps
                && final(self).next_label_id == old(self).next_label_id + c.labels,
    {
        match init {
            CForInit::InitDecl(dec) => self.var_declaration_to_instructions(dec),
            CForInit::InitExp(exp) => self.effect_to_instructions(exp),
        }
    }

    fn for_cond_to_instructions(&mut self, cond: Option<CExpression>, start: Label) -> (r: Vec<IRInstruction>)
        requires
            for_cond_ir(crate::parser::c_ast::opt_expr_view(cond), start, old(self).next_var_id as int, old(self).next_label_id as int) matches Some(c)
                && fits(old(self).next_var_id as int, old(self).next_label_id as int, c.temps, c.labels),
        ensures
            for_cond_ir(crate::parser::c_ast::opt_expr_view(cond), start, old(self).next_var_id as int, old(self).next_label_id as int) matches Some(c)
                && r.deep_view() == c.code
                && final(self).next_var_id == old(self).next_var_id + c.temps
                && final(self).next_label_id == old(self).next_label_id + c.labels,
    {
        match cond {
            Some(c) => {
                let (cond_val, mut cond_instructions) = self.exp_to_instructions(c);
                let break_label = Label { kind: LabelKind::Break, id: start.id };
                push_ins(&mut cond_instructions, IRInstruction::JumpIfZero(cond_val, break_label));
                cond_instructions
            },
            None => {
                let v: Vec<IRInstruction> = Vec::new();
                assert(v.deep_view() =~= Seq::<SpecIRInstruction>::empty());
                v
            },
        }
    }

    #[verifier::rlimit(40)]
    fn for_to_instructions(&mut self, c_statement: CStatement) -> (r: Vec<IRInstruction>)
        requires
            c_statement is For,
            stmt_ir(c_statement@, old(self).next_var_id as int, old(self).next_label_id as int) matches Some(c)
                && fits(old(self).next_var_id as int, old(self).next_label_id as int, c.temps, c.labels),
        ensures
            stmt_ir(c_statement@, old(self).next_var_id as int, old(self).next_label_id as int) matches Some(c)
                && r.deep_view() == c.code
                && final(self).next_var_id == old(self).next_var_id + c.temps
                && final(self).next_label_id == old(self).next_label_id + c.labels,
        decreases c_statement@, 0int,
    {
        let ghost v0 = self.next_var_id as int;
        let ghost l0 = self.next_label_id as int;
        let ghost whole = stmt_ir(c_statement@, v0, l0).unwrap();
        match c_statement {
            CStatement::For { init, cond, post, body, label } => {
                let ghost start0 = label.unwrap();
                let ghost i = for_init_ir(init@, v0, l0).unwrap();
                let ghost c = for_cond_ir(crate::parser::c_ast::opt_expr_view(cond), start0, v0 + i.temps, l0 + i.labels).unwrap();
                let ghost b = stmt_ir((*body)@, v0 + i.temps + c.temps, l0 + i.labels + c.labels).unwrap();
                let ghost p = effect_ir(crate::parser::c_ast::opt_expr_view(post), v0 + i.temps + c.temps + b.temps, l0 + i.labels + c.labels + b.labels).unwrap();
                assert(whole == for_code(start0, i, c, b, p));
                let (start, continue_label, break_label) = self.resolve_loop_labels(label);
                let mut instructions = self.for_init_to_instructions(init);
                push_ins(&mut instructions, IRInstruction::Label(start));
                let cond_instructions = self.for_cond_to_instructions(cond, start);
                append_ins(&mut instructions, cond_instructions);
                let body_instructions = self.statement_to_instructions(*body);
                append_ins(&mut instructions, body_instructions);
                push_ins(&mut instructions, IRInstruction::Label(continue_label));
                let post_instructions = self.effect_to_instructions(post);
                append_ins(&mut instructions, post_instructions);
                push_ins(&mut instructions, IRInstruction::Jump(start));
                push_ins(&mut instructions, IRInstruction::Label(break_label));
                assert(instructions.deep_view() =~= whole.code);
                instructions
            },
            _ => {
                assert(false);
                Vec::new()
            },
        }
    }

    fn exp_to_instructions(&mut self, c_expression: CExpression) -> (r: (IRVal, Vec<IRInstruction>))
        requires
            exp_ir(c_expression@, old(self).next_var_id as int, old(self).next_label_id as int) matches Some(g)
                && fits(old(self).next_var_id as int, old(self).next_label_id as int, g.temps, g.labels),
        ensures
            exp_ir(c_expression@, old(self).next_var_id as int, old(self).next_label_id as int) matches Some(g)
                && r.0 == g.val && r.1.deep_view() == g.code
                && final(self).next_var_id == old(self).next_var_id + g.temps
                && final(self).next_label_id == old(self).next_label_id + g.labels,
        decreases c_expression@, 1int,
    {
        match c_expression {
            CExpression::Factor(f) => self.factor_to_instructions(*f),
            CExpression::Binary(op, exp1, exp2) => {
                let (src1, ins1) = self.exp_to_instructions(*exp1);
                let (src2, ins2) = self.exp_to_instructions(*exp2);
                self.binop_to_instructions(op, src1, ins1, src2, ins2)
            },
            CExpression::Assign(exp1, exp2) => {
                let id = assigned_var(&exp1).unwrap();
                let (result, mut instructions) = self.exp_to_instructions(*exp2);
                let ir_var = IRVal::Var(id);
                push_ins(&mut instructions, IRInstruction::Copy(result, ir_var));
                (ir_var, instructions)
            },
            CExpression::Conditional { cond, then, else_ } => self.conditional_to_instructions(*cond, *then, *else_),
        }
    }

    fn conditional_to_instructions(&mut self, cond: CExpression, then: CExpression, else_: CExpression) -> (r: (IRVal, Vec<IRInstruction>))
        requires
            exp_ir(conditional_of(cond@, then@, else_@),
                old(self).next_var_id as int, old(self).next_label_id as int) matches Some(g)
                && fits(old(self).next_var_id as int, old(self).next_label_id as int, g.temps, g.labels),
        ensures
            exp_ir(conditional_of(cond@, then@, else_@),
                old(self).next_var_id as int, old(self).next_label_id as int) matches Some(g)
                && r.0 == g.val && r.1.deep_view() == g.code
                && final(self).next_var_id == old(self).next_var_id + g.temps
                && final(self).next_label_id == old(self).next_label_id + g.labels,
        decreases conditional_of(cond@, then@, else_@), 0int,
    {
        let res = IRVal::Var(self.create_temp_var());
        let (cond_val, cond_instructions) = self.exp_to_instructions(cond);
        let (then_val, then_instructions) = self.exp_to_instructions(then);
        let (else_val, else_instructions) = self.exp_to_instructions(else_);
        let else_label = self.create_jump_label(LabelKind::Else);
        let end_label = self.create_jump_label(LabelKind::End);
        let mut instructions = cond_instructions;
        push_ins(&mut instructions, IRInstruction::JumpIfZero(cond_val, else_label));
        append_ins(&mut instructions, then_instructions);
        push_ins(&mut instructions, IRInstruction::Copy(then_val, res));
        push_ins(&mut instructions, IRInstruction::Jump(end_label));
        push_ins(&mut instructions, IRInstruction::Label(else_label));
        append_ins(&mut instructions, else_instructions);
        push_ins(&mut instructions, IRInstruction::Copy(else_val, res));
        push_ins(&mut instructions, IRInstruction::Label(end_label));
        (res, instructions)
    }

    fn factor_to_instructions(&mut self, c_factor: CFactor) -> (r: (IRVal, Vec<IRInstruction>))
        requires
            factor_ir(c_factor@, old(self).next_var_id as int, old(self).next_label_id as int) matches Some(g)
                && fits(old(self).next_var_id as int, old(self).next_label_id as int, g.temps, g.labels),
        ensures
            factor_ir(c_factor@, old(self).next_var_id as int, old(self).next_label_id as int) matches Some(g)
                && r.0 == g.val && r.1.deep_view() == g.code
                && final(self).next_var_id == old(self).next_var_id + g.temps
                && final(self).next_label_id == old(self).next_label_id + g.labels,
        decreases c_factor@, 1int,
    {
        match c_factor {
            CFactor::Constant(i) => {
                let v: Vec<IRInstruction> = Vec::new();
                assert(v.deep_view() =~= Seq::<SpecIRInstruction>::empty());
                (IRVal::Constant(i), v)
            },
            CFactor::Unary(op, inner_exp) => {
                let (src, mut inner_instructions) = self.factor_to_instructions(*inner_exp);
                let dst = IRVal::Var(self.create_temp_var());
                push_ins(&mut inner_instructions, IRInstruction::Unary(op, src, dst));
                (dst, inner_instructions)
            },
            CFactor::Expression(exp) => self.exp_to_instructions(exp),
            CFactor::Var(var) => {
                let v: Vec<IRInstruction> = Vec::new();
                assert(v.deep_view() =~= Seq::<SpecIRInstruction>::empty());
                (IRVal::Var(var.id.unwrap()), v)
            },
            CFactor::FunctionCall(name, args) => {
                let dst = IRVal::Var(self.create_temp_var());
                let (ir_args, mut instructions) = self.args_to_instructions(args);
                push_ins(&mut instructions, IRInstruction::FnCall(name, ir_args, dst));
                (dst, instructions)
            },
        }
    }

    fn args_to_instructions(&mut self, args: Vec<CExpression>) -> (r: (Vec<IRVal>, Vec<IRInstruction>))
        requires
            args_ir(exprs_view(args@), old(self).next_var_id as int, old(self).next_label_id as int) matches Some((_, c))
                && fits(old(self).next_var_id as int, old(self).next_label_id as int, c.temps, c.labels),
        ensures
            args_ir(exprs_view(args@), old(self).next_var_id as int, old(self).next_label_id as int) matches Some((vals, c))
                && r.0@ == vals && r.1.deep_view() == c.code
                && final(self).next_var_id == old(self).next_var_id + c.temps
                && final(self).next_label_id == old(self).next_label_id + c.labels,
        decreases exprs_view(args@), 1int,
    {
        let ghost all = exprs_view(args@);
        let ghost v0 = self.next_var_id as int;
        let ghost l0 = self.next_label_id as int;
        let mut rest = args;
        let mut vals: Vec<IRVal> = Vec::new();
        let mut code: Vec<IRInstruction> = Vec::new();
        let ghost mut k: int = 0;
        assert(exprs_view(rest@) =~= all.subrange(0, all.len() as int));
        assert(code.deep_view() =~= Seq::<SpecIRInstruction>::empty());
        assert(vals@ =~= Seq::<IRVal>::empty());
        while rest.len() > 0
            invariant
                0 <= k <= all.len(),
                exprs_view(rest@) == all.subrange(k, all.len() as int),
                all == exprs_view(args@),
                v0 == old(self).next_var_id,
                l0 == old(self).next_label_id,
                v0 <= self.next_var_id,
                l0 <= self.next_label_id,
                args_ir(all, v0, l0) matches Some((_, c)) && fits(v0, l0, c.temps, c.labels),
                args_ir(all, v0, l0) == match args_ir(exprs_view(rest@), self.next_var_id as int, self.next_label_id as int) {
                    Some((vs, c)) => Some((vals@ + vs, Code { code: code.deep_view() + c.code, temps: (self.next_var_id - v0 + c.temps) as nat, labels: (self.next_label_id - l0 + c.labels) as nat })),
                    None => None::<(Seq<IRVal>, Code)>,
                },
            decreases rest.len(),
        {
            let ghost rv = exprs_view(rest@);
            let ghost cv = code.deep_view();
            let ghost vv = vals@;
            let a = rest.remove(0);
            assert(exprs_view(rest@) =~= rv.drop_first());
            assert(a@ == all[k]);
            assert(decreases_to!(all => all[k]));
            proof {
                k = k + 1;
                assert(exprs_view(rest@) =~= all.subrange(k, all.len() as int));
            }
            let (arg_val, arg_instructions) = self.exp_to_instructions(a);
            let ghost pv = arg_instructions.deep_view();
            vals.push(arg_val);
            append_ins(&mut code, arg_instructions);
            proof {
                match args_ir(exprs_view(rest@), self.next_var_id as int, self.next_label_id as int) {
                    Some((vs, c)) => {
                        assert(cv + (pv + c.code) =~= code.deep_view() + c.code);
                        assert(vv + (seq![arg_val] + vs) =~= vals@ + vs);
                    },
                    None => {},
                }
            }
        }
        assert(code.deep_view() + seq![] =~= code.deep_view());
        assert(vals@ + seq![] =~= vals@);
        (vals, code)
    }

    fn binop_to_instructions(&mut self, op: BinaryOp, src1: IRVal, ins1: Vec<IRInstruction>, src2: IRVal, ins2: Vec<IRInstruction>) -> (r: (IRVal, Vec<IRInstruction>))
        requires
            old(self).next_var_id < u32::MAX,
            (op == BinaryOp::LogicalAnd || op == BinaryOp::LogicalOr) ==> old(self).next_label_id + 2 <= u32::MAX,
        ensures
            ({
                let r1 = ExpCode { val: src1, code: ins1.deep_view(), temps: 0, labels: 0 };
                let r2 = ExpCode { val: src2, code: ins2.deep_view(), temps: 0, labels: 0 };
                let g = binop_code(op, r1, r2, old(self).next_var_id as int, old(self).next_label_id as int);
                &&& r.0 == g.val
                &&& r.1.deep_view() == g.code
                &&& final(self).next_var_id == old(self).next_var_id + 1
                &&& final(self).next_label_id == old(self).next_label_id + g.labels
            }),
    {
        let dst = IRVal::Var(self.create_temp_var());
        match op {
            BinaryOp::LogicalAnd => {
                let false_label = self.create_jump_label(LabelKind::False);
                let end_label = self.create_jump_label(LabelKind::End);
                let mut instructions = ins1;
                push_ins(&mut instructions, IRInstruction::JumpIfZero(src1, false_label));
                append_ins(&mut instructions, ins2);
                push_ins(&mut instructions, IRInstruction::JumpIfZero(src2, false_label));
                push_ins(&mut instructions, IRInstruction::Copy(IRVal::Constant(1), dst));
                push_ins(&mut instructions, IRInstruction::Jump(end_label));
                push_ins(&mut instructions, IRInstruction::Label(false_label));
                push_ins(&mut instructions, IRInstruction::Copy(IRVal::Constant(0), dst));
                push_ins(&mut instructions, IRInstruction::Label(end_label));
                (dst, instructions)
            },
            BinaryOp::LogicalOr => {
                let true_label = self.create_jump_label(LabelKind::True);
                let end_label = self.create_jump_label(LabelKind::End);
                let mut instructions = ins1;
                push_ins(&mut instructions, IRInstruction::JumpIfNotZero(src1, true_label));
                append_ins(&mut instructions, ins2);
                push_ins(&mut instructions, IRInstruction::JumpIfNotZero(src2, true_label));
                push_ins(&mut instructions, IRInstruction::Copy(IRVal::Constant(0), dst));
                push_ins(&mut instructions, IRInstruction::Jump(end_label));
                push_ins(&mut instructions, IRInstruction::Label(true_label));
                push_ins(&mut instructions, IRInstruction::Copy(IRVal::Constant(1), dst));
                push_ins(&mut instructions, IRInstruction::Label(end_label));
                (dst, instructions)
            },
            _ => {
                let mut instructions = ins1;
                append_ins(&mut instructions, ins2);
                push_ins(&mut instructions, IRInstruction::Binary(op, src1, src2, dst));
                (dst, instructions)
            },
        }
    }
}

} // verus!
