//! What every program the parser accepts looks like: each parameter has a
//! name, no prefix decrement or assignment-as-operator survives, and calls
//! and parameter lists are no longer than the token list.
use vstd::prelude::*;

use crate::codegen::program_lowerable;
use crate::common::{BinaryOp, Keyword, Operator};
use crate::ir::ir_ast::SpecIRProgram;
use crate::ir::program_ir;
use crate::lexer::SpecToken;
use crate::parser::c_ast::{SpecBlockItem, SpecExpression, SpecFactor, SpecForInit, SpecParam};
use crate::parser::grammar::{
    ahead, expect_at, spec_args, spec_block, spec_block_item, spec_declaration, spec_do_rest,
    spec_expression, spec_expression_rest, spec_factor, spec_fn_declaration, spec_for_init,
    spec_for_rest, spec_functions, spec_if_rest, spec_optional_expression, spec_param_list,
    spec_params, spec_program, spec_return_rest, spec_statement, spec_var_declaration,
    spec_var_or_call, spec_while_rest, tok_at,
};
use crate::parser::semantic_analysis::{label_functions, res_functions};
use crate::stages::{
    lemma_checked_program_lowers, params_named, plain_args, plain_expr, plain_factor, plain_fn,
    plain_item, plain_items, plain_opt, plain_stmt,
};

verus! {

/// The token list is short enough that eight bytes per token, and sixteen
/// more, can be counted in `usize`.
pub open spec fn countable(t: Seq<SpecToken>) -> bool {
    8 * t.len() + 16 <= usize::MAX
}

/// Every parameter has a name.
pub open spec fn named(ps: Seq<SpecParam>) -> bool {
    forall|j: int| 0 <= j < ps.len() ==> (#[trigger] ps[j]).name is Some
}

proof fn lemma_factor(t: Seq<SpecToken>, p: int)
    requires
        0 <= p,
        countable(t),
    ensures
        spec_factor(t, p) matches Ok((f, q)) ==> p < q <= t.len() && plain_factor(f),
    decreases t.len() - p, 1int,
{
    match tok_at(t, p) {
        Some(SpecToken::Operator(op)) => {
            if op != Operator::Decrement && op.spec_to_unop() is Some {
                lemma_factor(t, p + 1);
            }
        },
        Some(SpecToken::OpenParenthesis) => {
            lemma_expression(t, p + 1, 0);
        },
        Some(SpecToken::Identifier(name)) => {
            lemma_var_or_call(t, p + 1, name);
        },
        _ => {},
    }
}

proof fn lemma_var_or_call(t: Seq<SpecToken>, p: int, name: Seq<char>)
    requires
        0 < p <= t.len(),
        countable(t),
    ensures
        spec_var_or_call(t, p, name) matches Ok((f, q)) ==> p <= q <= t.len() && plain_factor(f),
    decreases t.len() - p, 0int,
{
    if tok_at(t, p) == Some(SpecToken::OpenParenthesis) {
        lemma_args(t, p + 1);
        match spec_args(t, p + 1) {
            Ok((a, q)) => {
                assert(a.len() <= t.len());
                assert(8 * a.len() + 8 <= usize::MAX);
            },
            Err(_) => {
                assert(plain_args(Seq::<SpecExpression>::empty()));
            },
        }
    }
}

proof fn lemma_args(t: Seq<SpecToken>, p: int)
    requires
        0 <= p,
        countable(t),
    ensures
        spec_args(t, p) matches Ok((a, q)) ==> p < q <= t.len() && a.len() <= q - p && plain_args(a),
    decreases t.len() - p, 3int,
{
    lemma_expression(t, p, 0);
    if let Ok((e, q)) = spec_expression(t, p, 0) {
        if tok_at(t, q) != Some(SpecToken::CloseParenthesis) {
            if let Ok(q2) = expect_at(t, q, SpecToken::Comma) {
                if ahead(t, p, q2) {
                    lemma_args(t, q2);
                    if let Ok((rest, r)) = spec_args(t, q2) {
                        assert((seq![e] + rest).drop_first() =~= rest);
                        assert((seq![e] + rest)[0] == e);
                    }
                }
            }
        } else {
            assert(seq![e].drop_first() =~= Seq::<SpecExpression>::empty());
            assert(seq![e][0] == e);
            assert(plain_expr(e));
            assert(plain_args(Seq::<SpecExpression>::empty()));
            assert(plain_args(seq![e]));
        }
    }
}

proof fn lemma_expression(t: Seq<SpecToken>, p: int, min: u32)
    requires
        0 <= p,
        countable(t),
    ensures
        spec_expression(t, p, min) matches Ok((e, q)) ==> p < q <= t.len() && plain_expr(e),
    decreases t.len() - p, 2int,
{
    lemma_factor(t, p);
    if let Ok((f, q)) = spec_factor(t, p) {
        if ahead(t, p, q) {
            lemma_expression_rest(t, SpecExpression::Factor(Box::new(f)), q, min);
        }
    }
}

proof fn lemma_expression_rest(t: Seq<SpecToken>, left: SpecExpression, p: int, min: u32)
    requires
        0 <= p <= t.len(),
        countable(t),
        plain_expr(left),
    ensures
        spec_expression_rest(t, left, p, min) matches Ok((e, q)) ==> p <= q <= t.len() && plain_expr(e),
    decreases t.len() - p, 2int,
{
    if let Some(SpecToken::Operator(op)) = tok_at(t, p) {
        if op.spec_to_binop() is Some && op.spec_precedence() >= min {
            let b = op.spec_to_binop().unwrap();
            if b == BinaryOp::Assign {
                lemma_expression(t, p + 1, b.spec_precedence());
                if let Ok((right, r)) = spec_expression(t, p + 1, b.spec_precedence()) {
                    if ahead(t, p, r) {
                        lemma_expression_rest(
                            t,
                            SpecExpression::Assign(Box::new(left), Box::new(right)),
                            r,
                            min,
                        );
                    }
                }
            } else if b == BinaryOp::Conditional {
                lemma_expression(t, p + 1, 0);
                if let Ok((middle, r)) = spec_expression(t, p + 1, 0) {
                    if let Ok(r2) = expect_at(t, r, SpecToken::Colon) {
                        if ahead(t, p, r2) {
                            lemma_expression(t, r2, b.spec_precedence());
                            if let Ok((right, r3)) = spec_expression(t, r2, b.spec_precedence()) {
                                if ahead(t, p, r3) {
                                    lemma_expression_rest(
                                        t,
                                        SpecExpression::Conditional {
                                            cond: Box::new(left),
                                            then: Box::new(middle),
                                            else_: Box::new(right),
                                        },
                                        r3,
                                        min,
                                    );
                                }
                            }
                        }
                    }
                }
            } else {
                lemma_expression(t, p + 1, (b.spec_precedence() + 1) as u32);
                if let Ok((right, r)) = spec_expression(t, p + 1, (b.spec_precedence() + 1) as u32) {
                    if ahead(t, p, r) {
                        lemma_expression_rest(
                            t,
                            SpecExpression::Binary(b, Box::new(left), Box::new(right)),
                            r,
                            min,
                        );
                    }
                }
            }
        }
    }
}

proof fn lemma_optional_expression(t: Seq<SpecToken>, p: int, end: SpecToken)
    requires
        0 <= p,
        countable(t),
    ensures
        spec_optional_expression(t, p, end) matches Ok((o, q)) ==> p < q <= t.len() && plain_opt(o),
    decreases t.len() - p, 3int,
{
    lemma_expression(t, p, 0);
}

proof fn lemma_var_declaration(t: Seq<SpecToken>, p: int)
    requires
        0 <= p,
        countable(t),
    ensures
        spec_var_declaration(t, p) matches Ok((d, q)) ==> p < q <= t.len() && plain_opt(d.init),
    decreases t.len() - p, 3int,
{
    lemma_factor(t, p);
    if let Ok((SpecFactor::Var(v), q)) = spec_factor(t, p) {
        if tok_at(t, q) == Some(SpecToken::Operator(Operator::Assign)) && p <= q {
            lemma_expression(t, q + 1, 0);
        }
    }
}

proof fn lemma_statement(t: Seq<SpecToken>, p: int)
    requires
        0 <= p,
        countable(t),
    ensures
        spec_statement(t, p) matches Ok((s, q)) ==> p < q <= t.len() && plain_stmt(s),
    decreases t.len() - p, 4int,
{
    match tok_at(t, p) {
        Some(SpecToken::Keyword(Keyword::Return)) => lemma_return_rest(t, p + 1),
        Some(SpecToken::Keyword(Keyword::If)) => lemma_if_rest(t, p + 1),
        Some(SpecToken::Keyword(Keyword::Break)) => {},
        Some(SpecToken::Keyword(Keyword::Continue)) => {},
        Some(SpecToken::Keyword(Keyword::While)) => lemma_while_rest(t, p + 1),
        Some(SpecToken::Keyword(Keyword::Do)) => lemma_do_rest(t, p + 1),
        Some(SpecToken::Keyword(Keyword::For)) => lemma_for_rest(t, p + 1),
        Some(SpecToken::OpenBrace) => lemma_block(t, p + 1),
        Some(SpecToken::Semicolon) => {},
        _ => lemma_expression(t, p, 0),
    }
}

proof fn lemma_return_rest(t: Seq<SpecToken>, q: int)
    requires
        0 < q <= t.len(),
        countable(t),
    ensures
        spec_return_rest(t, q) matches Ok((s, r)) ==> q < r <= t.len() && plain_stmt(s),
    decreases t.len() - q, 5int,
{
    lemma_expression(t, q, 0);
}

proof fn lemma_if_rest(t: Seq<SpecToken>, q: int)
    requires
        0 < q <= t.len(),
        countable(t),
    ensures
        spec_if_rest(t, q) matches Ok((s, r)) ==> q < r <= t.len() && plain_stmt(s),
    decreases t.len() - q, 5int,
{
    if let Ok(q1) = expect_at(t, q, SpecToken::OpenParenthesis) {
        if ahead(t, q, q1) {
            lemma_expression(t, q1, 0);
            if let Ok((cond, q2)) = spec_expression(t, q1, 0) {
                if let Ok(q3) = expect_at(t, q2, SpecToken::CloseParenthesis) {
                    if ahead(t, q, q3) {
                        lemma_statement(t, q3);
                        if let Ok((then, q4)) = spec_statement(t, q3) {
                            if tok_at(t, q4) == Some(SpecToken::Keyword(Keyword::Else)) && q <= q4 {
                                lemma_statement(t, q4 + 1);
                            }
                        }
                    }
                }
            }
        }
    }
}

proof fn lemma_while_rest(t: Seq<SpecToken>, q: int)
    requires
        0 < q <= t.len(),
        countable(t),
    ensures
        spec_while_rest(t, q) matches Ok((s, r)) ==> q < r <= t.len() && plain_stmt(s),
    decreases t.len() - q, 5int,
{
    if let Ok(q1) = expect_at(t, q, SpecToken::OpenParenthesis) {
        if ahead(t, q, q1) {
            lemma_expression(t, q1, 0);
            if let Ok((cond, q2)) = spec_expression(t, q1, 0) {
                if let Ok(q3) = expect_at(t, q2, SpecToken::CloseParenthesis) {
                    if ahead(t, q, q3) {
                        lemma_statement(t, q3);
                    }
                }
            }
        }
    }
}

proof fn lemma_do_rest(t: Seq<SpecToken>, q: int)
    requires
        0 < q <= t.len(),
        countable(t),
    ensures
        spec_do_rest(t, q) matches Ok((s, r)) ==> q < r <= t.len() && plain_stmt(s),
    decreases t.len() - q, 5int,
{
    lemma_statement(t, q);
    if let Ok((body, q1)) = spec_statement(t, q) {
        if let Ok(q2) = expect_at(t, q1, SpecToken::Keyword(Keyword::While)) {
            if let Ok(q3) = expect_at(t, q2, SpecToken::OpenParenthesis) {
                if ahead(t, q, q3) {
                    lemma_expression(t, q3, 0);
                }
            }
        }
    }
}

proof fn lemma_for_init(t: Seq<SpecToken>, q: int)
    requires
        0 < q <= t.len(),
        countable(t),
    ensures
        spec_for_init(t, q) matches Ok((init, r)) ==> q < r <= t.len() && match init {
            SpecForInit::InitDecl(d) => plain_opt(d.init),
            SpecForInit::InitExp(e) => plain_opt(e),
        },
    decreases t.len() - q, 5int,
{
    if tok_at(t, q) == Some(SpecToken::Keyword(Keyword::Int)) {
        lemma_var_declaration(t, q + 1);
    } else {
        lemma_optional_expression(t, q, SpecToken::Semicolon);
    }
}

proof fn lemma_for_rest(t: Seq<SpecToken>, q: int)
    requires
        0 < q <= t.len(),
        countable(t),
    ensures
        spec_for_rest(t, q) matches Ok((s, r)) ==> q < r <= t.len() && plain_stmt(s),
    decreases t.len() - q, 5int,
{
    if let Ok(q1) = expect_at(t, q, SpecToken::OpenParenthesis) {
        if ahead(t, q, q1) {
            lemma_for_init(t, q1);
            if let Ok((init, q2)) = spec_for_init(t, q1) {
                if ahead(t, q, q2) {
                    lemma_optional_expression(t, q2, SpecToken::Semicolon);
                    if let Ok((cond, q3)) = spec_optional_expression(t, q2, SpecToken::Semicolon) {
                        if ahead(t, q, q3) {
                            lemma_optional_expression(t, q3, SpecToken::CloseParenthesis);
                            if let Ok((post, q4)) = spec_optional_expression(t, q3, SpecToken::CloseParenthesis) {
                                if ahead(t, q, q4) {
                                    lemma_statement(t, q4);
                                }
                            }
                        }
                    }
                }
            }
        }
    }
}

proof fn lemma_block(t: Seq<SpecToken>, p: int)
    requires
        0 <= p,
        countable(t),
    ensures
        spec_block(t, p) matches Ok((items, q)) ==> p < q <= t.len() && plain_items(items),
    decreases t.len() - p, 6int,
{
    if let Some(tk) = tok_at(t, p) {
        if tk != SpecToken::CloseBrace {
            lemma_block_item(t, p);
            if let Ok((it, q)) = spec_block_item(t, p) {
                if ahead(t, p, q) {
                    lemma_block(t, q);
                    if let Ok((rest, r)) = spec_block(t, q) {
                        assert((seq![it] + rest).drop_first() =~= rest);
                        assert((seq![it] + rest)[0] == it);
                    }
                }
            }
        }
    }
}

proof fn lemma_block_item(t: Seq<SpecToken>, p: int)
    requires
        0 <= p,
        countable(t),
    ensures
        spec_block_item(t, p) matches Ok((it, q)) ==> p < q <= t.len() && plain_item(it),
    decreases t.len() - p, 5int,
{
    if tok_at(t, p) == Some(SpecToken::Keyword(Keyword::Int)) {
        lemma_declaration(t, p);
    } else {
        lemma_statement(t, p);
    }
}

proof fn lemma_declaration(t: Seq<SpecToken>, p: int)
    requires
        0 <= p,
        countable(t),
    ensures
        spec_declaration(t, p) matches Ok((d, q)) ==> p < q <= t.len()
            && plain_item(SpecBlockItem::Declaration(d)),
    decreases t.len() - p, 4int,
{
    if let Ok(q) = expect_at(t, p, SpecToken::Keyword(Keyword::Int)) {
        if tok_at(t, q + 1) == Some(SpecToken::OpenParenthesis) {
            lemma_fn_declaration(t, q);
        } else {
            lemma_var_declaration(t, q);
        }
    }
}

proof fn lemma_fn_declaration(t: Seq<SpecToken>, p: int)
    requires
        0 <= p,
        countable(t),
    ensures
        spec_fn_declaration(t, p) matches Ok((f, q)) ==> p < q <= t.len() && plain_fn(f) && named(f.params),
    decreases t.len() - p, 9int,
{
    if let Some(SpecToken::Identifier(name)) = tok_at(t, p) {
        if let Ok(q1) = expect_at(t, p + 1, SpecToken::OpenParenthesis) {
            if ahead(t, p, q1) {
                lemma_params(t, q1);
                if let Ok((ps, q2)) = spec_params(t, q1) {
                    if let Ok(q3) = expect_at(t, q2, SpecToken::CloseParenthesis) {
                        if tok_at(t, q3) == Some(SpecToken::OpenBrace) && p <= q3 {
                            lemma_block(t, q3 + 1);
                        }
                    }
                }
            }
        }
    }
}

proof fn lemma_params(t: Seq<SpecToken>, p: int)
    requires
        0 <= p,
        countable(t),
    ensures
        spec_params(t, p) matches Ok((ps, q)) ==> p <= q <= t.len() && ps.len() <= q - p && named(ps),
    decreases t.len() - p, 8int,
{
    if tok_at(t, p) != Some(SpecToken::Keyword(Keyword::Void)) {
        lemma_param_list(t, p);
    }
}

proof fn lemma_param_list(t: Seq<SpecToken>, p: int)
    requires
        0 <= p,
        countable(t),
    ensures
        spec_param_list(t, p) matches Ok((ps, q)) ==> p < q <= t.len() && ps.len() <= q - p && named(ps),
    decreases t.len() - p, 7int,
{
    if let Ok(q) = expect_at(t, p, SpecToken::Keyword(Keyword::Int)) {
        if let Some(SpecToken::Identifier(name)) = tok_at(t, q) {
            let prm = SpecParam { keyword: Keyword::Int, name: Some(name), id: None };
            if tok_at(t, q + 1) != Some(SpecToken::CloseParenthesis) {
                if let Ok(r) = expect_at(t, q + 1, SpecToken::Comma) {
                    if ahead(t, p, r) {
                        lemma_param_list(t, r);
                        if let Ok((rest, s)) = spec_param_list(t, r) {
                            let all = seq![prm] + rest;
                            assert forall|j: int| 0 <= j < all.len() implies (#[trigger] all[j]).name is Some by {
                                if j > 0 {
                                    assert(all[j] == rest[j - 1]);
                                }
                            }
                        }
                    }
                }
            }
        }
    }
}

proof fn lemma_functions(t: Seq<SpecToken>, p: int)
    requires
        0 <= p <= t.len(),
        countable(t),
    ensures
        spec_functions(t, p) matches Ok((fs, q)) ==> p <= q <= t.len() && params_named(fs)
            && forall|i: int| 0 <= i < fs.len() ==> plain_fn(#[trigger] fs[i]),
    decreases t.len() - p, 10int,
{
    if tok_at(t, p) == Some(SpecToken::Keyword(Keyword::Int)) {
        lemma_fn_declaration(t, p + 1);
        if let Ok((f, q)) = spec_fn_declaration(t, p + 1) {
            if ahead(t, p, q) {
                lemma_functions(t, q);
                if let Ok((fs, r)) = spec_functions(t, q) {
                    let all = seq![f] + fs;
                    assert forall|i: int| 0 <= i < all.len() implies plain_fn(#[trigger] all[i]) by {
                        if i > 0 {
                            assert(all[i] == fs[i - 1]);
                        }
                    }
                    assert forall|i: int, j: int| #![trigger all[i].params[j]]
                        0 <= i < all.len() && 0 <= j < all[i].params.len() implies all[i].params[j].name is Some by {
                        if i > 0 {
                            assert(all[i] == fs[i - 1]);
                            assert(fs[i - 1].params[j].name is Some);
                        } else {
                            assert(f.params[j].name is Some);
                        }
                    }
                }
            }
        }
    }
}

/// Every function of a program the parser accepts has named parameters and
/// plain operations: no prefix decrement, no assignment or conditional as a
/// binary operation, and calls and parameter lists short enough to count
/// their stack space.
pub proof fn lemma_parsed_program_is_plain(t: Seq<SpecToken>)
    requires
        countable(t),
        spec_program(t, 0) is Ok,
    ensures
        params_named((spec_program(t, 0)->Ok_0).functions),
        forall|i: int| 0 <= i < (spec_program(t, 0)->Ok_0).functions.len()
            ==> plain_fn(#[trigger] (spec_program(t, 0)->Ok_0).functions[i]),
{
    lemma_functions(t, 0);
}

/// Every program that the parser accepts, and that resolution and then loop
/// labelling accept, translates to three-address code that the code
/// generator can lower, whatever numbers the counters start from.
pub proof fn lemma_accepted_program_compiles(t: Seq<SpecToken>, n: int, next: int, v: int, l: int)
    requires
        countable(t),
        spec_program(t, 0) is Ok,
        res_functions((spec_program(t, 0)->Ok_0).functions, Seq::empty(), n).0 is Ok,
        label_functions(res_functions((spec_program(t, 0)->Ok_0).functions, Seq::empty(), n).0->Ok_0, next).0 is Ok,
    ensures
        ({
            let fs = label_functions(res_functions((spec_program(t, 0)->Ok_0).functions, Seq::empty(), n).0->Ok_0, next).0->Ok_0;
            &&& program_ir(fs, v, l) is Some
            &&& program_lowerable(SpecIRProgram { functions: program_ir(fs, v, l).unwrap().0 })
        }),
{
    lemma_parsed_program_is_plain(t);
    lemma_checked_program_lowers((spec_program(t, 0)->Ok_0).functions, n, next, v, l);
}

} // verus!
