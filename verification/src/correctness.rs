//! The laws tying the compiler to the machine.
//!
//! The compiler's methods are verified against the mirror functions
//! [`c_expr`] and [`c_stmt`], and the machine's `exec` loop against the
//! specification semantics [`run`] and [`step_op`].  This module connects
//! the two ends: executing the code emitted for an arithmetic expression
//! pushes exactly the value of the expression tree, a compiled `print` of
//! such an expression prints exactly that value, and the code emitted for
//! an `if`/`if-else` hands control to exactly one of its two branches.

use vstd::prelude::*;
use crate::byte_code::{arith_result, run, spec_truthy, step_op, Op, RunRes, StepRes, Value, VmState};
use crate::compiler::{c_expr, c_stmt, c_stmts, spec_parse_number, StmtEmit};
use crate::expr::Expr;
use crate::stmt::Stmt;
use crate::token::TokenType;

verus! {

/// An arithmetic expression over numeric literals: number literals
/// combined by the four arithmetic operators, unary minus and grouping.
pub open spec fn is_arith(e: Expr) -> bool
    decreases e,
{
    match e {
        Expr::Literal(lit) => lit.value.token_type == TokenType::Number,
        Expr::Grouping(g) => is_arith(*g.expression),
        Expr::Unary(u) => u.operator.token_type == TokenType::Minus && is_arith(*u.right),
        Expr::Binary(b) => (b.operator.token_type == TokenType::Plus || b.operator.token_type
            == TokenType::Minus || b.operator.token_type == TokenType::Star
            || b.operator.token_type == TokenType::Slash) && is_arith(*b.left) && is_arith(
            *b.right,
        ),
        _ => false,
    }
}

/// Direct evaluation of an arithmetic expression tree, with exactly the
/// machine's number semantics: a result that leaves the number range, or
/// a division by zero, has no value.
pub open spec fn eval_arith(e: Expr) -> Option<int>
    decreases e,
{
    match e {
        Expr::Literal(lit) => match spec_parse_number(lit.value.lexeme@) {
            Some(n) => Some(n as int),
            None => None,
        },
        Expr::Grouping(g) => eval_arith(*g.expression),
        Expr::Unary(u) => match eval_arith(*u.right) {
            Some(v) => if v == i64::MIN {
                None
            } else {
                Some(-v)
            },
            None => None,
        },
        Expr::Binary(b) => match (eval_arith(*b.left), eval_arith(*b.right)) {
            (Some(l), Some(r)) => {
                let op = match b.operator.token_type {
                    TokenType::Plus => Op::Add,
                    TokenType::Minus => Op::Sub,
                    TokenType::Star => Op::Mul,
                    _ => Op::Div,
                };
                arith_result(op, l, r)
            },
            _ => None,
        },
        _ => None,
    }
}

/// Straight-line execution: runs a sequence of instructions that all fall
/// through to their successor.  Any jump, halt, or fault has no result.
pub open spec fn run_straight(ops: Seq<Op>, consts: Seq<Value>, st: VmState) -> Option<VmState>
    decreases ops.len(),
{
    if ops.len() == 0 {
        Some(st)
    } else {
        match step_op(ops[0], consts, st) {
            StepRes::Next { st: st2, delta } => {
                if delta == 1 {
                    run_straight(ops.drop_first(), consts, st2)
                } else {
                    None
                }
            },
            _ => None,
        }
    }
}

/// Straight-line execution splits over concatenation.
pub proof fn lemma_run_straight_app(a: Seq<Op>, b: Seq<Op>, consts: Seq<Value>, st: VmState)
    ensures
        run_straight(a + b, consts, st) == (match run_straight(a, consts, st) {
            Some(st1) => run_straight(b, consts, st1),
            None => None,
        }),
    decreases a.len(),
{
    if a.len() == 0 {
        assert(a + b =~= b);
    } else {
        assert((a + b)[0] == a[0]);
        match step_op(a[0], consts, st) {
            StepRes::Next { st: st2, delta } => {
                if delta == 1 {
                    assert((a + b).drop_first() =~= a.drop_first() + b);
                    lemma_run_straight_app(a.drop_first(), b, consts, st2);
                }
            },
            _ => {},
        }
    }
}

/// A straight-line fragment embedded in a larger program carries the full
/// run from the fragment's start to the instruction after it.
pub proof fn lemma_run_straight_embed(
    code: Seq<Op>,
    consts: Seq<Value>,
    p: int,
    ops: Seq<Op>,
    st: VmState,
    st2: VmState,
)
    requires
        0 <= p,
        p + ops.len() <= code.len(),
        code.subrange(p, p + ops.len()) == ops,
        run_straight(ops, consts, st) == Some(st2),
    ensures
        run(code, consts, st, p) == run(code, consts, st2, p + ops.len()),
    decreases ops.len(),
{
    if ops.len() == 0 {
    } else {
        assert(code[p] == code.subrange(p, p + ops.len())[0]);
        match step_op(ops[0], consts, st) {
            StepRes::Next { st: stm, delta } => {
                assert(delta == 1);
                assert(code.subrange(p + 1, p + ops.len()) =~= ops.drop_first());
                lemma_run_straight_embed(
                    code,
                    consts,
                    p + 1,
                    ops.drop_first(),
                    stm,
                    st2,
                );
            },
            _ => {
                assert(false);
            },
        }
    }
}

/// Running the code the compiler emits for an arithmetic expression over
/// numeric literals pushes exactly the value of evaluating the tree
/// directly, whatever stack it starts from, and prints nothing.
pub proof fn lemma_arith_expr_correct(
    e: Expr,
    cbase: int,
    locals: Seq<Seq<char>>,
    ss: int,
    consts: Seq<Value>,
    st: VmState,
)
    requires
        is_arith(e),
        c_expr(e, cbase, locals, ss) is Some,
        eval_arith(e) is Some,
        0 <= cbase,
        cbase + c_expr(e, cbase, locals, ss)->Some_0.consts.len() <= consts.len(),
        consts.subrange(cbase, cbase + c_expr(e, cbase, locals, ss)->Some_0.consts.len() as int)
            == c_expr(e, cbase, locals, ss)->Some_0.consts,
    ensures
        i64::MIN <= eval_arith(e)->Some_0 <= i64::MAX,
        run_straight(c_expr(e, cbase, locals, ss)->Some_0.code, consts, st) == Some(
            VmState {
                stack: st.stack.push(Value::Number(eval_arith(e)->Some_0 as i64)),
                out: st.out,
            },
        ),
    decreases e,
{
    reveal_with_fuel(run_straight, 4);
    let em = c_expr(e, cbase, locals, ss)->Some_0;
    let v = eval_arith(e)->Some_0;
    match e {
        Expr::Literal(lit) => {
            let n = spec_parse_number(lit.value.lexeme@)->Some_0;
            assert(em.code =~= seq![Op::PushConstant(cbase as u8)]);
            assert(em.consts =~= seq![Value::Number(n)]);
            assert(consts[cbase] == consts.subrange(cbase, cbase + 1)[0]);
            assert(consts[cbase] == Value::Number(n));
            assert(em.code.drop_first().len() == 0);
            assert(run_straight(em.code, consts, st) == Some(
                VmState { stack: st.stack.push(Value::Number(n)), out: st.out },
            ));
        },
        Expr::Grouping(g) => {
            lemma_arith_expr_correct(*g.expression, cbase, locals, ss, consts, st);
        },
        Expr::Unary(u) => {
            let inner = c_expr(*u.right, cbase, locals, ss)->Some_0;
            let iv = eval_arith(*u.right)->Some_0;
            lemma_arith_expr_correct(*u.right, cbase, locals, ss, consts, st);
            lemma_run_straight_app(inner.code, seq![Op::Neg], consts, st);
            let st1 = VmState { stack: st.stack.push(Value::Number(iv as i64)), out: st.out };
            assert(st1.stack.len() >= 1);
            assert(st1.stack.last() == Value::Number(iv as i64));
            assert(seq![Op::Neg].drop_first().len() == 0);
            assert(st1.stack.update(st1.stack.len() - 1, Value::Number((-iv) as i64)) =~= st.stack
                .push(Value::Number((-iv) as i64)));
        },
        Expr::Binary(b) => {
            let l = c_expr(*b.left, cbase, locals, ss)->Some_0;
            let r = c_expr(*b.right, cbase + l.consts.len(), locals, ss + 1)->Some_0;
            let lv = eval_arith(*b.left)->Some_0;
            let rv = eval_arith(*b.right)->Some_0;
            let op = match b.operator.token_type {
                TokenType::Plus => Op::Add,
                TokenType::Minus => Op::Sub,
                TokenType::Star => Op::Mul,
                _ => Op::Div,
            };
            assert(consts.subrange(cbase, cbase + l.consts.len() as int) =~= consts.subrange(
                cbase,
                cbase + em.consts.len() as int,
            ).subrange(0, l.consts.len() as int));
            assert(consts.subrange(cbase, cbase + l.consts.len() as int) =~= l.consts);
            lemma_arith_expr_correct(*b.left, cbase, locals, ss, consts, st);
            let st1 = VmState { stack: st.stack.push(Value::Number(lv as i64)), out: st.out };
            assert(consts.subrange(
                cbase + l.consts.len() as int,
                cbase + l.consts.len() + r.consts.len() as int,
            ) =~= consts.subrange(cbase, cbase + em.consts.len() as int).subrange(
                l.consts.len() as int,
                l.consts.len() + r.consts.len() as int,
            ));
            assert(consts.subrange(
                cbase + l.consts.len() as int,
                cbase + l.consts.len() + r.consts.len() as int,
            ) =~= r.consts);
            lemma_arith_expr_correct(
                *b.right,
                cbase + l.consts.len() as int,
                locals,
                ss + 1,
                consts,
                st1,
            );
            let st2 = VmState { stack: st1.stack.push(Value::Number(rv as i64)), out: st.out };
            assert(em.code =~= (l.code + r.code) + seq![op]);
            lemma_run_straight_app(l.code, r.code, consts, st);
            lemma_run_straight_app(l.code + r.code, seq![op], consts, st);
            assert(run_straight(l.code + r.code, consts, st) == Some(st2));
            // the operator pops the right operand and overwrites the left
            // operand's slot with the result
            assert(st2.stack.len() >= 2);
            assert(st2.stack.last() == Value::Number(rv as i64));
            assert(st2.stack.drop_last() =~= st.stack.push(Value::Number(lv as i64)));
            assert(arith_result(op, lv, rv) == Some(v));
            let popped = st2.stack.drop_last();
            assert(popped.update(popped.len() - 1, Value::Number(v as i64)) =~= st.stack.push(
                Value::Number(v as i64),
            ));
            assert(seq![op].drop_first().len() == 0);
        },
        _ => {},
    }
}

/// Compiling and executing `print e;` for an arithmetic expression over
/// numeric literals prints exactly the value of evaluating the tree
/// directly, and nothing else, with no error: what the machine computes
/// is what the expression means.
pub proof fn lemma_arith_print_program(e: Expr, consts: Seq<Value>, code: Seq<Op>)
    requires
        is_arith(e),
        eval_arith(e) is Some,
        c_stmts(seq![Stmt::Print(crate::stmt::Print { expression: e })], 1, Seq::<Seq<char>>::empty(), 0) is Some,
        code == c_stmts(seq![Stmt::Print(crate::stmt::Print { expression: e })], 1, Seq::<Seq<char>>::empty(), 0)->Some_0.code
            + seq![Op::Return],
        consts == seq![Value::Number(0)] + c_stmts(
            seq![Stmt::Print(crate::stmt::Print { expression: e })],
            1,
            Seq::<Seq<char>>::empty(),
            0,
        )->Some_0.consts,
    ensures
        run(code, consts, VmState { stack: Seq::<Value>::empty(), out: Seq::<Value>::empty() }, 0)
            == (RunRes::Done {
            st: VmState {
                stack: Seq::<Value>::empty(),
                out: seq![Value::Number(eval_arith(e)->Some_0 as i64)],
            },
            err: false,
        }),
{
    reveal_with_fuel(c_stmts, 3);
    reveal_with_fuel(run_straight, 4);
    let prog = seq![Stmt::Print(crate::stmt::Print { expression: e })];
    let sm = c_stmts(prog, 1, Seq::<Seq<char>>::empty(), 0)->Some_0;
    assert(prog.drop_first().len() == 0);
    let pm = c_stmt(prog[0], 1, Seq::<Seq<char>>::empty(), 0)->Some_0;
    let em = c_expr(e, 1, Seq::<Seq<char>>::empty(), 0)->Some_0;
    assert(pm.code =~= em.code + seq![Op::Print, Op::Pop]);
    assert(sm.code =~= pm.code + Seq::<Op>::empty());
    assert(sm.code =~= em.code + seq![Op::Print, Op::Pop]);
    assert(sm.consts =~= pm.consts + Seq::<Value>::empty());
    assert(sm.consts =~= em.consts);
    let v = eval_arith(e)->Some_0;
    let st0 = VmState { stack: Seq::<Value>::empty(), out: Seq::<Value>::empty() };
    assert(consts.subrange(1, 1 + em.consts.len() as int) =~= em.consts);
    lemma_arith_expr_correct(e, 1, Seq::<Seq<char>>::empty(), 0, consts, st0);
    let st1 = VmState { stack: st0.stack.push(Value::Number(v as i64)), out: st0.out };
    lemma_run_straight_app(em.code, seq![Op::Print, Op::Pop], consts, st0);
    // Print appends the top of the stack to the output; Pop discards it
    let st2 = VmState { stack: st1.stack, out: st1.out.push(Value::Number(v as i64)) };
    let tail = seq![Op::Print, Op::Pop];
    assert(tail.drop_first() =~= seq![Op::Pop]);
    assert(tail.drop_first().drop_first().len() == 0);
    let st3 = VmState { stack: st2.stack.drop_last(), out: st2.out };
    assert(st3.stack =~= Seq::<Value>::empty());
    assert(run_straight(sm.code, consts, st0) == Some(st3));
    assert(code.subrange(0, sm.code.len() as int) =~= sm.code);
    lemma_run_straight_embed(code, consts, 0, sm.code, st0, st3);
    assert(code[sm.code.len() as int] == Op::Return);
    assert(run(code, consts, st3, sm.code.len() as int) == (RunRes::Done { st: st3, err: false }));
    assert(st3.out =~= seq![Value::Number(v as i64)]);
}

/// In the code emitted for an `if`/`if-else` statement, once the
/// condition's value is on the stack, control passes to exactly one of
/// the two branches: with a truthy condition the run continues at the
/// first instruction of the `then` branch, with a falsy one at the first
/// instruction of the `else` branch, and on both paths the condition has
/// been popped, so the stack is back to its depth before the construct.
pub proof fn lemma_if_one_branch(
    if_: crate::stmt::If,
    cbase: int,
    locals: Seq<Seq<char>>,
    ss: int,
    code: Seq<Op>,
    consts: Seq<Value>,
    p: int,
    st: VmState,
    st1: VmState,
    cv: Value,
)
    requires
        c_stmt(Stmt::If(if_), cbase, locals, ss) is Some,
        0 <= p,
        p + c_stmt(Stmt::If(if_), cbase, locals, ss)->Some_0.code.len() <= code.len(),
        code.subrange(p, p + c_stmt(Stmt::If(if_), cbase, locals, ss)->Some_0.code.len() as int)
            == c_stmt(Stmt::If(if_), cbase, locals, ss)->Some_0.code,
        run_straight(c_expr(if_.condition, cbase, locals, ss)->Some_0.code, consts, st) == Some(
            st1,
        ),
        st1.stack == st.stack.push(cv),
    ensures
        ({
            let cond = c_expr(if_.condition, cbase, locals, ss)->Some_0;
            let then = c_stmt(*if_.then_branch, cbase + cond.consts.len(), locals, ss)->Some_0;
            &&& (spec_truthy(cv) ==> run(code, consts, st, p) == run(
                code,
                consts,
                VmState { stack: st.stack, out: st1.out },
                p + cond.code.len() + 2,
            ))
            &&& (!spec_truthy(cv) ==> run(code, consts, st, p) == run(
                code,
                consts,
                VmState { stack: st.stack, out: st1.out },
                p + cond.code.len() + then.code.len() + 4,
            ))
        }),
{
    let sm = c_stmt(Stmt::If(if_), cbase, locals, ss)->Some_0;
    let cond = c_expr(if_.condition, cbase, locals, ss)->Some_0;
    let then = c_stmt(*if_.then_branch, cbase + cond.consts.len(), locals, ss)->Some_0;
    let els = if if_.else_branch is Some {
        c_stmt(
            *if_.else_branch->Some_0,
            cbase + cond.consts.len() + then.consts.len(),
            locals,
            ss,
        )->Some_0
    } else {
        StmtEmit {
            code: Seq::<Op>::empty(),
            consts: Seq::<Value>::empty(),
            locals,
            ss,
        }
    };
    let t = then.code.len() as int;
    let ec = els.code.len() as int;
    let c = cond.code.len() as int;
    assert(sm.code =~= cond.code + seq![Op::JumpIfFalse((t + 3) as i16), Op::Pop] + then.code
        + seq![Op::Jump((ec + 2) as i16), Op::Pop] + els.code);
    assert(sm.code.len() == c + t + ec + 4);
    // the condition's code is the fragment's prefix
    assert(code.subrange(p, p + c) =~= cond.code);
    lemma_run_straight_embed(code, consts, p, cond.code, st, st1);
    // the branch-on-false placeholder, patched to land on the else label
    assert(code[p + c] == sm.code[c]);
    assert(sm.code[c] == Op::JumpIfFalse((t + 3) as i16));
    assert(st1.stack.len() >= 1);
    assert(st1.stack.last() == cv);
    if spec_truthy(cv) {
        assert(run(code, consts, st1, p + c) == run(code, consts, st1, p + c + 1));
        assert(code[p + c + 1] == sm.code[c + 1]);
        assert(sm.code[c + 1] == Op::Pop);
        assert(st1.stack.drop_last() =~= st.stack);
        assert(run(code, consts, st1, p + c + 1) == run(
            code,
            consts,
            VmState { stack: st.stack, out: st1.out },
            p + c + 2,
        ));
    } else {
        assert(t + 3 <= i16::MAX);
        assert((t + 3) as i16 as int == t + 3);
        assert(run(code, consts, st1, p + c) == run(code, consts, st1, p + c + t + 3));
        assert(code[p + c + t + 3] == sm.code[c + t + 3]);
        assert(sm.code[c + t + 3] == Op::Pop);
        assert(st1.stack.drop_last() =~= st.stack);
        assert(run(code, consts, st1, p + c + t + 3) == run(
            code,
            consts,
            VmState { stack: st.stack, out: st1.out },
            p + c + t + 4,
        ));
    }
}

} // verus!
