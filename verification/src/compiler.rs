//! Single-pass translation of a validated statement tree into [`ByteCode`].
//!
//! The compiler walks the tree once, tracking its own model of the runtime
//! stack: `locals` lists the name occupying each stack slot, and
//! `stack_size` mirrors the machine's stack depth at the current point of
//! execution.  What the compiler emits is pinned down by the specification
//! functions [`c_expr`], [`c_stmt`] and [`c_stmts`], which the executable
//! methods are verified against, instruction for instruction.

use vstd::prelude::*;
use vstd::string::StringExecFns;
use crate::byte_code::{ByteCode, Op, Value};
use crate::error::Error;
use crate::expr::Expr;
use crate::stmt::Stmt;
use crate::token::TokenType;

verus! {

/// The names of the locals list, as character sequences.
pub open spec fn names(locals: Seq<String>) -> Seq<Seq<char>> {
    locals.map_values(|s: String| s@)
}

/// The slot of the topmost local called `name`, searching from the top of
/// the stack down, as the compiler resolves a variable reference.
pub open spec fn lookup_local(locals: Seq<Seq<char>>, name: Seq<char>) -> Option<int>
    decreases locals.len(),
{
    if locals.len() == 0 {
        None
    } else if locals.last() == name {
        Some(locals.len() - 1)
    } else {
        lookup_local(locals.drop_last(), name)
    }
}

/// Whether every character of `s` is a decimal digit.
pub open spec fn all_digits(s: Seq<char>) -> bool {
    forall|i: int| 0 <= i < s.len() ==> crate::util::spec_is_digit(s[i])
}

/// The value of a digit string, most significant digit first.
pub open spec fn digits_val(s: Seq<char>) -> int
    decreases s.len(),
{
    if s.len() == 0 {
        0
    } else {
        digits_val(s.drop_last()) * 10 + (s.last() as int - '0' as int)
    }
}

/// The number a literal lexeme denotes: a nonempty all-digit string whose
/// value fits in a number value.  Anything else is not a supported literal.
pub open spec fn spec_parse_number(s: Seq<char>) -> Option<i64> {
    if s.len() >= 1 && all_digits(s) && digits_val(s) <= i64::MAX {
        Some(digits_val(s) as i64)
    } else {
        None
    }
}

/// The constant a literal token compiles to: a number, a boolean, or
/// `nil`.  Any other literal kind is not supported by the compiled form.
pub open spec fn spec_literal_value(t: TokenType, lexeme: Seq<char>) -> Option<Value> {
    match t {
        TokenType::Number => match spec_parse_number(lexeme) {
            Some(n) => Some(Value::Number(n)),
            None => None,
        },
        TokenType::True => Some(Value::Boolean(true)),
        TokenType::False => Some(Value::Boolean(false)),
        TokenType::Nil => Some(Value::Nil),
        _ => None,
    }
}

/// What compiling an expression appends: instructions, and new constants
/// whose pool indices start at the `cbase` the expression was compiled at.
pub struct Emit {
    pub code: Seq<Op>,
    pub consts: Seq<Value>,
}

/// What compiling a statement appends, together with the locals list and
/// stack size it leaves behind.
pub struct StmtEmit {
    pub code: Seq<Op>,
    pub consts: Seq<Value>,
    pub locals: Seq<Seq<char>>,
    pub ss: int,
}

/// The code and constants emitted for an expression compiled with constant
/// pool length `cbase`, live locals `locals` and stack depth `ss`; `None`
/// is a compile error.  A compiled expression always nets one new stack
/// slot, its result.
pub open spec fn c_expr(e: Expr, cbase: int, locals: Seq<Seq<char>>, ss: int) -> Option<Emit>
    decreases e,
{
    match e {
        Expr::Literal(lit) => {
            match spec_literal_value(lit.value.token_type, lit.value.lexeme@) {
                Some(v) => {
                    if 0 <= cbase <= 255 {
                        Some(
                            Emit {
                                code: seq![Op::PushConstant(cbase as u8)],
                                consts: seq![v],
                            },
                        )
                    } else {
                        None
                    }
                },
                None => None,
            }
        },
        Expr::Variable(v) => {
            match lookup_local(locals, v.name.lexeme@) {
                Some(slot) => {
                    let depth = ss - slot - 1;
                    if 0 <= depth <= 255 {
                        Some(Emit { code: seq![Op::Dup(depth as u8)], consts: seq![] })
                    } else {
                        None
                    }
                },
                None => None,
            }
        },
        Expr::Grouping(g) => c_expr(*g.expression, cbase, locals, ss),
        Expr::Unary(u) => {
            if u.operator.token_type == TokenType::Minus {
                match c_expr(*u.right, cbase, locals, ss) {
                    Some(em) => Some(Emit { code: em.code + seq![Op::Neg], consts: em.consts }),
                    None => None,
                }
            } else {
                None
            }
        },
        Expr::Binary(b) => {
            match binary_op(b.operator.token_type) {
                Some(op) => {
                    match c_expr(*b.left, cbase, locals, ss) {
                        Some(l) => {
                            match c_expr(*b.right, cbase + l.consts.len(), locals, ss + 1) {
                                Some(r) => Some(
                                    Emit {
                                        code: l.code + r.code + seq![op],
                                        consts: l.consts + r.consts,
                                    },
                                ),
                                None => None,
                            }
                        },
                        None => None,
                    }
                },
                None => None,
            }
        },
        _ => None,
    }
}

/// The code, constants and resulting compiler model for one statement;
/// `None` is a compile error.  Statements keep the stack balanced: only a
/// variable declaration nets a slot, which stays live as the variable's
/// storage.
pub open spec fn c_stmt(s: Stmt, cbase: int, locals: Seq<Seq<char>>, ss: int) -> Option<StmtEmit>
    decreases s,
{
    match s {
        Stmt::Expression(es) => match c_expr(es.expression, cbase, locals, ss) {
            Some(em) => Some(
                StmtEmit { code: em.code + seq![Op::Pop], consts: em.consts, locals, ss },
            ),
            None => None,
        },
        Stmt::Print(p) => match c_expr(p.expression, cbase, locals, ss) {
            Some(em) => Some(
                StmtEmit {
                    code: em.code + seq![Op::Print, Op::Pop],
                    consts: em.consts,
                    locals,
                    ss,
                },
            ),
            None => None,
        },
        Stmt::Var(v) => {
            let init = match v.init {
                Some(e) => c_expr(e, cbase, locals, ss),
                None => Some(Emit { code: seq![Op::PushConstant(0)], consts: seq![] }),
            };
            match init {
                Some(em) => Some(
                    StmtEmit {
                        code: em.code,
                        consts: em.consts,
                        locals: locals.push(v.name.lexeme@),
                        ss: ss + 1,
                    },
                ),
                None => None,
            }
        },
        Stmt::Block(b) => match c_stmts(b.statements@, cbase, locals, ss) {
            Some(inner) => {
                let p = inner.ss - ss;
                if 0 <= p <= inner.locals.len() {
                    Some(
                        StmtEmit {
                            code: inner.code + Seq::new(p as nat, |j: int| Op::Pop),
                            consts: inner.consts,
                            locals: inner.locals.take(inner.locals.len() - p),
                            ss,
                        },
                    )
                } else {
                    None
                }
            },
            None => None,
        },
        Stmt::If(i) => match c_expr(i.condition, cbase, locals, ss) {
            Some(cond) => {
                match c_stmt(*i.then_branch, cbase + cond.consts.len(), locals, ss) {
                    Some(then) => {
                        if then.locals == locals && then.ss == ss {
                            let els = match i.else_branch {
                                Some(eb) => c_stmt(
                                    *eb,
                                    cbase + cond.consts.len() + then.consts.len(),
                                    locals,
                                    ss,
                                ),
                                None => Some(
                                    StmtEmit {
                                        code: Seq::<Op>::empty(),
                                        consts: Seq::<Value>::empty(),
                                        locals,
                                        ss,
                                    },
                                ),
                            };
                            match els {
                                Some(els) => {
                                    if els.locals == locals && els.ss == ss && then.code.len() + 3
                                        <= i16::MAX && els.code.len() + 2 <= i16::MAX {
                                        Some(
                                            StmtEmit {
                                                code: cond.code + seq![
                                                    Op::JumpIfFalse((then.code.len() + 3) as i16),
                                                    Op::Pop,
                                                ] + then.code + seq![
                                                    Op::Jump((els.code.len() + 2) as i16),
                                                    Op::Pop,
                                                ] + els.code,
                                                consts: cond.consts + then.consts + els.consts,
                                                locals,
                                                ss,
                                            },
                                        )
                                    } else {
                                        None
                                    }
                                },
                                None => None,
                            }
                        } else {
                            None
                        }
                    },
                    None => None,
                }
            },
            None => None,
        },
        _ => None,
    }
}

/// Sequential compilation of a statement list, each statement taking up
/// where the one before left off.
pub open spec fn c_stmts(stmts: Seq<Stmt>, cbase: int, locals: Seq<Seq<char>>, ss: int) -> Option<
    StmtEmit,
>
    decreases stmts,
{
    if stmts.len() == 0 {
        Some(StmtEmit { code: Seq::<Op>::empty(), consts: Seq::<Value>::empty(), locals, ss })
    } else {
        match c_stmt(stmts[0], cbase, locals, ss) {
            Some(h) => match c_stmts(
                stmts.drop_first(),
                cbase + h.consts.len(),
                h.locals,
                h.ss,
            ) {
                Some(t) => Some(
                    StmtEmit {
                        code: h.code + t.code,
                        consts: h.consts + t.consts,
                        locals: t.locals,
                        ss: t.ss,
                    },
                ),
                None => None,
            },
            None => None,
        }
    }
}

/// A compiled statement extends the locals list it was given, and the
/// stack model grows by exactly the number of locals added.
pub proof fn lemma_c_stmt_frame(s: Stmt, cbase: int, locals: Seq<Seq<char>>, ss: int)
    ensures
        c_stmt(s, cbase, locals, ss) matches Some(sm) ==> sm.ss - ss == sm.locals.len()
            - locals.len() && sm.ss >= ss && sm.locals.take(locals.len() as int) == locals,
    decreases s,
{
    match s {
        Stmt::Var(v) => {
            assert(locals.push(v.name.lexeme@).take(locals.len() as int) =~= locals);
        },
        Stmt::Block(b) => {
            lemma_c_stmts_frame(b.statements@, cbase, locals, ss);
            if let Some(inner) = c_stmts(b.statements@, cbase, locals, ss) {
                let p = inner.ss - ss;
                if 0 <= p <= inner.locals.len() {
                    assert(inner.locals.take(inner.locals.len() - p) =~= inner.locals.take(
                        locals.len() as int,
                    ));
                }
            }
        },
        _ => {},
    }
}

/// The statement-list version of [`lemma_c_stmt_frame`].
pub proof fn lemma_c_stmts_frame(stmts: Seq<Stmt>, cbase: int, locals: Seq<Seq<char>>, ss: int)
    ensures
        c_stmts(stmts, cbase, locals, ss) matches Some(sm) ==> sm.ss - ss == sm.locals.len()
            - locals.len() && sm.ss >= ss && sm.locals.take(locals.len() as int) == locals,
    decreases stmts,
{
    if stmts.len() == 0 {
        if let Some(sm) = c_stmts(stmts, cbase, locals, ss) {
            assert(sm.locals.take(locals.len() as int) =~= locals);
        }
    } else {
        lemma_c_stmt_frame(stmts[0], cbase, locals, ss);
        if let Some(h) = c_stmt(stmts[0], cbase, locals, ss) {
            lemma_c_stmts_frame(stmts.drop_first(), cbase + h.consts.len(), h.locals, h.ss);
            if let Some(t) = c_stmts(stmts.drop_first(), cbase + h.consts.len(), h.locals, h.ss) {
                assert(t.locals.take(locals.len() as int) =~= t.locals.take(
                    h.locals.len() as int,
                ).take(locals.len() as int));
            }
        }
    }
}

/// Splits sequential compilation at any point: compiling a statement list
/// is compiling a prefix, then compiling the rest from where it left off.
pub proof fn lemma_c_stmts_split(
    stmts: Seq<Stmt>,
    j: int,
    cbase: int,
    locals: Seq<Seq<char>>,
    ss: int,
)
    requires
        0 <= j <= stmts.len(),
    ensures
        c_stmts(stmts, cbase, locals, ss) == (match c_stmts(stmts.take(j), cbase, locals, ss) {
            Some(pm) => match c_stmts(
                stmts.skip(j),
                cbase + pm.consts.len(),
                pm.locals,
                pm.ss,
            ) {
                Some(t) => Some(
                    StmtEmit {
                        code: pm.code + t.code,
                        consts: pm.consts + t.consts,
                        locals: t.locals,
                        ss: t.ss,
                    },
                ),
                None => None,
            },
            None => None,
        }),
    decreases j,
{
    if j == 0 {
        assert(stmts.take(0).len() == 0);
        assert(stmts.skip(0) =~= stmts);
        if let Some(sm) = c_stmts(stmts, cbase, locals, ss) {
            assert(Seq::<Op>::empty() + sm.code =~= sm.code);
            assert(Seq::<Value>::empty() + sm.consts =~= sm.consts);
        }
    } else {
        assert(stmts.take(j)[0] == stmts[0]);
        match c_stmt(stmts[0], cbase, locals, ss) {
            Some(h) => {
                lemma_c_stmts_split(
                    stmts.drop_first(),
                    j - 1,
                    cbase + h.consts.len(),
                    h.locals,
                    h.ss,
                );
                assert(stmts.take(j).drop_first() =~= stmts.drop_first().take(j - 1));
                assert(stmts.skip(j) =~= stmts.drop_first().skip(j - 1));
                let rest = stmts.drop_first();
                match c_stmts(rest.take(j - 1), cbase + h.consts.len(), h.locals, h.ss) {
                    Some(pm1) => {
                        let pm = c_stmts(stmts.take(j), cbase, locals, ss)->Some_0;
                        assert(pm.code =~= h.code + pm1.code);
                        assert(pm.consts =~= h.consts + pm1.consts);
                        match c_stmts(
                            rest.skip(j - 1),
                            cbase + h.consts.len() + pm1.consts.len(),
                            pm1.locals,
                            pm1.ss,
                        ) {
                            Some(t) => {
                                assert(h.code + (pm1.code + t.code) =~= (h.code + pm1.code)
                                    + t.code);
                                assert(h.consts + (pm1.consts + t.consts) =~= (h.consts
                                    + pm1.consts) + t.consts);
                            },
                            None => {},
                        }
                    },
                    None => {},
                }
            },
            None => {},
        }
    }
}

/// The instruction a binary operator token compiles to, if the operator is
/// implemented for the compiled form.
pub open spec fn binary_op(t: TokenType) -> Option<Op> {
    match t {
        TokenType::Minus => Some(Op::Sub),
        TokenType::Plus => Some(Op::Add),
        TokenType::Slash => Some(Op::Div),
        TokenType::Star => Some(Op::Mul),
        TokenType::And => Some(Op::And),
        TokenType::Or => Some(Op::Or),
        _ => None,
    }
}

/// The net effect of one instruction on the compiler's stack model.
pub open spec fn op_net(op: Op) -> int {
    match op {
        Op::Add | Op::Sub | Op::Mul | Op::Div => -1,
        Op::Pop | Op::And | Op::Or => -1,
        Op::PushConstant(_) | Op::Dup(_) => 1,
        Op::Neg | Op::Print | Op::Return | Op::Nop | Op::JumpIfFalse(_) | Op::Jump(_) => 0,
    }
}

/// The compiler: the instruction sequence and constant pool under
/// construction, the compile-time model of the runtime stack, and the
/// diagnostics collected so far.
pub struct Compiler {
    pub code: Vec<Op>,
    pub constants: Vec<Value>,
    pub locals: Vec<String>,
    pub stack_size: usize,
    pub had_error: bool,
    pub errors: Vec<Error>,
}

impl Compiler {
    /// The bookkeeping every compilation step preserves: the stack model
    /// never falls below the locals list, never outruns the emitted code,
    /// and slot 0 of the pool holds the sentinel for uninitialised
    /// declarations.
    pub open spec fn wf(&self) -> bool {
        &&& self.stack_size >= self.locals@.len()
        &&& self.stack_size <= self.code@.len()
        &&& self.constants@.len() >= 1
    }

    /// A freshly constructed compiler, ready for one program.
    pub open spec fn is_init(&self) -> bool {
        &&& self.code@ == Seq::<Op>::empty()
        &&& self.constants@ == seq![Value::Number(0)]
        &&& self.locals@ == Seq::<String>::empty()
        &&& self.stack_size == 0
        &&& self.had_error == false
        &&& self.errors@ == Seq::<Error>::empty()
    }

    pub fn new() -> (r: Compiler)
        ensures
            r.is_init(),
            r.wf(),
    {
        let mut constants: Vec<Value> = Vec::new();
        constants.push(Value::Number(0));
        Compiler {
            code: Vec::new(),
            constants,
            locals: Vec::new(),
            stack_size: 0,
            had_error: false,
            errors: Vec::new(),
        }
    }

    /// Appends a constant to the pool and returns its index.
    fn add_constant(&mut self, constant: Value) -> (r: u8)
        requires
            old(self).constants@.len() <= 255,
        ensures
            final(self).constants@ == old(self).constants@.push(constant),
            r == old(self).constants@.len(),
            final(self).code == old(self).code,
            final(self).locals == old(self).locals,
            final(self).stack_size == old(self).stack_size,
            final(self).had_error == old(self).had_error,
            final(self).errors == old(self).errors,
    {
        self.constants.push(constant);
        (self.constants.len() - 1) as u8
    }

    /// Appends an instruction, adjusts the stack model by its net effect,
    /// and returns the instruction's index so that branch sites can patch
    /// it later.
    fn emit_op(&mut self, op: Op) -> (r: usize)
        requires
            old(self).stack_size <= old(self).code@.len(),
            op_net(op) == -1 ==> old(self).stack_size >= 1,
        ensures
            final(self).code@ == old(self).code@.push(op),
            final(self).stack_size == old(self).stack_size + op_net(op),
            r == old(self).code@.len(),
            final(self).stack_size <= final(self).code@.len(),
            final(self).constants == old(self).constants,
            final(self).locals == old(self).locals,
            final(self).had_error == old(self).had_error,
            final(self).errors == old(self).errors,
    {
        let idx = self.code.len();
        self.code.push(op);
        proof {
            assert(self.code.len() <= usize::MAX);
        }
        match op {
            Op::Add | Op::Sub | Op::Mul | Op::Div => {
                self.stack_size = self.stack_size - 1;
            },
            Op::Pop | Op::And | Op::Or => {
                self.stack_size = self.stack_size - 1;
            },
            Op::PushConstant(_) | Op::Dup(_) => {
                self.stack_size = self.stack_size + 1;
            },
            Op::Neg | Op::Print | Op::Return | Op::Nop | Op::JumpIfFalse(_) | Op::Jump(_) => {},
        }
        idx
    }

    /// Records a diagnostic and marks the compilation as failed.
    fn emit_error(&mut self, error: Error)
        ensures
            final(self).errors@ == old(self).errors@.push(error),
            final(self).had_error == true,
            final(self).code == old(self).code,
            final(self).constants == old(self).constants,
            final(self).locals == old(self).locals,
            final(self).stack_size == old(self).stack_size,
    {
        self.errors.push(error);
        self.had_error = true;
    }

    /// Compiles one expression; on success the emitted code and constants
    /// are exactly what [`c_expr`] gives, and the stack model nets one new
    /// slot holding the expression's result.
    fn compile_expr(&mut self, e: &Expr) -> (r: Result<(), Error>)
        requires
            old(self).wf(),
        ensures
            final(self).wf(),
            final(self).locals == old(self).locals,
            final(self).had_error == old(self).had_error,
            final(self).errors == old(self).errors,
            old(self).code@.is_prefix_of(final(self).code@),
            old(self).constants@.is_prefix_of(final(self).constants@),
            match r {
                Ok(_) => {
                    &&& c_expr(
                        *e,
                        old(self).constants@.len() as int,
                        names(old(self).locals@),
                        old(self).stack_size as int,
                    ) matches Some(em)
                        && final(self).code@ == old(self).code@ + em.code
                        && final(self).constants@ == old(self).constants@ + em.consts
                    &&& final(self).stack_size == old(self).stack_size + 1
                },
                Err(_) => c_expr(
                    *e,
                    old(self).constants@.len() as int,
                    names(old(self).locals@),
                    old(self).stack_size as int,
                ) is None,
            },
        decreases *e,
    {
        let ghost pre = *self;
        match e {
            Expr::Literal(lit) => {
                let value: Option<Value> = match lit.value.token_type {
                    TokenType::Number => match parse_number(lit.value.lexeme.as_str()) {
                        Some(n) => Some(Value::Number(n)),
                        None => None,
                    },
                    TokenType::True => Some(Value::Boolean(true)),
                    TokenType::False => Some(Value::Boolean(false)),
                    TokenType::Nil => Some(Value::Nil),
                    _ => None,
                };
                match value {
                    Some(v) => {
                        if self.constants.len() <= 255 {
                            let idx = self.add_constant(v);
                            self.emit_op(Op::PushConstant(idx));
                            proof {
                                assert(self.code@ =~= pre.code@ + seq![
                                    Op::PushConstant(pre.constants@.len() as u8),
                                ]);
                                assert(self.constants@ =~= pre.constants@ + seq![v]);
                            }
                            Ok(())
                        } else {
                            Err(
                                Error::from_token(
                                    &lit.value,
                                    String::from_str("Too many constants in one program."),
                                ),
                            )
                        }
                    },
                    None => Err(
                        Error::from_token(
                            &lit.value,
                            String::from_str("Only doing numbers presently."),
                        ),
                    ),
                }
            },
            Expr::Variable(variable) => {
                let found = self.find_local(&variable.name.lexeme);
                match found {
                    Some(slot) => {
                        let depth = self.stack_size - slot - 1;
                        if depth <= 255 {
                            self.emit_op(Op::Dup(depth as u8));
                            proof {
                                assert(self.code@ =~= pre.code@ + seq![Op::Dup(depth as u8)]);
                                assert(self.constants@ =~= pre.constants@ + Seq::<
                                    Value,
                                >::empty());
                            }
                            Ok(())
                        } else {
                            Err(
                                Error::from_token(
                                    &variable.name,
                                    String::from_str("Variable is too deep on the stack."),
                                ),
                            )
                        }
                    },
                    None => Err(
                        Error::from_token(
                            &variable.name,
                            String::from_str("Could not find local variable."),
                        ),
                    ),
                }
            },
            Expr::Grouping(grouping) => self.compile_expr(&grouping.expression),
            Expr::Unary(unary) => {
                if unary.operator.token_type == TokenType::Minus {
                    let r = self.compile_expr(&unary.right);
                    match r {
                        Ok(_) => {
                            self.emit_op(Op::Neg);
                            proof {
                                let em = c_expr(
                                    *unary.right,
                                    pre.constants@.len() as int,
                                    names(pre.locals@),
                                    pre.stack_size as int,
                                )->Some_0;
                                assert(self.code@ =~= pre.code@ + (em.code + seq![Op::Neg]));
                            }
                            Ok(())
                        },
                        Err(er) => Err(er),
                    }
                } else {
                    Err(
                        Error::from_token(
                            &unary.operator,
                            String::from_str("Only doing unary minus on constants presently"),
                        ),
                    )
                }
            },
            Expr::Binary(binary) => {
                let op: Option<Op> = match binary.operator.token_type {
                    TokenType::Minus => Some(Op::Sub),
                    TokenType::Plus => Some(Op::Add),
                    TokenType::Slash => Some(Op::Div),
                    TokenType::Star => Some(Op::Mul),
                    TokenType::And => Some(Op::And),
                    TokenType::Or => Some(Op::Or),
                    _ => None,
                };
                match op {
                    Some(op) => {
                        let rl = self.compile_expr(&binary.left);
                        match rl {
                            Ok(_) => {
                                let rr = self.compile_expr(&binary.right);
                                match rr {
                                    Ok(_) => {
                                        self.emit_op(op);
                                        proof {
                                            assert(binary_op(binary.operator.token_type) == Some(
                                                op,
                                            ));
                                            let l = c_expr(
                                                *binary.left,
                                                pre.constants@.len() as int,
                                                names(pre.locals@),
                                                pre.stack_size as int,
                                            )->Some_0;
                                            let r = c_expr(
                                                *binary.right,
                                                pre.constants@.len() + l.consts.len() as int,
                                                names(pre.locals@),
                                                pre.stack_size + 1,
                                            )->Some_0;
                                            assert(self.code@ =~= pre.code@ + (l.code + r.code
                                                + seq![op]));
                                            assert(self.constants@ =~= pre.constants@ + (l.consts
                                                + r.consts));
                                        }
                                        Ok(())
                                    },
                                    Err(er) => Err(er),
                                }
                            },
                            Err(er) => Err(er),
                        }
                    },
                    None => Err(
                        Error::from_token(
                            &binary.operator,
                            String::from_str("Operator is not implemented for the compiled form."),
                        ),
                    ),
                }
            },
            Expr::Assign(assign) => Err(
                Error::from_token(
                    &assign.lhs.name,
                    String::from_str("Assignment is not implemented for the compiled form."),
                ),
            ),
            Expr::Call(call) => Err(
                Error::from_token(
                    &call.paren,
                    String::from_str("Calls are not implemented for the compiled form."),
                ),
            ),
            Expr::Logical(logical) => Err(
                Error::from_token(
                    &logical.operator,
                    String::from_str("Operator is not implemented for the compiled form."),
                ),
            ),
        }
    }

    /// Compiles one statement; on success the emitted code and constants,
    /// and the locals list and stack model left behind, are exactly what
    /// [`c_stmt`] gives.
    #[verifier::loop_isolation(false)]
    #[verifier::rlimit(100)]
    fn compile_stmt(&mut self, stmt: &Stmt) -> (r: Result<(), Error>)
        requires
            old(self).wf(),
        ensures
            final(self).wf(),
            final(self).had_error == old(self).had_error,
            final(self).errors == old(self).errors,
            old(self).code@.is_prefix_of(final(self).code@),
            old(self).constants@.is_prefix_of(final(self).constants@),
            match r {
                Ok(_) => {
                    &&& c_stmt(
                        *stmt,
                        old(self).constants@.len() as int,
                        names(old(self).locals@),
                        old(self).stack_size as int,
                    ) matches Some(sm)
                        && final(self).code@ == old(self).code@ + sm.code
                        && final(self).constants@ == old(self).constants@ + sm.consts
                        && names(final(self).locals@) == sm.locals
                        && final(self).stack_size as int == sm.ss
                },
                Err(_) => c_stmt(
                    *stmt,
                    old(self).constants@.len() as int,
                    names(old(self).locals@),
                    old(self).stack_size as int,
                ) is None,
            },
        decreases *stmt,
    {
        let ghost pre = *self;
        match stmt {
            Stmt::Expression(expression) => {
                let r = self.compile_expr(&expression.expression);
                match r {
                    Ok(_) => {
                        self.emit_op(Op::Pop);
                        proof {
                            let em = c_expr(
                                expression.expression,
                                pre.constants@.len() as int,
                                names(pre.locals@),
                                pre.stack_size as int,
                            )->Some_0;
                            assert(self.code@ =~= pre.code@ + (em.code + seq![Op::Pop]));
                        }
                        Ok(())
                    },
                    Err(er) => Err(er),
                }
            },
            Stmt::Print(print) => {
                let r = self.compile_expr(&print.expression);
                match r {
                    Ok(_) => {
                        self.emit_op(Op::Print);
                        self.emit_op(Op::Pop);
                        proof {
                            let em = c_expr(
                                print.expression,
                                pre.constants@.len() as int,
                                names(pre.locals@),
                                pre.stack_size as int,
                            )->Some_0;
                            assert(self.code@ =~= pre.code@ + (em.code + seq![
                                Op::Print,
                                Op::Pop,
                            ]));
                        }
                        Ok(())
                    },
                    Err(er) => Err(er),
                }
            },
            Stmt::Var(var) => {
                match &var.init {
                    Some(expr) => {
                        let r = self.compile_expr(expr);
                        match r {
                            Ok(_) => {},
                            Err(er) => {
                                return Err(er);
                            },
                        }
                    },
                    None => {
                        self.emit_op(Op::PushConstant(0));
                        proof {
                            assert(self.code@ =~= pre.code@ + seq![Op::PushConstant(0)]);
                            assert(self.constants@ =~= pre.constants@ + Seq::<Value>::empty());
                        }
                    },
                }
                self.locals.push(var.name.lexeme.clone());
                proof {
                    assert(names(self.locals@) =~= names(pre.locals@).push(var.name.lexeme@));
                }
                Ok(())
            },
            Stmt::Block(block) => {
                let ghost cb0 = pre.constants@.len() as int;
                let ghost l0 = names(pre.locals@);
                let ghost ss0 = pre.stack_size as int;
                let saved = self.stack_size;
                let n = block.statements.len();
                let mut i: usize = 0;
                while i < n
                    invariant
                        i <= n,
                        n == block.statements@.len(),
                        self.wf(),
                        self.had_error == pre.had_error,
                        self.errors == pre.errors,
                        pre.code@.is_prefix_of(self.code@),
                        pre.constants@.is_prefix_of(self.constants@),
                        c_stmts(block.statements@.take(i as int), cb0, l0, ss0) matches Some(pm)
                            && self.code@ == pre.code@ + pm.code
                            && self.constants@ == pre.constants@ + pm.consts
                            && names(self.locals@) == pm.locals
                            && self.stack_size as int == pm.ss,
                    decreases n - i,
                {
                    let ghost pm = c_stmts(block.statements@.take(i as int), cb0, l0, ss0)->Some_0;
                    proof {
                        assert(decreases_to!(*stmt => *block));
                        assert(decreases_to!(*block => block.statements@));
                        assert(decreases_to!(block.statements@ => block.statements@[i as int]));
                    }
                    let r = self.compile_stmt(&block.statements[i]);
                    match r {
                        Ok(_) => {},
                        Err(er) => {
                            proof {
                                lemma_c_stmts_split(block.statements@, i as int, cb0, l0, ss0);
                                assert(block.statements@.skip(i as int)[0] == block.statements@[i as int]);
                            }
                            return Err(er);
                        },
                    }
                    proof {
                        reveal_with_fuel(c_stmts, 3);
                        let sm = c_stmt(block.statements@[i as int], cb0 + pm.consts.len(), pm.locals, pm.ss)->Some_0;
                        lemma_c_stmts_split(
                            block.statements@.take(i + 1),
                            i as int,
                            cb0,
                            l0,
                            ss0,
                        );
                        assert(block.statements@.take(i + 1).take(i as int) =~= block.statements@
                            .take(i as int));
                        let single = block.statements@.take(i + 1).skip(i as int);
                        assert(single.len() == 1);
                        assert(single[0] == block.statements@[i as int]);
                        assert(single.drop_first().len() == 0);
                        assert(sm.code + Seq::<Op>::empty() =~= sm.code);
                        assert(sm.consts + Seq::<Value>::empty() =~= sm.consts);
                        assert(self.code@ =~= pre.code@ + (pm.code + sm.code));
                        assert(self.constants@ =~= pre.constants@ + (pm.consts + sm.consts));
                    }
                    i = i + 1;
                }
                proof {
                    assert(block.statements@.take(n as int) =~= block.statements@);
                    lemma_c_stmts_frame(block.statements@, cb0, l0, ss0);
                }
                let ghost inner = c_stmts(block.statements@, cb0, l0, ss0)->Some_0;
                let ghost base_code = self.code@;
                let ghost j0: int = 0;
                while self.stack_size > saved
                    invariant
                        self.wf(),
                        self.had_error == pre.had_error,
                        self.errors == pre.errors,
                        self.constants@ == pre.constants@ + inner.consts,
                        saved == ss0,
                        self.stack_size >= saved,
                        inner.ss - ss0 == inner.locals.len() - l0.len(),
                        inner.locals.take(l0.len() as int) == l0,
                        self.code@ == base_code + Seq::new(
                            (inner.ss - self.stack_size) as nat,
                            |j: int| Op::Pop,
                        ),
                        base_code == pre.code@ + inner.code,
                        names(self.locals@) == inner.locals.take(
                            inner.locals.len() - (inner.ss - self.stack_size),
                        ),
                        self.stack_size as int <= inner.ss,
                    decreases self.stack_size,
                {
                    let ghost jpre = inner.ss - self.stack_size;
                    let ghost locals_before = self.locals@;
                    proof {
                        assert(names(locals_before).len() > l0.len());
                    }
                    self.emit_op(Op::Pop);
                    self.locals.pop();
                    proof {
                        assert(self.code@ =~= base_code + Seq::new(
                            (jpre + 1) as nat,
                            |j: int| Op::Pop,
                        ));
                        assert(self.locals@ =~= locals_before.drop_last());
                        assert(names(self.locals@) =~= names(locals_before).drop_last());
                        assert(inner.locals.take(inner.locals.len() - (jpre + 1)) =~= inner.locals
                            .take(inner.locals.len() - jpre).drop_last());
                    }
                }
                proof {
                    let p = inner.ss - ss0;
                    assert(self.code@ =~= pre.code@ + (inner.code + Seq::new(
                        p as nat,
                        |j: int| Op::Pop,
                    )));
                }
                Ok(())
            },
            Stmt::If(if_) => self.compile_if(if_),
            Stmt::Function(function) => Err(
                Error::from_token(
                    &function.name,
                    String::from_str("Function declarations are not implemented for the compiled form."),
                ),
            ),
            Stmt::Return(return_) => Err(
                Error::from_token(
                    &return_.keyword,
                    String::from_str("Return is not implemented for the compiled form."),
                ),
            ),
            Stmt::While(_) => Err(
                Error {
                    line: 0,
                    loc: String::new(),
                    msg: String::from_str("While loops are not implemented for the compiled form."),
                },
            ),
        }
    }

    /// Compiles an `if`/`if-else` statement with two backpatched forward
    /// branches: a placeholder is emitted where each jump belongs and
    /// overwritten once the branch target's index is known.
    #[verifier::rlimit(100)]
    fn compile_if(&mut self, if_: &crate::stmt::If) -> (r: Result<(), Error>)
        requires
            old(self).wf(),
        ensures
            final(self).wf(),
            final(self).had_error == old(self).had_error,
            final(self).errors == old(self).errors,
            old(self).code@.is_prefix_of(final(self).code@),
            old(self).constants@.is_prefix_of(final(self).constants@),
            match r {
                Ok(_) => {
                    &&& c_stmt(
                        Stmt::If(*if_),
                        old(self).constants@.len() as int,
                        names(old(self).locals@),
                        old(self).stack_size as int,
                    ) matches Some(sm)
                        && final(self).code@ == old(self).code@ + sm.code
                        && final(self).constants@ == old(self).constants@ + sm.consts
                        && names(final(self).locals@) == sm.locals
                        && final(self).stack_size as int == sm.ss
                },
                Err(_) => c_stmt(
                    Stmt::If(*if_),
                    old(self).constants@.len() as int,
                    names(old(self).locals@),
                    old(self).stack_size as int,
                ) is None,
            },
        decreases *if_,
    {
        let ghost pre = *self;
        let ghost cb0 = pre.constants@.len() as int;
        let ghost l0 = names(pre.locals@);
        let ghost ss0 = pre.stack_size as int;
        let nlocals = self.locals.len();

        // save stack size
        let saved = self.stack_size;

        // the byte-code for the condition
        let rc = self.compile_expr(&if_.condition);
        match rc {
            Ok(_) => {},
            Err(er) => {
                return Err(er);
            },
        }
        let ghost cond = c_expr(if_.condition, cb0, l0, ss0)->Some_0;

        // jump if false to the else label, patched below
        let jif = self.emit_op(Op::Nop);

        // pop the condition, then the byte-code for the body
        self.emit_op(Op::Pop);
        let rt = self.compile_stmt(&if_.then_branch);
        match rt {
            Ok(_) => {},
            Err(er) => {
                return Err(er);
            },
        }
        let ghost then = c_stmt(*if_.then_branch, cb0 + cond.consts.len(), l0, ss0)->Some_0;
        if self.locals.len() != nlocals || self.stack_size != saved {
            proof {
                lemma_c_stmt_frame(*if_.then_branch, cb0 + cond.consts.len(), l0, ss0);
            }
            return Err(
                Error {
                    line: 0,
                    loc: String::new(),
                    msg: String::from_str("A branch may not declare variables."),
                },
            );
        }
        proof {
            lemma_c_stmt_frame(*if_.then_branch, cb0 + cond.consts.len(), l0, ss0);
            assert(then.locals =~= l0);
        }

        // jump past the else clause, patched below
        let jd = self.emit_op(Op::Nop);

        // the else label: pop the condition on the false path, then the
        // byte-code for the else clause; on this path the condition is
        // still on the stack, so the model counts it again
        proof {
            assert(saved < self.code.len());
        }
        self.stack_size = saved + 1;
        let else_ix = self.emit_op(Op::Pop);
        match &if_.else_branch {
            Some(eb) => {
                let re = self.compile_stmt(eb);
                match re {
                    Ok(_) => {},
                    Err(er) => {
                        return Err(er);
                    },
                }
                let ghost els = c_stmt(
                    *if_.else_branch->Some_0,
                    cb0 + cond.consts.len() + then.consts.len(),
                    l0,
                    ss0,
                )->Some_0;
                if self.locals.len() != nlocals || self.stack_size != saved {
                    proof {
                        lemma_c_stmt_frame(
                            *if_.else_branch->Some_0,
                            cb0 + cond.consts.len() + then.consts.len(),
                            l0,
                            ss0,
                        );
                    }
                    return Err(
                        Error {
                            line: 0,
                            loc: String::new(),
                            msg: String::from_str("A branch may not declare variables."),
                        },
                    );
                }
                proof {
                    lemma_c_stmt_frame(
                        *if_.else_branch->Some_0,
                        cb0 + cond.consts.len() + then.consts.len(),
                        l0,
                        ss0,
                    );
                    assert(els.locals =~= l0);
                }
            },
            None => {},
        }
        let ghost els = if if_.else_branch is Some {
            c_stmt(
                *if_.else_branch->Some_0,
                cb0 + cond.consts.len() + then.consts.len(),
                l0,
                ss0,
            )->Some_0
        } else {
            StmtEmit {
                code: Seq::<Op>::empty(),
                consts: Seq::<Value>::empty(),
                locals: l0,
                ss: ss0,
            }
        };

        // the done label
        let done = self.code.len();

        // stitch up the two placeholders
        let dist1 = else_ix - jif;
        if dist1 > 32767 {
            return Err(
                Error {
                    line: 0,
                    loc: String::new(),
                    msg: String::from_str("The branch body is too long to jump over."),
                },
            );
        }
        let dist2 = done - jd;
        if dist2 > 32767 {
            return Err(
                Error {
                    line: 0,
                    loc: String::new(),
                    msg: String::from_str("The else clause is too long to jump over."),
                },
            );
        }
        let slot1 = &mut self.code[jif];
        *slot1 = Op::JumpIfFalse(dist1 as i16);
        let slot2 = &mut self.code[jd];
        *slot2 = Op::Jump(dist2 as i16);
        proof {
            let sm = c_stmt(Stmt::If(*if_), cb0, l0, ss0)->Some_0;
            assert(dist1 as int == then.code.len() + 3);
            assert(dist2 as int == els.code.len() + 2);
            assert(self.code@ =~= pre.code@ + (cond.code + seq![
                Op::JumpIfFalse((then.code.len() + 3) as i16),
                Op::Pop,
            ] + then.code + seq![Op::Jump((els.code.len() + 2) as i16), Op::Pop] + els.code));
            assert(self.constants@ =~= pre.constants@ + (cond.consts + then.consts + els.consts));
        }
        Ok(())
    }

    /// Compiles each top-level statement in order and appends the trailing
    /// `Return`, so the returned program is nonempty and `Return`-ended
    /// even on error.  On the first compile error the remaining statements
    /// are skipped, the diagnostic is recorded, and the error flag is
    /// returned alongside the program compiled so far.
    #[verifier::loop_isolation(false)]
    pub fn compile(&mut self, stmts: &Vec<Stmt>) -> (r: (ByteCode, bool))
        requires
            old(self).is_init(),
        ensures
            r.0.code@.len() >= 1,
            r.0.code@.last() == Op::Return,
            ({
                let m = c_stmts(stmts@, 1, Seq::<Seq<char>>::empty(), 0);
                match m {
                    Some(sm) => {
                        &&& r.1 == false
                        &&& r.0.code@ == sm.code + seq![Op::Return]
                        &&& r.0.constants@ == seq![Value::Number(0)] + sm.consts
                        &&& final(self).errors@ == Seq::<Error>::empty()
                    },
                    None => {
                        &&& r.1 == true
                        &&& final(self).errors@.len() == 1
                        &&& exists|j: int|
                            #![trigger stmts@[j]]
                            {
                                &&& 0 <= j < stmts@.len()
                                &&& (c_stmts(
                                    stmts@.take(j),
                                    1,
                                    Seq::<Seq<char>>::empty(),
                                    0,
                                ) matches Some(pm) && c_stmt(
                                    stmts@[j],
                                    1 + pm.consts.len() as int,
                                    pm.locals,
                                    pm.ss,
                                ) is None && pm.code.is_prefix_of(r.0.code@) && (seq![
                                    Value::Number(0),
                                ] + pm.consts).is_prefix_of(r.0.constants@))
                            }
                    },
                }
            }),
    {
        let ghost pre = *self;
        let n = stmts.len();
        let mut i: usize = 0;
        let mut failed = false;
        while i < n && !failed
            invariant
                i <= n,
                n == stmts@.len(),
                self.wf(),
                !failed ==> {
                    &&& self.had_error == false
                    &&& self.errors@ == Seq::<Error>::empty()
                    &&& c_stmts(stmts@.take(i as int), 1, Seq::<Seq<char>>::empty(), 0)
                        matches Some(pm)
                        && self.code@ == pm.code
                        && self.constants@ == seq![Value::Number(0)] + pm.consts
                        && names(self.locals@) == pm.locals
                        && self.stack_size as int == pm.ss
                },
                failed ==> c_stmts(stmts@, 1, Seq::<Seq<char>>::empty(), 0) is None
                    && self.errors@.len() == 1 && self.had_error,
                failed ==> exists|j: int|
                    #![trigger stmts@[j]]
                    {
                        &&& 0 <= j < stmts@.len()
                        &&& (c_stmts(
                            stmts@.take(j),
                            1,
                            Seq::<Seq<char>>::empty(),
                            0,
                        ) matches Some(pm) && c_stmt(
                            stmts@[j],
                            1 + pm.consts.len() as int,
                            pm.locals,
                            pm.ss,
                        ) is None && pm.code.is_prefix_of(self.code@) && (seq![
                            Value::Number(0),
                        ] + pm.consts).is_prefix_of(self.constants@))
                    },
            decreases n - i, if failed { 0int } else { 1int },
        {
            let ghost pm = c_stmts(stmts@.take(i as int), 1, Seq::<Seq<char>>::empty(), 0)
                ->Some_0;
            let r = self.compile_stmt(&stmts[i]);
            match r {
                Ok(_) => {
                    proof {
                        reveal_with_fuel(c_stmts, 3);
                        let sm = c_stmt(stmts@[i as int], 1 + pm.consts.len() as int, pm.locals, pm.ss)
                            ->Some_0;
                        lemma_c_stmts_split(stmts@.take(i + 1), i as int, 1, Seq::<
                            Seq<char>,
                        >::empty(), 0);
                        assert(stmts@.take(i + 1).take(i as int) =~= stmts@.take(i as int));
                        let single = stmts@.take(i + 1).skip(i as int);
                        assert(single.len() == 1);
                        assert(single[0] == stmts@[i as int]);
                        assert(single.drop_first().len() == 0);
                        assert(sm.code + Seq::<Op>::empty() =~= sm.code);
                        assert(sm.consts + Seq::<Value>::empty() =~= sm.consts);
                        assert(self.code@ =~= pm.code + sm.code);
                        assert(self.constants@ =~= seq![Value::Number(0)] + (pm.consts
                            + sm.consts));
                    }
                    i = i + 1;
                },
                Err(er) => {
                    proof {
                        lemma_c_stmts_split(stmts@, i as int, 1, Seq::<Seq<char>>::empty(), 0);
                        assert(stmts@.skip(i as int)[0] == stmts@[i as int]);
                        assert(pm.code.is_prefix_of(self.code@));
                        assert((seq![Value::Number(0)] + pm.consts).is_prefix_of(
                            self.constants@,
                        ));
                    }
                    self.emit_error(er);
                    failed = true;
                },
            }
        }
        proof {
            if !failed {
                assert(stmts@.take(n as int) =~= stmts@);
            }
        }
        self.emit_op(Op::Return);
        let mut code: Vec<Op> = Vec::new();
        let mut constants: Vec<Value> = Vec::new();
        core::mem::swap(&mut code, &mut self.code);
        core::mem::swap(&mut constants, &mut self.constants);
        proof {
            if let Some(sm) = c_stmts(stmts@, 1, Seq::<Seq<char>>::empty(), 0) {
                if !failed {
                    assert(code@ =~= sm.code + seq![Op::Return]);
                }
            }
        }
        (ByteCode { code, constants }, self.had_error)
    }

    /// The compiler's linear backward search of the live locals for the
    /// nearest stack slot bound to `name`.
    fn find_local(&self, name: &String) -> (r: Option<usize>)
        ensures
            match lookup_local(names(self.locals@), name@) {
                Some(slot) => r == Some(slot as usize) && 0 <= slot < self.locals@.len(),
                None => r is None,
            },
    {
        let mut i = self.locals.len();
        proof {
            assert(names(self.locals@).take(i as int) =~= names(self.locals@));
        }
        while i > 0
            invariant
                i <= self.locals@.len(),
                lookup_local(names(self.locals@), name@) == lookup_local(
                    names(self.locals@).take(i as int),
                    name@,
                ),
            decreases i,
        {
            i = i - 1;
            if self.locals[i].eq(name) {
                proof {
                    assert(names(self.locals@).take(i + 1).last() == name@);
                }
                return Some(i);
            }
            proof {
                assert(names(self.locals@).take(i + 1).drop_last() =~= names(
                    self.locals@,
                ).take(i as int));
            }
        }
        proof {
            assert(names(self.locals@).take(0).len() == 0);
        }
        None
    }
}

/// Reads a numeric literal's lexeme as a number value: the digits of a
/// nonempty all-digit string, if the value fits.
pub fn parse_number(s: &str) -> (r: Option<i64>)
    ensures
        r == spec_parse_number(s@),
{
    let n = s.unicode_len();
    if n == 0 {
        return None;
    }
    let mut acc: i64 = 0;
    let mut i: usize = 0;
    while i < n
        invariant
            0 <= i <= n,
            n == s@.len(),
            all_digits(s@.take(i as int)),
            acc == digits_val(s@.take(i as int)),
            acc >= 0,
        decreases n - i,
    {
        let c = s.get_char(i);
        if !crate::util::is_digit(c) {
            return None;
        }
        let d: i64 = (c as u32 - 48) as i64;
        proof {
            assert(s@.take(i + 1).drop_last() =~= s@.take(i as int));
            assert(s@.take(i + 1).last() == s@[i as int]);
        }
        let acc10 = match acc.checked_mul(10) {
            Some(v) => v,
            None => {
                proof {
                    lemma_digits_val_bound(s@, i + 1);
                }
                return None;
            },
        };
        let acc2 = match acc10.checked_add(d) {
            Some(v) => v,
            None => {
                proof {
                    lemma_digits_val_bound(s@, i + 1);
                }
                return None;
            },
        };
        acc = acc2;
        i = i + 1;
    }
    proof {
        assert(s@.take(n as int) =~= s@);
    }
    Some(acc)
}

/// If the first `k` characters are digits and already denote a value
/// beyond the largest number value, the whole lexeme cannot be a supported
/// literal.
proof fn lemma_digits_val_bound(s: Seq<char>, k: int)
    requires
        0 <= k <= s.len(),
        all_digits(s.take(k)),
        digits_val(s.take(k)) > i64::MAX,
    ensures
        spec_parse_number(s) is None,
{
    if all_digits(s) {
        lemma_digits_val_mono(s, k);
    }
}

/// For an all-digit string, the value of a prefix never exceeds the value
/// of the whole.
proof fn lemma_digits_val_mono(s: Seq<char>, k: int)
    requires
        0 <= k <= s.len(),
        all_digits(s),
    ensures
        digits_val(s.take(k)) <= digits_val(s),
        digits_val(s) >= 0,
    decreases s.len(),
{
    if s.len() == 0 {
    } else {
        assert(s.drop_last() =~= s.take(s.len() - 1));
        assert(all_digits(s.drop_last()));
        lemma_digits_val_mono(s.drop_last(), if k < s.len() {
            k
        } else {
            s.len() - 1
        });
        if k < s.len() {
            assert(s.take(k) =~= s.drop_last().take(k));
        } else {
            assert(s.take(k) =~= s);
        }
        assert(crate::util::spec_is_digit(s.last()));
        assert(digits_val(s) == digits_val(s.drop_last()) * 10 + (s.last() as int - '0' as int));
    }
}

} // verus!
