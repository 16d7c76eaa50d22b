//! The executable form of a program and the stack machine that runs it.
//!
//! [`ByteCode`] pairs a flat instruction sequence with a constant pool.
//! [`Vm`] runs it with a fetch-decode-execute loop over a single value
//! stack.  The meaning of every instruction is pinned down once, by the
//! specification functions [`step_op`] and [`run`]; the machine's `exec`
//! loop is verified against them, and the compiler's correctness statements
//! are phrased over the same functions.

use vstd::prelude::*;
use vstd::string::StringExecFns;
use crate::error::Error;
use crate::util::Stack;

verus! {

/// One machine instruction.
///
/// `PushConstant` and `Dup` carry pool and stack indices; the two jumps
/// carry a signed offset relative to the jump's own index.  `Nop` is the
/// placeholder a forward branch occupies until it is backpatched.
#[derive(Debug, Clone, Copy, PartialEq, Eq, Structural)]
pub enum Op {
    Add,
    Sub,
    Mul,
    Div,
    Neg,
    Pop,
    PushConstant(u8),
    Dup(u8),
    Print,
    And,
    Or,
    Return,
    JumpIfFalse(i16),
    Jump(i16),
    Nop,
}

/// A runtime value: a number, a boolean, or nil.
#[derive(Debug, Clone, Copy, PartialEq, Eq, Structural)]
pub enum Value {
    Number(i64),
    Boolean(bool),
    Nil,
}

/// An immutable compiled program: instructions plus constant pool.
pub struct ByteCode {
    pub code: Vec<Op>,
    pub constants: Vec<Value>,
}

/// `nil` and `false` are falsy; every other value is truthy.
pub open spec fn spec_truthy(v: Value) -> bool {
    !(v == Value::Nil || v == Value::Boolean(false))
}

/// The name of a value's kind, as a runtime diagnostic spells it.
pub open spec fn spec_type_name(v: Value) -> Seq<char> {
    match v {
        Value::Number(_) => "Number"@,
        Value::Boolean(_) => "Boolean"@,
        Value::Nil => "Nil"@,
    }
}

/// The source-operator symbol of an instruction, for diagnostics.
pub open spec fn spec_op_symbol(op: Op) -> Seq<char> {
    match op {
        Op::Add => "+"@,
        Op::Sub => "-"@,
        Op::Mul => "*"@,
        Op::Div => "/"@,
        Op::Neg => "-"@,
        _ => ""@,
    }
}

impl Value {
    /// The name of this value's kind.
    pub fn kind_name(&self) -> (r: &'static str)
        ensures
            r@ == spec_type_name(*self),
    {
        match self {
            Value::Number(_) => "Number",
            Value::Boolean(_) => "Boolean",
            Value::Nil => "Nil",
        }
    }

    pub fn is_truthy(&self) -> (r: bool)
        ensures
            r == spec_truthy(*self),
    {
        match self {
            Value::Number(_) => true,
            Value::Boolean(b) => *b,
            Value::Nil => false,
        }
    }
}

/// The diagnostic for a binary operator applied to operands that are not
/// both numbers, naming the operator and both operand types.
pub open spec fn type_mismatch_message(op: Op, left: Value, right: Value) -> Seq<char> {
    "Unknown operation '"@ + spec_op_symbol(op) + "' on types "@ + spec_type_name(left)
        + " and "@ + spec_type_name(right) + "."@
}

/// The diagnostic for negating a value that is not a number.
pub open spec fn unary_mismatch_message(v: Value) -> Seq<char> {
    "Unknown operation '-' on type "@ + spec_type_name(v) + "."@
}

/// The diagnostic for an arithmetic result outside the number range, a
/// division by zero included.
pub open spec fn range_error_message(op: Op) -> Seq<char> {
    "The operation '"@ + spec_op_symbol(op) + "' has no representable result."@
}

/// The observable machine state the specification semantics tracks: the
/// value stack (bottom first) and the values printed so far.
pub struct VmState {
    pub stack: Seq<Value>,
    pub out: Seq<Value>,
}

/// What one instruction does to a [`VmState`].
pub enum StepRes {
    /// Execution continues; the instruction pointer moves by `delta`.
    Next { st: VmState, delta: int },
    /// The machine halts: a `Return`, or a runtime error when `err` is set.
    Halt { st: VmState, err: bool },
    /// An internal fault: an operand or index the program never validated.
    Crash,
}

/// The result of running a program to completion.
pub enum RunRes {
    Done { st: VmState, err: bool },
    Crash,
}

/// Truncated signed division, the error cases spelled out: division by
/// zero and the one overflowing quotient have no result.
pub open spec fn spec_div(x: int, y: int) -> Option<int> {
    if y == 0 {
        None
    } else {
        let q = if (x >= 0) == (y >= 0) {
            abs_int(x) / abs_int(y)
        } else {
            -(abs_int(x) / abs_int(y))
        };
        if q > i64::MAX {
            None
        } else {
            Some(q)
        }
    }
}

pub open spec fn abs_int(x: int) -> int {
    if x >= 0 {
        x
    } else {
        -x
    }
}

/// The arithmetic step shared by `Add`, `Sub`, `Mul` and `Div`: a result
/// that fits in a number value, or a halt with the error flag set.
pub open spec fn arith_result(op: Op, x: int, y: int) -> Option<int> {
    match op {
        Op::Add => if i64::MIN <= x + y <= i64::MAX {
            Some(x + y)
        } else {
            None
        },
        Op::Sub => if i64::MIN <= x - y <= i64::MAX {
            Some(x - y)
        } else {
            None
        },
        Op::Mul => if i64::MIN <= x * y <= i64::MAX {
            Some(x * y)
        } else {
            None
        },
        Op::Div => spec_div(x, y),
        _ => None,
    }
}

/// The meaning of one instruction, exactly as the machine executes it:
/// binary operators pop the right operand, peek the left one and overwrite
/// it in place; `Print` peeks without popping; `JumpIfFalse` peeks the
/// condition and leaves it on the stack for the compiled code to pop.
pub open spec fn step_op(op: Op, consts: Seq<Value>, st: VmState) -> StepRes {
    match op {
        Op::Add | Op::Sub | Op::Mul | Op::Div => {
            if st.stack.len() < 2 {
                StepRes::Crash
            } else {
                let right = st.stack.last();
                let popped = st.stack.drop_last();
                let left = popped.last();
                match (left, right) {
                    (Value::Number(x), Value::Number(y)) => match arith_result(op, x as int, y as int) {
                        Some(v) => StepRes::Next {
                            st: VmState {
                                stack: popped.update(popped.len() - 1, Value::Number(v as i64)),
                                out: st.out,
                            },
                            delta: 1,
                        },
                        None => StepRes::Halt { st: VmState { stack: popped, out: st.out }, err: true },
                    },
                    _ => StepRes::Halt { st: VmState { stack: popped, out: st.out }, err: true },
                }
            }
        },
        Op::Neg => {
            if st.stack.len() < 1 {
                StepRes::Crash
            } else {
                match st.stack.last() {
                    Value::Number(x) => if x == i64::MIN {
                        StepRes::Halt { st, err: true }
                    } else {
                        StepRes::Next {
                            st: VmState {
                                stack: st.stack.update(st.stack.len() - 1, Value::Number((-x) as i64)),
                                out: st.out,
                            },
                            delta: 1,
                        }
                    },
                    _ => StepRes::Halt { st, err: true },
                }
            }
        },
        Op::PushConstant(idx) => {
            if idx < consts.len() {
                StepRes::Next {
                    st: VmState { stack: st.stack.push(consts[idx as int]), out: st.out },
                    delta: 1,
                }
            } else {
                StepRes::Crash
            }
        },
        Op::And => {
            if st.stack.len() < 2 {
                StepRes::Crash
            } else {
                let right = st.stack.last();
                let popped = st.stack.drop_last();
                let left = popped.last();
                StepRes::Next {
                    st: VmState {
                        stack: popped.update(
                            popped.len() - 1,
                            Value::Boolean(spec_truthy(left) && spec_truthy(right)),
                        ),
                        out: st.out,
                    },
                    delta: 1,
                }
            }
        },
        Op::Or => {
            if st.stack.len() < 2 {
                StepRes::Crash
            } else {
                let right = st.stack.last();
                let popped = st.stack.drop_last();
                let left = popped.last();
                StepRes::Next {
                    st: VmState {
                        stack: popped.update(
                            popped.len() - 1,
                            Value::Boolean(spec_truthy(left) || spec_truthy(right)),
                        ),
                        out: st.out,
                    },
                    delta: 1,
                }
            }
        },
        Op::Return => StepRes::Halt { st, err: false },
        Op::Pop => {
            if st.stack.len() < 1 {
                StepRes::Crash
            } else {
                StepRes::Next { st: VmState { stack: st.stack.drop_last(), out: st.out }, delta: 1 }
            }
        },
        Op::Dup(depth) => {
            if depth < st.stack.len() {
                StepRes::Next {
                    st: VmState {
                        stack: st.stack.push(st.stack[st.stack.len() - 1 - depth]),
                        out: st.out,
                    },
                    delta: 1,
                }
            } else {
                StepRes::Crash
            }
        },
        Op::Print => {
            if st.stack.len() < 1 {
                StepRes::Crash
            } else {
                StepRes::Next {
                    st: VmState { stack: st.stack, out: st.out.push(st.stack.last()) },
                    delta: 1,
                }
            }
        },
        Op::Nop => StepRes::Next { st, delta: 1 },
        Op::JumpIfFalse(d) => {
            if st.stack.len() < 1 {
                StepRes::Crash
            } else {
                StepRes::Next {
                    st,
                    delta: if spec_truthy(st.stack.last()) {
                        1
                    } else {
                        d as int
                    },
                }
            }
        },
        Op::Jump(d) => StepRes::Next { st, delta: d as int },
    }
}

/// Runs the machine from `ip` until it halts.  Falling off the end of the
/// code, or a jump that does not move strictly forward and land inside the
/// code, is a fault: this semantics covers the forward-branching programs
/// the compiler emits, and the machine checks the same conditions at run
/// time.
pub open spec fn run(code: Seq<Op>, consts: Seq<Value>, st: VmState, ip: int) -> RunRes
    decreases code.len() - ip
        when 0 <= ip <= code.len()
{
    if ip == code.len() {
        RunRes::Crash
    } else {
        match step_op(code[ip], consts, st) {
            StepRes::Halt { st, err } => RunRes::Done { st, err },
            StepRes::Crash => RunRes::Crash,
            StepRes::Next { st, delta } => {
                if 1 <= delta && ip + delta <= code.len() {
                    run(code, consts, st, ip + delta)
                } else {
                    RunRes::Crash
                }
            },
        }
    }
}

/// Truncated division with explicit failure, mirroring [`spec_div`].
fn div_i64(x: i64, y: i64) -> (r: Option<i64>)
    ensures
        r matches Some(q) ==> spec_div(x as int, y as int) == Some(q as int),
        r is None ==> spec_div(x as int, y as int) is None,
{
    if y == 0 {
        return None;
    }
    let ux: u64 = if x == i64::MIN {
        9223372036854775808u64
    } else if x < 0 {
        (-x) as u64
    } else {
        x as u64
    };
    let uy: u64 = if y == i64::MIN {
        9223372036854775808u64
    } else if y < 0 {
        (-y) as u64
    } else {
        y as u64
    };
    let q: u64 = ux / uy;
    if (x < 0) == (y < 0) {
        if q > i64::MAX as u64 {
            None
        } else {
            Some(q as i64)
        }
    } else {
        if q >= 9223372036854775808u64 {
            Some(i64::MIN)
        } else {
            Some(-(q as i64))
        }
    }
}

/// What one run of the machine produced: the printed values, the error
/// flag with the runtime diagnostics behind it, or an internal fault for
/// a program that indexed out of range.
pub struct ExecResult {
    pub printed: Vec<Value>,
    pub had_error: bool,
    pub fault: bool,
    pub errors: Vec<Error>,
}

/// The virtual machine: a compiled program, an instruction pointer, the
/// runtime value stack, and the runtime diagnostics recorded so far.
pub struct Vm {
    bc: ByteCode,
    ip: usize,
    stack: Stack<Value>,
    had_error: bool,
    errors: Vec<Error>,
}

impl Vm {
    pub closed spec fn spec_code(&self) -> Seq<Op> {
        self.bc.code@
    }

    pub closed spec fn spec_constants(&self) -> Seq<Value> {
        self.bc.constants@
    }

    pub closed spec fn spec_ip(&self) -> int {
        self.ip as int
    }

    pub closed spec fn spec_stack(&self) -> Seq<Value> {
        self.stack@
    }

    pub closed spec fn spec_error(&self) -> bool {
        self.had_error
    }

    pub closed spec fn spec_diags(&self) -> Seq<Error> {
        self.errors@
    }

    /// The machine never lets its instruction pointer leave the code.
    pub closed spec fn wf(&self) -> bool {
        self.ip <= self.bc.code@.len()
    }

    pub fn new(bc: ByteCode) -> (r: Vm)
        ensures
            r.spec_code() == bc.code@,
            r.spec_constants() == bc.constants@,
            r.spec_ip() == 0,
            r.spec_stack() == Seq::<Value>::empty(),
            r.spec_error() == false,
            r.spec_diags() == Seq::<Error>::empty(),
            r.wf(),
    {
        Vm { bc, ip: 0, stack: Stack::new(), had_error: false, errors: Vec::new() }
    }

    /// Runs the fetch-decode-execute loop until a `Return`, a runtime
    /// error, or an internal fault, and reports exactly what the
    /// specification-level [`run`] says for the starting state.
    #[verifier::loop_isolation(false)]
    pub fn exec(&mut self) -> (r: ExecResult)
        requires
            old(self).wf(),
        ensures
            final(self).wf(),
            final(self).spec_code() == old(self).spec_code(),
            final(self).spec_constants() == old(self).spec_constants(),
            ({
                let r0 = run(
                    old(self).spec_code(),
                    old(self).spec_constants(),
                    VmState { stack: old(self).spec_stack(), out: Seq::<Value>::empty() },
                    old(self).spec_ip(),
                );
                match r0 {
                    RunRes::Done { st, err } => {
                        &&& !r.fault
                        &&& r.printed@ == st.out
                        &&& r.had_error == (old(self).spec_error() || err)
                        &&& final(self).spec_stack() == st.stack
                        &&& final(self).spec_error() == (old(self).spec_error() || err)
                        &&& r.errors@.len() == old(self).spec_diags().len() + if err {
                            1int
                        } else {
                            0int
                        }
                    },
                    RunRes::Crash => r.fault && r.errors@ == old(self).spec_diags()
                        && r.had_error == old(self).spec_error(),
                }
            }),
            final(self).spec_diags() == Seq::<Error>::empty(),
    {
        let mut output: Vec<Value> = Vec::new();
        let ghost init_state = VmState {
            stack: self.stack@,
            out: Seq::<Value>::empty(),
        };
        let ghost code = self.bc.code@;
        let ghost consts = self.bc.constants@;
        let ghost ip0 = self.ip as int;
        let ghost err0 = self.had_error;
        loop
            invariant
                self.wf(),
                self.bc.code@ == code,
                self.bc.constants@ == consts,
                self.had_error == err0,
                self.errors@ == old(self).errors@,
                run(code, consts, init_state, ip0) == run(
                    code,
                    consts,
                    VmState { stack: self.stack@, out: output@ },
                    self.ip as int,
                ),
            decreases code.len() - self.ip,
        {
            if self.ip >= self.bc.code.len() {
                let diags = self.take_diags();
                return ExecResult {
                    printed: output,
                    had_error: self.had_error,
                    fault: true,
                    errors: diags,
                };
            }
            let op = self.bc.code[self.ip];
            let step = self.exec_op(op, &mut output);
            match step {
                VmStep::Fault => {
                    let diags = self.take_diags();
                    return ExecResult {
                        printed: output,
                        had_error: self.had_error,
                        fault: true,
                        errors: diags,
                    };
                },
                VmStep::Stop { err } => {
                    self.had_error = self.had_error || err;
                    let diags = self.take_diags();
                    return ExecResult {
                        printed: output,
                        had_error: self.had_error,
                        fault: false,
                        errors: diags,
                    };
                },
                VmStep::Continue { delta } => {
                    if delta < 1 {
                        let diags = self.take_diags();
                        return ExecResult {
                            printed: output,
                            had_error: self.had_error,
                            fault: true,
                            errors: diags,
                        };
                    }
                    let d = delta as usize;
                    if d > self.bc.code.len() - self.ip {
                        let diags = self.take_diags();
                        return ExecResult {
                            printed: output,
                            had_error: self.had_error,
                            fault: true,
                            errors: diags,
                        };
                    }
                    self.ip = self.ip + d;
                },
            }
        }
    }

    /// Hands out the runtime diagnostics recorded so far, clearing them.
    fn take_diags(&mut self) -> (r: Vec<Error>)
        ensures
            r@ == old(self).errors@,
            final(self).errors@ == Seq::<Error>::empty(),
            final(self).bc == old(self).bc,
            final(self).ip == old(self).ip,
            final(self).stack == old(self).stack,
            final(self).had_error == old(self).had_error,
    {
        let mut out: Vec<Error> = Vec::new();
        core::mem::swap(&mut out, &mut self.errors);
        out
    }

    /// Records a runtime diagnostic.
    fn record_error(&mut self, msg: String)
        ensures
            final(self).bc == old(self).bc,
            final(self).ip == old(self).ip,
            final(self).stack == old(self).stack,
            final(self).had_error == old(self).had_error,
            final(self).errors@.len() == old(self).errors@.len() + 1,
            final(self).errors@.drop_last() == old(self).errors@,
            final(self).errors@.last().msg@ == msg@,
    {
        self.errors.push(Error { line: 0, loc: String::new(), msg });
        proof {
            assert(self.errors@.drop_last() =~= old(self).errors@);
        }
    }

    /// The source symbol of an arithmetic or negation instruction.
    fn op_symbol(op: Op) -> (r: &'static str)
        ensures
            r@ == spec_op_symbol(op),
    {
        match op {
            Op::Add => "+",
            Op::Sub => "-",
            Op::Mul => "*",
            Op::Div => "/",
            Op::Neg => "-",
            _ => "",
        }
    }

    /// Executes a single instruction against the stack and the output
    /// channel, mirroring [`step_op`] case for case.
    fn exec_op(&mut self, op: Op, output: &mut Vec<Value>) -> (r: VmStep)
        ensures
            final(self).bc == old(self).bc,
            final(self).ip == old(self).ip,
            final(self).had_error == old(self).had_error,
            ({
                let pre = VmState { stack: old(self).stack@, out: old(output)@ };
                match step_op(op, old(self).bc.constants@, pre) {
                    StepRes::Next { st, delta } => {
                        &&& r matches VmStep::Continue { delta: d } && d as int == delta
                        &&& final(self).stack@ == st.stack
                        &&& final(output)@ == st.out
                        &&& final(self).errors@ == old(self).errors@
                    },
                    StepRes::Halt { st, err } => {
                        &&& r == (VmStep::Stop { err })
                        &&& final(self).stack@ == st.stack
                        &&& final(output)@ == st.out
                        &&& (!err ==> final(self).errors@ == old(self).errors@)
                        &&& (err ==> final(self).errors@.len() == old(self).errors@.len() + 1
                            && final(self).errors@.drop_last() == old(self).errors@)
                    },
                    StepRes::Crash => r == VmStep::Fault && final(self).errors@ == old(
                        self,
                    ).errors@,
                }
            }),
            ({
                // a halting type mismatch or range failure records a
                // diagnostic naming the operator and the offending types
                let pre_stack = old(self).stack@;
                &&& (match op {
                    Op::Add | Op::Sub | Op::Mul | Op::Div => {
                        &&& (pre_stack.len() >= 2 && !(pre_stack.last() is Number
                            && pre_stack.drop_last().last() is Number)
                            ==> final(self).errors@.last().msg@ == type_mismatch_message(
                            op,
                            pre_stack.drop_last().last(),
                            pre_stack.last(),
                        ))
                        &&& (pre_stack.len() >= 2 && pre_stack.last() is Number
                            && pre_stack.drop_last().last() is Number && arith_result(
                            op,
                            pre_stack.drop_last().last()->Number_0 as int,
                            pre_stack.last()->Number_0 as int,
                        ) is None ==> final(self).errors@.last().msg@ == range_error_message(op))
                    },
                    Op::Neg => {
                        &&& (pre_stack.len() >= 1 && !(pre_stack.last() is Number)
                            ==> final(self).errors@.last().msg@ == unary_mismatch_message(
                            pre_stack.last(),
                        ))
                        &&& (pre_stack.len() >= 1 && pre_stack.last() == Value::Number(i64::MIN)
                            ==> final(self).errors@.last().msg@ == range_error_message(Op::Neg))
                    },
                    _ => true,
                })
            }),
    {
        match op {
            Op::Add | Op::Sub | Op::Mul | Op::Div => {
                if self.stack.depth() < 2 {
                    return VmStep::Fault;
                }
                let right = self.stack.pop();
                let left = *self.stack.peek(0);
                match (left, right) {
                    (Value::Number(x), Value::Number(y)) => {
                        let computed: Option<i64> = match op {
                            Op::Add => x.checked_add(y),
                            Op::Sub => x.checked_sub(y),
                            Op::Mul => x.checked_mul(y),
                            _ => div_i64(x, y),
                        };
                        match computed {
                            Some(v) => {
                                *self.stack.peek_mut(0) = Value::Number(v);
                                VmStep::Continue { delta: 1 }
                            },
                            None => {
                                let msg = String::from_str("The operation '").concat(
                                    Self::op_symbol(op),
                                ).concat("' has no representable result.");
                                self.record_error(msg);
                                VmStep::Stop { err: true }
                            },
                        }
                    },
                    _ => {
                        let msg = String::from_str("Unknown operation '").concat(
                            Self::op_symbol(op),
                        ).concat("' on types ").concat(left.kind_name()).concat(" and ").concat(
                            right.kind_name(),
                        ).concat(".");
                        self.record_error(msg);
                        VmStep::Stop { err: true }
                    },
                }
            },
            Op::Neg => {
                if self.stack.depth() < 1 {
                    return VmStep::Fault;
                }
                let top = *self.stack.peek(0);
                match top {
                    Value::Number(x) => {
                        if x == i64::MIN {
                            let msg = String::from_str("The operation '").concat(
                                Self::op_symbol(op),
                            ).concat("' has no representable result.");
                            self.record_error(msg);
                            VmStep::Stop { err: true }
                        } else {
                            *self.stack.peek_mut(0) = Value::Number(-x);
                            VmStep::Continue { delta: 1 }
                        }
                    },
                    _ => {
                        let msg = String::from_str("Unknown operation '-' on type ").concat(
                            top.kind_name(),
                        ).concat(".");
                        self.record_error(msg);
                        VmStep::Stop { err: true }
                    },
                }
            },
            Op::PushConstant(idx) => {
                if (idx as usize) < self.bc.constants.len() {
                    let v = self.bc.constants[idx as usize];
                    self.stack.push(v);
                    VmStep::Continue { delta: 1 }
                } else {
                    VmStep::Fault
                }
            },
            Op::And => {
                if self.stack.depth() < 2 {
                    return VmStep::Fault;
                }
                let right = self.stack.pop();
                let left = *self.stack.peek(0);
                *self.stack.peek_mut(0) = Value::Boolean(left.is_truthy() && right.is_truthy());
                VmStep::Continue { delta: 1 }
            },
            Op::Or => {
                if self.stack.depth() < 2 {
                    return VmStep::Fault;
                }
                let right = self.stack.pop();
                let left = *self.stack.peek(0);
                *self.stack.peek_mut(0) = Value::Boolean(left.is_truthy() || right.is_truthy());
                VmStep::Continue { delta: 1 }
            },
            Op::Return => VmStep::Stop { err: false },
            Op::Pop => {
                if self.stack.depth() < 1 {
                    return VmStep::Fault;
                }
                self.stack.pop();
                VmStep::Continue { delta: 1 }
            },
            Op::Dup(depth) => {
                if (depth as usize) < self.stack.depth() {
                    let v = *self.stack.peek(depth as usize);
                    self.stack.push(v);
                    VmStep::Continue { delta: 1 }
                } else {
                    VmStep::Fault
                }
            },
            Op::Print => {
                if self.stack.depth() < 1 {
                    return VmStep::Fault;
                }
                let v = *self.stack.peek(0);
                output.push(v);
                VmStep::Continue { delta: 1 }
            },
            Op::Nop => VmStep::Continue { delta: 1 },
            Op::JumpIfFalse(d) => {
                if self.stack.depth() < 1 {
                    return VmStep::Fault;
                }
                if self.stack.peek(0).is_truthy() {
                    VmStep::Continue { delta: 1 }
                } else {
                    VmStep::Continue { delta: d }
                }
            },
            Op::Jump(d) => VmStep::Continue { delta: d },
        }
    }
}

/// The executable counterpart of [`StepRes`].
#[derive(Debug, Clone, Copy, PartialEq, Eq, Structural)]
pub enum VmStep {
    Continue { delta: i16 },
    Stop { err: bool },
    Fault,
}

} // verus!
