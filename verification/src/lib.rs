//! A small language back end: a scanner and recursive-descent parser build a
//! statement tree, a resolver validates lexical scoping, a compiler lowers the
//! tree to a flat instruction stream, and a stack virtual machine runs it.

pub mod util;
pub mod token;
pub mod expr;
pub mod stmt;
pub mod error;
pub mod byte_code;
pub mod compiler;
pub mod resolver;
pub mod scanner;
pub mod parser;
pub mod correctness;

use vstd::prelude::*;
use crate::byte_code::{run as vm_run, ExecResult, Op, RunRes, Value, Vm, VmState};
use crate::compiler::{c_stmts, Compiler};
use crate::error::Error;
use crate::parser::Parser;
use crate::resolver::{Resolver, Warning};
use crate::scanner::Scanner;
use crate::stmt::Stmt;

verus! {

/// What one end-to-end run produced: the values printed by the machine,
/// the error flag, the diagnostics of whichever phase stopped the run, and
/// the unused-variable warnings.
pub struct RunOutput {
    pub printed: Vec<Value>,
    pub had_error: bool,
    pub fault: bool,
    pub errors: Vec<Error>,
    pub warnings: Vec<Warning>,
}

/// Compiles a resolved program and executes it on a fresh machine: the
/// verified back half of a run.  On a compile error the diagnostic comes
/// back with nothing printed and no machine run; otherwise the printed
/// values, error flag and diagnostics are exactly what the specification
/// semantics gives for the compiled program.
pub fn compile_and_exec(stmts: &Vec<Stmt>) -> (r: ExecResult)
    ensures
        ({
            let m = c_stmts(stmts@, 1, Seq::<Seq<char>>::empty(), 0);
            match m {
                Some(sm) => {
                    let r0 = vm_run(
                        sm.code + seq![Op::Return],
                        seq![Value::Number(0)] + sm.consts,
                        VmState { stack: Seq::<Value>::empty(), out: Seq::<Value>::empty() },
                        0,
                    );
                    match r0 {
                        RunRes::Done { st, err } => {
                            &&& !r.fault
                            &&& r.printed@ == st.out
                            &&& r.had_error == err
                            &&& r.errors@.len() == if err {
                                1int
                            } else {
                                0int
                            }
                        },
                        RunRes::Crash => r.fault && r.errors@.len() == 0 && !r.had_error,
                    }
                },
                None => {
                    &&& r.had_error
                    &&& !r.fault
                    &&& r.printed@.len() == 0
                    &&& r.errors@.len() == 1
                },
            }
        }),
{
    let mut codegen = Compiler::new();
    let (byte_code, had_codegen_error) = codegen.compile(stmts);
    if had_codegen_error {
        return ExecResult {
            printed: Vec::new(),
            had_error: true,
            fault: false,
            errors: codegen.errors,
        };
    }
    let mut vm = Vm::new(byte_code);
    vm.exec()
}

/// Runs one source text through every phase in order: scan, parse,
/// resolve, compile, execute.  A phase that fails stops the run (so a
/// program that fails resolution is never compiled, and one that fails
/// compilation is never executed); a resolved program that compiles is
/// handed to [`compile_and_exec`], whose contract ties the printed values
/// to the specification semantics of the compiled program.
pub fn run(src: String) -> (r: RunOutput)
    ensures
        r.errors@.len() > 0 ==> r.had_error,
        !r.had_error ==> r.errors@.len() == 0,
{
    // scanner / lexer
    let mut scanner = Scanner::new();
    let (tokens, had_scan_error) = scanner.scan(src);
    if had_scan_error {
        return RunOutput {
            printed: Vec::new(),
            had_error: true,
            fault: false,
            errors: scanner.take_errors(),
            warnings: Vec::new(),
        };
    }
    // parser
    let mut parser = Parser::new();
    let (stmts, had_parse_error) = parser.parse(tokens);
    if had_parse_error {
        return RunOutput {
            printed: Vec::new(),
            had_error: true,
            fault: false,
            errors: parser.take_errors(),
            warnings: Vec::new(),
        };
    }
    // resolver
    let mut resolver = Resolver::new();
    let (stmts, had_resolve_error) = resolver.resolve(stmts);
    if had_resolve_error {
        return RunOutput {
            printed: Vec::new(),
            had_error: true,
            fault: false,
            errors: resolver.errors,
            warnings: resolver.warnings,
        };
    }
    // compiler and virtual machine
    let result = compile_and_exec(&stmts);
    RunOutput {
        printed: result.printed,
        had_error: result.had_error,
        fault: result.fault,
        errors: result.errors,
        warnings: resolver.warnings,
    }
}

} // verus!
