//! End-to-end runs of small programs through every phase: scan, parse,
//! resolve, compile, execute.

use rlox::byte_code::{Value, Vm};
use rlox::compiler::Compiler;
use rlox::parser::Parser;
use rlox::resolver::Resolver;
use rlox::run;
use rlox::scanner::Scanner;

fn run_src(src: &str) -> rlox::RunOutput {
    run(String::from(src))
}

#[test]
fn truthiness_of_values() {
    assert!(Value::Number(1).is_truthy());
    assert!(Value::Number(0).is_truthy());
    assert!(Value::Boolean(true).is_truthy());
    assert!(!Value::Boolean(false).is_truthy());
    assert!(!Value::Nil.is_truthy());
}

#[test]
fn sum_of_two_variables() {
    let out = run_src("var x = 2; var y = 3; print x + y;");
    assert!(!out.had_error);
    assert!(!out.fault);
    assert_eq!(out.printed, vec![Value::Number(5)]);
    assert!(out.errors.is_empty());
}

#[test]
fn shadowing_inner_popped_on_block_exit() {
    let out = run_src("var x = 5; { var x = 10; print x; } print x;");
    assert!(!out.had_error);
    assert!(!out.fault);
    assert_eq!(out.printed, vec![Value::Number(10), Value::Number(5)]);
}

#[test]
fn if_else_takes_exactly_one_branch() {
    let out = run_src("if (false) { print 1; } else { print 2; }");
    assert!(!out.had_error);
    assert!(!out.fault);
    assert_eq!(out.printed, vec![Value::Number(2)]);

    let out = run_src("if (true) { print 1; } else { print 2; }");
    assert!(!out.had_error);
    assert_eq!(out.printed, vec![Value::Number(1)]);

    // every number is truthy, zero included
    let out = run_src("if (0) { print 1; } else { print 2; }");
    assert!(!out.had_error);
    assert_eq!(out.printed, vec![Value::Number(1)]);
}

#[test]
fn if_without_else() {
    let out = run_src("if (1) print 7;");
    assert!(!out.had_error);
    assert_eq!(out.printed, vec![Value::Number(7)]);
}

#[test]
fn self_referential_initializer_is_a_resolution_error() {
    let out = run_src("var x = x;");
    assert!(out.had_error);
    assert!(!out.fault);
    assert!(out.printed.is_empty());
    assert_eq!(out.errors.len(), 1);
    assert_eq!(out.errors[0].line, 1);
    assert_eq!(out.errors[0].loc, " at 'x'");
    assert_eq!(
        out.errors[0].msg,
        "Cannot read a local variable in its own initialiser."
    );
}

#[test]
fn self_referential_initializer_reports_declaration_line() {
    let out = run_src("var a = 1;\nvar x = x;");
    assert!(out.had_error);
    assert_eq!(out.errors[0].line, 2);
}

#[test]
fn unsupported_literal_is_a_compile_error_with_no_run() {
    let out = run_src("print 1 + \"oops\";");
    assert!(out.had_error);
    assert!(out.printed.is_empty());
    assert_eq!(out.errors.len(), 1);
    assert_eq!(out.errors[0].msg, "Only doing numbers presently.");
}

#[test]
fn constant_pool_grows_in_order_of_first_appearance() {
    let mut scanner = Scanner::new();
    let (tokens, scan_err) = scanner.scan(String::from("var a = 1; var b = 2 + a * 3;"));
    assert!(!scan_err);
    let mut parser = Parser::new();
    let (stmts, parse_err) = parser.parse(tokens);
    assert!(!parse_err);
    let mut resolver = Resolver::new();
    let (stmts, resolve_err) = resolver.resolve(stmts);
    assert!(!resolve_err);
    let mut codegen = Compiler::new();
    let (byte_code, compile_err) = codegen.compile(&stmts);
    assert!(!compile_err);
    assert_eq!(
        byte_code.constants,
        vec![
            Value::Number(0),
            Value::Number(1),
            Value::Number(2),
            Value::Number(3)
        ]
    );
    let mut vm = Vm::new(byte_code);
    let result = vm.exec();
    assert!(!result.had_error);
    assert!(!result.fault);
}

#[test]
fn computed_declaration_prints_its_value() {
    let out = run_src("var a = 1; var b = 2 + a * 3; print b;");
    assert!(!out.had_error);
    assert_eq!(out.printed, vec![Value::Number(5)]);
}

#[test]
fn precedence_and_grouping() {
    let out = run_src("print 1 + 2 * 3;");
    assert_eq!(out.printed, vec![Value::Number(7)]);
    let out = run_src("print (1 + 2) * 3;");
    assert_eq!(out.printed, vec![Value::Number(9)]);
}

#[test]
fn unary_minus_and_subtraction() {
    let out = run_src("print -5 + 2;");
    assert_eq!(out.printed, vec![Value::Number(-3)]);
    let out = run_src("print 2 - 5;");
    assert_eq!(out.printed, vec![Value::Number(-3)]);
}

#[test]
fn division_truncates() {
    let out = run_src("print 10 / 3;");
    assert_eq!(out.printed, vec![Value::Number(3)]);
    let out = run_src("print 0 - 10 / 3;");
    assert_eq!(out.printed, vec![Value::Number(-3)]);
}

#[test]
fn division_by_zero_is_a_runtime_error() {
    let out = run_src("print 1 / 0;");
    assert!(out.had_error);
    assert!(!out.fault);
    assert!(out.printed.is_empty());
    assert_eq!(out.errors.len(), 1);
    assert_eq!(
        out.errors[0].msg,
        "The operation '/' has no representable result."
    );
}

#[test]
fn runtime_type_mismatch_names_operator_and_operand_types() {
    let out = run_src("print 1 + true;");
    assert!(out.had_error);
    assert!(!out.fault);
    assert_eq!(out.errors.len(), 1);
    assert_eq!(
        out.errors[0].msg,
        "Unknown operation '+' on types Number and Boolean."
    );

    let out = run_src("print nil * 2;");
    assert!(out.had_error);
    assert_eq!(
        out.errors[0].msg,
        "Unknown operation '*' on types Nil and Number."
    );

    let out = run_src("print -false;");
    assert!(out.had_error);
    assert_eq!(out.errors[0].msg, "Unknown operation '-' on type Boolean.");
}

#[test]
fn printing_before_a_runtime_error_is_kept() {
    let out = run_src("print 7; print 1 + nil;");
    assert!(out.had_error);
    assert_eq!(out.printed, vec![Value::Number(7)]);
}

#[test]
fn logical_operators_yield_booleans() {
    let out = run_src("print 1 and 2;");
    assert_eq!(out.printed, vec![Value::Boolean(true)]);
    let out = run_src("print 1 and false;");
    assert_eq!(out.printed, vec![Value::Boolean(false)]);
    let out = run_src("print nil or 2;");
    assert_eq!(out.printed, vec![Value::Boolean(true)]);
    let out = run_src("print nil or false;");
    assert_eq!(out.printed, vec![Value::Boolean(false)]);
}

#[test]
fn unused_variable_warns_but_does_not_fail() {
    let out = run_src("var x = 1;");
    assert!(!out.had_error);
    assert_eq!(out.warnings.len(), 1);
    assert_eq!(out.warnings[0].name, "x");
    assert_eq!(out.warnings[0].line, 1);
}

#[test]
fn redeclaring_in_same_scope_is_an_error() {
    let out = run_src("var x = 1; var x = 2; print x;");
    assert!(out.had_error);
    assert_eq!(out.errors[0].msg, "Name already in use.");
}

#[test]
fn redeclaring_in_nested_scope_is_allowed() {
    let out = run_src("var x = 1; { var x = 2; print x; } print x;");
    assert!(!out.had_error);
    assert_eq!(out.printed, vec![Value::Number(2), Value::Number(1)]);
}

#[test]
fn undeclared_variable_is_an_error() {
    let out = run_src("print y;");
    assert!(out.had_error);
    assert_eq!(out.errors[0].msg, "Undeclared symbol.");
}

#[test]
fn resolution_continues_past_an_error() {
    let out = run_src("var x = x; var y = y;");
    assert!(out.had_error);
    assert_eq!(out.errors.len(), 2);
}

#[test]
fn unterminated_string_is_a_scan_error() {
    let out = run_src("print \"abc");
    assert!(out.had_error);
    assert_eq!(out.errors[0].msg, "Unterminated string.");
}

#[test]
fn unexpected_character_is_a_scan_error() {
    let out = run_src("print #;");
    assert!(out.had_error);
    assert_eq!(out.errors[0].msg, "Unexpected character.");
}

#[test]
fn missing_semicolon_is_a_parse_error() {
    let out = run_src("print 1");
    assert!(out.had_error);
    assert!(out.printed.is_empty());
}

#[test]
fn while_is_not_compiled_yet() {
    let out = run_src("var i = 1; while (i) print i;");
    assert!(out.had_error);
    assert!(out.printed.is_empty());
}

#[test]
fn too_many_constants_is_a_compile_error() {
    let mut src = String::from("print 0");
    for _ in 0..300 {
        src.push_str(" + 1");
    }
    src.push_str(";");
    let out = run_src(&src);
    assert!(out.had_error);
    assert_eq!(out.errors[0].msg, "Too many constants in one program.");
}

#[test]
fn empty_program_runs_cleanly() {
    let out = run_src("");
    assert!(!out.had_error);
    assert!(!out.fault);
    assert!(out.printed.is_empty());
}

#[test]
fn comments_and_whitespace_are_skipped() {
    let out = run_src("// nothing here\nprint 4; // trailing\n");
    assert!(!out.had_error);
    assert_eq!(out.printed, vec![Value::Number(4)]);
}

#[test]
fn expression_statement_discards_its_value() {
    let out = run_src("1 + 2; print 9;");
    assert!(!out.had_error);
    assert_eq!(out.printed, vec![Value::Number(9)]);
}

#[test]
fn nested_blocks_balance_the_stack() {
    let out = run_src("var a = 1; { var b = 2; { var c = 3; print a + b + c; } } print a;");
    assert!(!out.had_error);
    assert_eq!(out.printed, vec![Value::Number(6), Value::Number(1)]);
}

#[test]
fn condition_is_popped_on_both_branch_paths() {
    let out = run_src("var t = 1; if (false) { print 10; } else { print 20; } print t;");
    assert!(!out.had_error);
    assert_eq!(out.printed, vec![Value::Number(20), Value::Number(1)]);
    let out = run_src("var t = 1; if (t) { print 10; } else { print 20; } print t;");
    assert!(!out.had_error);
    assert_eq!(out.printed, vec![Value::Number(10), Value::Number(1)]);
}
