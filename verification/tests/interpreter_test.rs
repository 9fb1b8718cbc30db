use crafting_interpreters::environment::Environment;
use crafting_interpreters::interpreter::{Interpreter, RuntimeErrorKind, TypeMismatchKind};
use crafting_interpreters::token::{LiteralVal, Token, TokenType};
use crafting_interpreters::Lox;

fn run_source(source: &str) -> Lox {
    let mut lox = Lox::default();
    let mut interpreter = Interpreter::new();
    let mut environment = Environment::new();
    lox.run(source.to_string(), &mut interpreter, &mut environment, false);
    lox
}

fn outputs(source: &str) -> Vec<String> {
    let lox = run_source(source);
    assert!(!lox.had_error, "unexpected scan/parse error: {:?}", lox.diagnostics);
    assert!(
        !lox.had_runtime_error,
        "unexpected runtime error: {:?}",
        lox.diagnostics
    );
    lox.output
}

#[test]
fn string_concatenation() {
    assert_eq!(outputs("print \"a\" + \"b\";"), vec!["ab".to_string()]);
}

#[test]
fn number_addition() {
    assert_eq!(outputs("print 1 + 2;"), vec!["3".to_string()]);
}

#[test]
fn mixed_plus_is_type_mismatch() {
    let lox = run_source("1 + \"a\";");
    assert!(lox.had_runtime_error);
    assert_eq!(
        lox.diagnostics,
        vec!["Operands must be two numbers or two strings.\n[line 1;token +]".to_string()]
    );
}

#[test]
fn uninitialized_read_fails() {
    let lox = run_source("var x; print x;");
    assert!(lox.had_runtime_error);
    assert_eq!(
        lox.diagnostics,
        vec!["Can't print uninitialized variable.".to_string()]
    );
    assert!(lox.output.is_empty());
}

#[test]
fn nil_initializer_prints_nil() {
    assert_eq!(outputs("var x = nil; print x;"), vec!["nil".to_string()]);
}

#[test]
fn shadowing_in_block() {
    assert_eq!(
        outputs("var x = 1; { var x = 2; print x; } print x;"),
        vec!["2".to_string(), "1".to_string()]
    );
}

#[test]
fn nested_blocks_shadow_level_by_level() {
    assert_eq!(
        outputs("var a = 1; { var a = 2; { var a = 3; print a; } print a; } print a;"),
        vec!["3".to_string(), "2".to_string(), "1".to_string()]
    );
}

#[test]
fn error_inside_block_aborts_the_batch() {
    let lox = run_source("var x = 1; { var x = 2; print y; } print x;");
    assert!(lox.had_runtime_error);
    assert!(lox.output.is_empty());
    assert_eq!(
        lox.diagnostics,
        vec!["Undefined variable 'y'.\n[line 1;token y]".to_string()]
    );
}

#[test]
fn assignment_mutates_enclosing_scope() {
    assert_eq!(
        outputs("var x = 1; { x = 2; } print x;"),
        vec!["2".to_string()]
    );
}

#[test]
fn division_by_zero_is_reported() {
    let lox = run_source("print 7 / 0;");
    assert!(lox.had_runtime_error);
    assert_eq!(
        lox.diagnostics,
        vec!["Division by zero.\n[line 1;token /]".to_string()]
    );
    assert!(lox.output.is_empty());
}

#[test]
fn arithmetic_results() {
    assert_eq!(outputs("print 10 / 4;"), vec!["2.5".to_string()]);
    assert_eq!(outputs("print 1 / 3;"), vec!["0.333333".to_string()]);
    assert_eq!(outputs("print 3 - 5;"), vec!["-2".to_string()]);
    assert_eq!(outputs("print 1.25 * 2;"), vec!["2.5".to_string()]);
    assert_eq!(outputs("print 0.1 + 0.2;"), vec!["0.3".to_string()]);
}

#[test]
fn integral_numbers_print_without_fraction() {
    assert_eq!(outputs("print 3.0;"), vec!["3".to_string()]);
    assert_eq!(outputs("print 2.50;"), vec!["2.5".to_string()]);
    assert_eq!(outputs("print 0;"), vec!["0".to_string()]);
}

#[test]
fn unary_minus_negates() {
    assert_eq!(outputs("print -0.5;"), vec!["-0.5".to_string()]);
    assert_eq!(outputs("print --3;"), vec!["3".to_string()]);
}

#[test]
fn comparisons() {
    assert_eq!(outputs("print 1 < 2;"), vec!["true".to_string()]);
    assert_eq!(outputs("print 2 <= 2;"), vec!["true".to_string()]);
    assert_eq!(outputs("print 1 > 2;"), vec!["false".to_string()]);
    assert_eq!(outputs("print 1 >= 2;"), vec!["false".to_string()]);
}

#[test]
fn comparison_operand_must_be_number() {
    let lox = run_source("1 < \"a\";");
    assert!(lox.had_runtime_error);
    assert_eq!(
        lox.diagnostics,
        vec!["Operand must be a number.\n[line 1;token <]".to_string()]
    );
}

#[test]
fn unary_minus_operand_must_be_number() {
    let lox = run_source("-\"a\";");
    assert!(lox.had_runtime_error);
    assert_eq!(
        lox.diagnostics,
        vec!["Operand must be a number.\n[line 1;token -]".to_string()]
    );
}

#[test]
fn equality_across_tags() {
    assert_eq!(outputs("print nil == nil;"), vec!["true".to_string()]);
    assert_eq!(outputs("print 1 == \"1\";"), vec!["false".to_string()]);
    assert_eq!(outputs("print 1.0 == 1;"), vec!["true".to_string()]);
    assert_eq!(outputs("print \"a\" != \"b\";"), vec!["true".to_string()]);
    assert_eq!(outputs("print true == true;"), vec!["true".to_string()]);
}

#[test]
fn overflow_becomes_nan_marker_and_equals_itself() {
    assert_eq!(
        outputs("print 4000000000000 * 4000000000000;"),
        vec!["Nan".to_string()]
    );
    assert_eq!(
        outputs("var a = 4000000000000 * 4000000000000; print a == a;"),
        vec!["true".to_string()]
    );
}

#[test]
fn nan_comparisons_are_false() {
    assert_eq!(
        outputs("var a = 4000000000000 * 4000000000000; print a < 1;"),
        vec!["false".to_string()]
    );
    assert_eq!(
        outputs("var a = 4000000000000 * 4000000000000; print a >= 1;"),
        vec!["false".to_string()]
    );
}

#[test]
fn truthiness() {
    assert_eq!(outputs("print !nil;"), vec!["true".to_string()]);
    assert_eq!(outputs("print !false;"), vec!["true".to_string()]);
    assert_eq!(outputs("print !0;"), vec!["false".to_string()]);
    assert_eq!(outputs("print !\"\";"), vec!["false".to_string()]);
}

#[test]
fn undefined_variable_read() {
    let lox = run_source("print y;");
    assert!(lox.had_runtime_error);
    assert_eq!(
        lox.diagnostics,
        vec!["Undefined variable 'y'.\n[line 1;token y]".to_string()]
    );
}

#[test]
fn undefined_variable_assignment() {
    let lox = run_source("y = 2;");
    assert!(lox.had_runtime_error);
    assert_eq!(
        lox.diagnostics,
        vec!["Undefined variable 'y'.\n[line 1;token y]".to_string()]
    );
}

#[test]
fn assignment_is_an_expression() {
    assert_eq!(
        outputs("var x = 1; print x = 5;"),
        vec!["5".to_string()]
    );
}

#[test]
fn batch_stops_at_first_runtime_error() {
    let lox = run_source("print 1; print y; print 2;");
    assert!(lox.had_runtime_error);
    assert_eq!(lox.output, vec!["1".to_string()]);
    assert_eq!(lox.diagnostics.len(), 1);
}

#[test]
fn repl_displays_single_bare_expression() {
    let mut lox = Lox::default();
    let mut interpreter = Interpreter::new();
    let mut environment = Environment::new();
    lox.run("1 + 2;".to_string(), &mut interpreter, &mut environment, true);
    assert_eq!(lox.output, vec!["3".to_string()]);
}

#[test]
fn non_repl_discards_bare_expression_value() {
    let lox = run_source("1 + 2;");
    assert!(lox.output.is_empty());
}

#[test]
fn repl_keeps_environment_between_lines() {
    let mut lox = Lox::default();
    let mut interpreter = Interpreter::new();
    let mut environment = Environment::new();
    lox.run("var x = 41;".to_string(), &mut interpreter, &mut environment, true);
    lox.run("x = x + 1;".to_string(), &mut interpreter, &mut environment, true);
    lox.run("print x;".to_string(), &mut interpreter, &mut environment, true);
    assert_eq!(lox.output, vec!["42".to_string(), "42".to_string()]);
}

#[test]
fn grouping_overrides_precedence() {
    assert_eq!(outputs("print (1 + 2) * 3;"), vec!["9".to_string()]);
    assert_eq!(outputs("print 1 + 2 * 3;"), vec!["7".to_string()]);
}

#[test]
fn number_operand_coercion() {
    let op = Token {
        token_type: TokenType::Minus,
        lexeme: "-".to_string(),
        literal: LiteralVal::Nil,
        line: 1,
    };
    assert_eq!(
        LiteralVal::Number(5_000_000).number_operand(op.clone()).unwrap(),
        Some(5_000_000)
    );
    assert_eq!(LiteralVal::NaN.number_operand(op.clone()).unwrap(), None);
    let err = LiteralVal::Str("a".to_string()).number_operand(op).unwrap_err();
    assert_eq!(
        err.kind,
        RuntimeErrorKind::TypeMismatch(TypeMismatchKind::OperandMustBeNumber)
    );
}

#[test]
fn value_display_rules() {
    assert_eq!(LiteralVal::Number(1_250_000).print().unwrap(), "1.25".to_string());
    assert_eq!(LiteralVal::Str("hey".to_string()).print().unwrap(), "hey".to_string());
    assert_eq!(LiteralVal::Boolean(true).print().unwrap(), "true".to_string());
    assert_eq!(LiteralVal::Boolean(false).print().unwrap(), "false".to_string());
    assert_eq!(LiteralVal::Nil.print().unwrap(), "nil".to_string());
    assert_eq!(LiteralVal::NaN.print().unwrap(), "Nan".to_string());
    let err = LiteralVal::UnInit.print().unwrap_err();
    assert_eq!(err.kind, RuntimeErrorKind::UninitializedVariableRead);
    assert!(err.token.is_none());
}

#[test]
fn division_examines_its_right_operand_first() {
    // the zero check precedes even the left operand's own error
    let lox = run_source("print y / 0;");
    assert_eq!(
        lox.diagnostics,
        vec!["Division by zero.\n[line 1;token /]".to_string()]
    );
    let lox2 = run_source("print 1 / y;");
    assert_eq!(
        lox2.diagnostics,
        vec!["Undefined variable 'y'.\n[line 1;token y]".to_string()]
    );
}

#[test]
fn plus_reports_any_failing_pairing_as_type_mismatch() {
    // `+` matches on both results at once, so an operand error surfaces as
    // the operator's own type mismatch
    let lox = run_source("y + 1;");
    assert_eq!(
        lox.diagnostics,
        vec!["Operands must be two numbers or two strings.\n[line 1;token +]".to_string()]
    );
}

#[test]
fn both_operands_evaluate_before_the_operator_applies() {
    let mut lox = Lox::default();
    let mut interpreter = Interpreter::new();
    let mut environment = Environment::new();
    lox.run("var x = 1;".to_string(), &mut interpreter, &mut environment, true);
    lox.run(
        "\"a\" < (x = 2);".to_string(),
        &mut interpreter,
        &mut environment,
        true,
    );
    assert!(lox.had_runtime_error);
    lox.run("print x;".to_string(), &mut interpreter, &mut environment, true);
    assert_eq!(lox.output, vec!["2".to_string()]);
}

#[test]
fn runtime_diagnostic_carries_the_token_line() {
    let lox = run_source("var x = 1;\nprint x + nil;");
    assert!(lox.had_runtime_error);
    assert_eq!(
        lox.diagnostics,
        vec!["Operands must be two numbers or two strings.\n[line 2;token +]".to_string()]
    );
}

#[test]
fn truthiness_and_equality_helpers() {
    let interpreter = Interpreter::new();
    assert!(!interpreter.is_truthy(&LiteralVal::Nil));
    assert!(!interpreter.is_truthy(&LiteralVal::Boolean(false)));
    assert!(interpreter.is_truthy(&LiteralVal::Number(0)));
    assert!(interpreter.is_truthy(&LiteralVal::Str("".to_string())));
    assert!(interpreter.is_truthy(&LiteralVal::NaN));
    assert!(interpreter.is_equal(&LiteralVal::NaN, &LiteralVal::NaN));
    assert!(!interpreter.is_equal(&LiteralVal::Nil, &LiteralVal::Boolean(false)));
    assert!(interpreter.is_equal(
        &LiteralVal::Str("x".to_string()),
        &LiteralVal::Str("x".to_string())
    ));
}
