use crafting_interpreters::environment::Environment;
use crafting_interpreters::interpreter::Interpreter;
use crafting_interpreters::Lox;

fn run_source(source: &str) -> Lox {
    let mut lox = Lox::default();
    let mut interpreter = Interpreter::new();
    let mut environment = Environment::new();
    lox.run(source.to_string(), &mut interpreter, &mut environment, false);
    lox
}

#[test]
fn missing_semicolon_is_reported_at_end() {
    let lox = run_source("print 1");
    assert!(lox.had_error);
    assert_eq!(
        lox.diagnostics,
        vec!["[line 1] Error at end: Expect ';' after value.".to_string()]
    );
    assert!(lox.output.is_empty());
}

#[test]
fn missing_semicolon_after_expression() {
    let lox = run_source("1 + 2 print 3;");
    assert!(lox.had_error);
    assert_eq!(
        lox.diagnostics[0],
        "[line 1] Error at 'print': Expect ';' after expression.".to_string()
    );
}

#[test]
fn invalid_assignment_target() {
    let lox = run_source("1 = 2;");
    assert!(lox.had_error);
    assert_eq!(
        lox.diagnostics,
        vec!["[line 1] Error at '=': Invalid assignment target.".to_string()]
    );
}

#[test]
fn missing_right_paren() {
    let lox = run_source("(1;");
    assert!(lox.had_error);
    assert_eq!(
        lox.diagnostics,
        vec!["[line 1] Error at ';': Expect ')' after expression.".to_string()]
    );
}

#[test]
fn stray_token_reports_and_parse_terminates() {
    let lox = run_source(")");
    assert!(lox.had_error);
    assert_eq!(
        lox.diagnostics,
        vec![
            "[line 1] Error at ')': Expect expression".to_string(),
            "[line 1] Error at ')': Expect ';' after expression.".to_string(),
        ]
    );
}

#[test]
fn var_needs_a_name() {
    let lox = run_source("var 1;");
    assert!(lox.had_error);
    assert_eq!(
        lox.diagnostics,
        vec!["[line 1] Error at '1': Expect variable name.".to_string()]
    );
}

#[test]
fn var_needs_semicolon() {
    let lox = run_source("var x = 1");
    assert!(lox.had_error);
    assert_eq!(
        lox.diagnostics,
        vec!["[line 1] Error at end: Expect ';' after variable declaration.".to_string()]
    );
}

#[test]
fn block_needs_closing_brace() {
    let lox = run_source("{ print 1;");
    assert!(lox.had_error);
    assert_eq!(
        lox.diagnostics,
        vec!["[line 1] Error at end: Expect '}' after block.".to_string()]
    );
}

#[test]
fn failing_declaration_is_dropped_and_parsing_continues() {
    let lox = run_source("var 1; print 2;");
    assert!(lox.had_error);
    assert_eq!(lox.diagnostics.len(), 1);
    assert!(lox.output.is_empty());
}

#[test]
fn parse_error_line_numbers_follow_source_lines() {
    let lox = run_source("print 1;\nprint ;");
    assert!(lox.had_error);
    assert_eq!(
        lox.diagnostics,
        vec!["[line 2] Error at ';': Expect expression".to_string()]
    );
}
