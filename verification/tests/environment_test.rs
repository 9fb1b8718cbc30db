use crafting_interpreters::environment::Environment;
use crafting_interpreters::interpreter::RuntimeErrorKind;
use crafting_interpreters::numeric;
use crafting_interpreters::token::{LiteralVal, Token, TokenType};

fn ident(name: &str) -> Token {
    Token {
        token_type: TokenType::Identifier,
        lexeme: name.to_string(),
        literal: LiteralVal::Nil,
        line: 1,
    }
}

#[test]
fn define_then_get() {
    let mut env = Environment::new();
    env.define("x".to_string(), LiteralVal::Number(1_000_000));
    assert_eq!(env.get(&ident("x")).unwrap(), LiteralVal::Number(1_000_000));
}

#[test]
fn redefinition_shadows_in_same_scope() {
    let mut env = Environment::new();
    env.define("x".to_string(), LiteralVal::Number(1_000_000));
    env.define("x".to_string(), LiteralVal::Boolean(true));
    assert_eq!(env.get(&ident("x")).unwrap(), LiteralVal::Boolean(true));
}

#[test]
fn inner_scope_shadows_and_is_discarded() {
    let mut env = Environment::new();
    env.define("x".to_string(), LiteralVal::Number(1_000_000));
    env.with_enclosing();
    env.define("x".to_string(), LiteralVal::Number(2_000_000));
    assert_eq!(env.get(&ident("x")).unwrap(), LiteralVal::Number(2_000_000));
    env.close_scope();
    assert_eq!(env.get(&ident("x")).unwrap(), LiteralVal::Number(1_000_000));
}

#[test]
fn assign_overwrites_outer_binding_in_place() {
    let mut env = Environment::new();
    env.define("x".to_string(), LiteralVal::Number(1_000_000));
    env.with_enclosing();
    env.assign(&ident("x"), LiteralVal::Number(2_000_000)).unwrap();
    env.close_scope();
    assert_eq!(env.get(&ident("x")).unwrap(), LiteralVal::Number(2_000_000));
}

#[test]
fn get_walks_outward() {
    let mut env = Environment::new();
    env.define("x".to_string(), LiteralVal::Str("outer".to_string()));
    env.with_enclosing();
    env.define("y".to_string(), LiteralVal::Nil);
    assert_eq!(
        env.get(&ident("x")).unwrap(),
        LiteralVal::Str("outer".to_string())
    );
}

#[test]
fn missing_name_is_undefined_variable() {
    let mut env = Environment::new();
    let err = env.get(&ident("ghostly")).unwrap_err();
    assert_eq!(err.kind, RuntimeErrorKind::UndefinedVariable);
    assert_eq!(err.token.unwrap().lexeme, "ghostly".to_string());
    let err2 = env.assign(&ident("ghostly"), LiteralVal::Nil).unwrap_err();
    assert_eq!(err2.kind, RuntimeErrorKind::UndefinedVariable);
}

#[test]
fn assignment_never_creates_a_binding() {
    let mut env = Environment::new();
    assert!(env.assign(&ident("x"), LiteralVal::Nil).is_err());
    assert!(env.get(&ident("x")).is_err());
}

#[test]
fn decimal_rendering() {
    assert_eq!(numeric::render_mantissa(1_250_000), "1.25".to_string());
    assert_eq!(numeric::render_mantissa(-500_000), "-0.5".to_string());
    assert_eq!(numeric::render_mantissa(3_000_000), "3".to_string());
    assert_eq!(numeric::render_mantissa(0), "0".to_string());
    assert_eq!(numeric::render_mantissa(333_333), "0.333333".to_string());
    assert_eq!(numeric::u64_to_dec(0), "0".to_string());
    assert_eq!(numeric::u64_to_dec(90210), "90210".to_string());
    assert_eq!(numeric::u32_to_dec(7), "7".to_string());
}

#[test]
fn decimal_parsing() {
    assert_eq!(numeric::mantissa_from_parts("1", "25"), Some(1_250_000));
    assert_eq!(numeric::mantissa_from_parts("0", ""), Some(0));
    assert_eq!(numeric::mantissa_from_parts("9223372036854", ""), Some(9_223_372_036_854_000_000));
    assert_eq!(numeric::mantissa_from_parts("9223372036855", ""), None);
    assert_eq!(numeric::mantissa_from_parts("99999999999999999999999", "9"), None);
}

#[test]
fn mantissa_arithmetic() {
    assert_eq!(numeric::add_mant(1_000_000, 2_000_000), Some(3_000_000));
    assert_eq!(numeric::add_mant(i64::MAX, 1), None);
    assert_eq!(numeric::sub_mant(1_000_000, 3_000_000), Some(-2_000_000));
    assert_eq!(numeric::mul_mant(2_500_000, 2_000_000), Some(5_000_000));
    assert_eq!(numeric::mul_mant(i64::MAX, i64::MAX), None);
    assert_eq!(numeric::div_mant(1_000_000, 3_000_000), Some(333_333));
    assert_eq!(numeric::div_mant(-1_000_000, 3_000_000), Some(-333_333));
    assert_eq!(numeric::div_mant(10_000_000, 4_000_000), Some(2_500_000));
}
