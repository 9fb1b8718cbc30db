use crafting_interpreters::scanner::Scanner;
use crafting_interpreters::token::{LiteralVal, TokenType};
use crafting_interpreters::Lox;

#[test]
fn simple_test() {
    let source = r#"// this is a comment
( // grouping stuff
!!=* // operators
"hey"
1.25"#
        .to_string();
    let mut scanner = Scanner::new(source);
    let mut lox = Lox::default();
    let tokens = scanner.scan_tokens(&mut lox);

    assert_eq!(tokens[0].token_type, TokenType::LeftParen);
    assert_eq!(tokens[1].token_type, TokenType::Bang);
    assert_eq!(tokens[2].token_type, TokenType::BangEqual);
    assert_eq!(tokens[3].token_type, TokenType::Star);
    assert_eq!(tokens[4].literal, LiteralVal::Str(String::from("hey")));
    assert_eq!(tokens[5].literal, LiteralVal::Number(1_250_000));
}

fn scan(source: &str) -> (Vec<crafting_interpreters::token::Token>, Lox) {
    let mut scanner = Scanner::new(source.to_string());
    let mut lox = Lox::default();
    let tokens = scanner.scan_tokens(&mut lox);
    (tokens, lox)
}

#[test]
fn operator_lexeme_round_trip() {
    let ops = vec![
        "(", ")", "{", "}", ",", ".", "-", "+", ";", "/", "*", "!", "!=", "=", "==", ">", ">=",
        "<", "<=",
    ];
    for op in ops {
        let (tokens, lox) = scan(op);
        assert!(!lox.had_error);
        assert_eq!(tokens.len(), 2);
        assert_eq!(tokens[0].lexeme, op.to_string());
        assert_eq!(tokens[1].token_type, TokenType::EOF);
        let (again, lox2) = scan(&tokens[0].lexeme);
        assert!(!lox2.had_error);
        assert_eq!(again[0].token_type, tokens[0].token_type);
    }
}

#[test]
fn unterminated_string_reports_and_reaches_eof() {
    let (tokens, lox) = scan("\"abc");
    assert!(lox.had_error);
    assert_eq!(
        lox.diagnostics,
        vec!["[line 1] Error: Unterminated string.".to_string()]
    );
    assert_eq!(tokens.len(), 1);
    assert_eq!(tokens[0].token_type, TokenType::EOF);
}

#[test]
fn string_spans_lines_and_counts_them() {
    let (tokens, lox) = scan("\"a\nb\"\n@");
    assert!(lox.had_error);
    assert_eq!(tokens[0].token_type, TokenType::String);
    assert_eq!(tokens[0].literal, LiteralVal::Str(String::from("a\nb")));
    assert_eq!(tokens[0].line, 2);
    assert_eq!(
        lox.diagnostics,
        vec!["[line 3] Error: Unexpected Character".to_string()]
    );
}

#[test]
fn nested_block_comment_is_skipped() {
    let (tokens, lox) = scan("/* outer /* inner */ still outer */ 7");
    assert!(!lox.had_error);
    assert_eq!(tokens.len(), 2);
    assert_eq!(tokens[0].token_type, TokenType::Number);
    assert_eq!(tokens[0].literal, LiteralVal::Number(7_000_000));
}

#[test]
fn unterminated_block_comment_reports() {
    let (tokens, lox) = scan("/* abc");
    assert!(lox.had_error);
    assert_eq!(
        lox.diagnostics,
        vec!["[line 1] Error: Unterminated block comment.".to_string()]
    );
    assert_eq!(tokens.len(), 1);
    assert_eq!(tokens[0].token_type, TokenType::EOF);
}

#[test]
fn keywords_and_identifiers() {
    let (tokens, lox) = scan("var x = true and false or nil while class");
    assert!(!lox.had_error);
    let kinds: Vec<TokenType> = tokens.iter().map(|t| t.token_type).collect();
    assert_eq!(
        kinds,
        vec![
            TokenType::Var,
            TokenType::Identifier,
            TokenType::Equal,
            TokenType::True,
            TokenType::And,
            TokenType::False,
            TokenType::Or,
            TokenType::Nil,
            TokenType::While,
            TokenType::Class,
            TokenType::EOF,
        ]
    );
    assert_eq!(tokens[1].lexeme, "x".to_string());
}

#[test]
fn number_literal_too_large_becomes_nan_marker() {
    let (tokens, lox) = scan("10000000000000");
    assert!(!lox.had_error);
    assert_eq!(tokens[0].token_type, TokenType::Number);
    assert_eq!(tokens[0].literal, LiteralVal::NaN);
}

#[test]
fn fractional_digits_beyond_carried_precision_truncate() {
    let (tokens, _) = scan("0.1234567");
    assert_eq!(tokens[0].literal, LiteralVal::Number(123_456));
}

#[test]
fn character_predicates() {
    assert!(crafting_interpreters::scanner::is_digit('7'));
    assert!(!crafting_interpreters::scanner::is_digit('a'));
    assert!(crafting_interpreters::scanner::is_alpha('_'));
    assert!(crafting_interpreters::scanner::is_alpha('Z'));
    assert!(!crafting_interpreters::scanner::is_alpha('9'));
    assert!(crafting_interpreters::scanner::is_alpha_numeric('9'));
    assert!(!crafting_interpreters::scanner::is_alpha_numeric('#'));
}
