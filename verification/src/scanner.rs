//! The scanner: raw source text to tokens.
//!
//! A single forward cursor walks the characters with a mark at the start of
//! the current lexeme. Operators use maximal munch; `//` opens a line
//! comment, `/* ... */` a block comment that nests; strings may span lines;
//! numeric literals are digits with one optional decimal point followed by
//! digits. `spec_scan` is the reference: `scan_tokens` is proved to produce
//! exactly its tokens and to report exactly its errors, and always ends the
//! token list with a single end-of-input token.
use vstd::prelude::*;

use crate::numeric::{is_digit_char, mantissa_of_digits};
use crate::token::{LiteralVal, Token, TokenModel, TokenType, ValModel};
use crate::{spec_report_line, Lox};

verus! {

/// ASCII letters and the underscore open identifiers.
pub open spec fn is_alpha_char(c: char) -> bool {
    (97 <= c as u32 <= 122) || (65 <= c as u32 <= 90) || c == '_'
}

pub open spec fn is_alnum_char(c: char) -> bool {
    is_alpha_char(c) || is_digit_char(c)
}

pub fn is_digit(c: char) -> (r: bool)
    ensures
        r == is_digit_char(c),
{
    let u = c as u32;
    48 <= u && u <= 57
}

pub fn is_alpha(c: char) -> (r: bool)
    ensures
        r == is_alpha_char(c),
{
    let u = c as u32;
    (97 <= u && u <= 122) || (65 <= u && u <= 90) || c == '_'
}

pub fn is_alpha_numeric(c: char) -> (r: bool)
    ensures
        r == is_alnum_char(c),
{
    is_alpha(c) || is_digit(c)
}

/// The character at `i`, or the NUL sentinel past the end.
pub open spec fn peek_at(src: Seq<char>, i: nat) -> char {
    if i < src.len() {
        src[i as int]
    } else {
        '\0'
    }
}

/// First position at or after `i` that does not hold a digit.
pub open spec fn digits_end(src: Seq<char>, i: nat) -> nat
    decreases src.len() - i,
{
    if i >= src.len() || !is_digit_char(src[i as int]) {
        i
    } else {
        digits_end(src, i + 1)
    }
}

/// First position at or after `i` that does not hold an identifier
/// character.
pub open spec fn ident_end(src: Seq<char>, i: nat) -> nat
    decreases src.len() - i,
{
    if i >= src.len() || !is_alnum_char(src[i as int]) {
        i
    } else {
        ident_end(src, i + 1)
    }
}

/// First position at or after `i` holding a newline, or the end: a line
/// comment runs to there.
pub open spec fn line_comment_end(src: Seq<char>, i: nat) -> nat
    decreases src.len() - i,
{
    if i >= src.len() || src[i as int] == '\n' {
        i
    } else {
        line_comment_end(src, i + 1)
    }
}

/// Walks a string literal's body from `i`: the position of the closing
/// quote (or the end of input) and the line counter after the newlines
/// passed on the way.
pub open spec fn string_end(src: Seq<char>, i: nat, line: nat) -> (nat, nat)
    decreases src.len() - i,
{
    if i >= src.len() || src[i as int] == '"' {
        (i, line)
    } else if src[i as int] == '\n' {
        string_end(src, i + 1, line + 1)
    } else {
        string_end(src, i + 1, line)
    }
}

/// Walks a block comment from `i` at nesting `depth`: the position after the
/// comment, the line counter after it, and whether input ended inside it.
pub open spec fn block_comment_end(src: Seq<char>, i: nat, line: nat, depth: nat) -> (
    nat,
    nat,
    bool,
)
    decreases src.len() - i,
{
    if depth == 0 {
        (i, line, false)
    } else if i >= src.len() {
        (i, line, true)
    } else if src[i as int] == '*' && peek_at(src, i + 1) == '/' {
        block_comment_end(src, i + 2, line, (depth - 1) as nat)
    } else if src[i as int] == '/' && peek_at(src, i + 1) == '*' {
        block_comment_end(src, i + 2, line, depth + 1)
    } else if src[i as int] == '\n' {
        block_comment_end(src, i + 1, line + 1, depth)
    } else {
        block_comment_end(src, i + 1, line, depth)
    }
}

/// The fixed keyword table; any other identifier text is an `Identifier`.
pub open spec fn keyword_or_identifier(text: Seq<char>) -> TokenType {
    if text == "and"@ {
        TokenType::And
    } else if text == "class"@ {
        TokenType::Class
    } else if text == "else"@ {
        TokenType::Else
    } else if text == "false"@ {
        TokenType::False
    } else if text == "for"@ {
        TokenType::For
    } else if text == "fun"@ {
        TokenType::Fun
    } else if text == "if"@ {
        TokenType::If
    } else if text == "nil"@ {
        TokenType::Nil
    } else if text == "or"@ {
        TokenType::Or
    } else if text == "print"@ {
        TokenType::Print
    } else if text == "return"@ {
        TokenType::Return
    } else if text == "super"@ {
        TokenType::Super
    } else if text == "this"@ {
        TokenType::This
    } else if text == "true"@ {
        TokenType::True
    } else if text == "var"@ {
        TokenType::Var
    } else if text == "while"@ {
        TokenType::While
    } else {
        TokenType::Identifier
    }
}

/// The kinds of scan-time error.
#[derive(Clone, Copy, Debug, PartialEq, Eq, Structural)]
pub enum LexErrorKind {
    UnexpectedCharacter,
    UnterminatedString,
    UnterminatedBlockComment,
}

/// Mathematical model of a scan-time error: where it was noticed and why.
pub struct LexErrorModel {
    pub line: nat,
    pub kind: LexErrorKind,
}

pub open spec fn lex_error_message(k: LexErrorKind) -> Seq<char> {
    match k {
        LexErrorKind::UnexpectedCharacter => "Unexpected Character"@,
        LexErrorKind::UnterminatedString => "Unterminated string."@,
        LexErrorKind::UnterminatedBlockComment => "Unterminated block comment."@,
    }
}

/// The diagnostic line a scan-time error produces.
pub open spec fn lex_error_diagnostic(e: LexErrorModel) -> Seq<char> {
    spec_report_line(e.line as u32, ""@, lex_error_message(e.kind))
}

/// What one scan step from position `i` (the start of a fresh lexeme)
/// yields: the next position, the line counter, at most one token, and at
/// most one error.
pub struct ScanStep {
    pub next: nat,
    pub line: nat,
    pub token: Option<TokenModel>,
    pub error: Option<LexErrorModel>,
}

/// A token carrying no literal payload.
pub open spec fn plain_token(src: Seq<char>, t: TokenType, start: nat, end: nat, line: nat)
    -> TokenModel {
    TokenModel {
        token_type: t,
        lexeme: src.subrange(start as int, end as int),
        literal: ValModel::VNil,
        line: line as u32,
    }
}

pub open spec fn step_token(src: Seq<char>, i: nat, line: nat, t: TokenType, end: nat) -> ScanStep {
    ScanStep { next: end, line, token: Some(plain_token(src, t, i, end, line)), error: None }
}

pub open spec fn step_skip(next: nat, line: nat) -> ScanStep {
    ScanStep { next, line, token: None, error: None }
}

/// A one- or two-character operator under maximal munch: the one-character
/// kind, re-examined for a following `=`.
pub open spec fn step_operator(
    src: Seq<char>,
    i: nat,
    line: nat,
    single: TokenType,
    with_eq: TokenType,
) -> ScanStep {
    if peek_at(src, i + 1) == '=' && i + 1 < src.len() {
        step_token(src, i, line, with_eq, i + 2)
    } else {
        step_token(src, i, line, single, i + 1)
    }
}

/// A numeric literal: digits, then one optional decimal point followed by at
/// least one digit. Its value is the exact decimal the digits denote; a
/// value beyond the number representation becomes the not-a-number marker.
pub open spec fn step_number(src: Seq<char>, i: nat, line: nat) -> ScanStep {
    let int_end = digits_end(src, i + 1);
    let has_frac = peek_at(src, int_end) == '.' && is_digit_char(peek_at(src, int_end + 1));
    let end = if has_frac {
        digits_end(src, int_end + 2)
    } else {
        int_end
    };
    let ip = src.subrange(i as int, int_end as int);
    let fp = if has_frac {
        src.subrange(int_end as int + 1, end as int)
    } else {
        Seq::empty()
    };
    let literal = match mantissa_of_digits(ip, fp) {
        Some(m) => ValModel::VNum(m),
        None => ValModel::VNaN,
    };
    ScanStep {
        next: end,
        line,
        token: Some(
            TokenModel {
                token_type: TokenType::Number,
                lexeme: src.subrange(i as int, end as int),
                literal,
                line: line as u32,
            },
        ),
        error: None,
    }
}

/// An identifier or keyword.
pub open spec fn step_identifier(src: Seq<char>, i: nat, line: nat) -> ScanStep {
    let end = ident_end(src, i + 1);
    let text = src.subrange(i as int, end as int);
    step_token(src, i, line, keyword_or_identifier(text), end)
}

/// A string literal: the text strictly between the quotes, with newlines
/// counted; input ending before the closing quote is an error and the
/// scanner stands at the end.
pub open spec fn step_string(src: Seq<char>, i: nat, line: nat) -> ScanStep {
    let (close, line2) = string_end(src, i + 1, line);
    if close >= src.len() {
        ScanStep {
            next: src.len(),
            line: line2,
            token: None,
            error: Some(LexErrorModel { line: line2, kind: LexErrorKind::UnterminatedString }),
        }
    } else {
        ScanStep {
            next: close + 1,
            line: line2,
            token: Some(
                TokenModel {
                    token_type: TokenType::String,
                    lexeme: src.subrange(i as int, close as int + 1),
                    literal: ValModel::VStr(src.subrange(i as int + 1, close as int)),
                    line: line2 as u32,
                },
            ),
            error: None,
        }
    }
}

/// One scan step from `i`, the start of a fresh lexeme; `i` is inside the
/// source.
pub open spec fn spec_scan_step(src: Seq<char>, i: nat, line: nat) -> ScanStep
    recommends
        i < src.len(),
{
    let c = src[i as int];
    if c == '(' {
        step_token(src, i, line, TokenType::LeftParen, i + 1)
    } else if c == ')' {
        step_token(src, i, line, TokenType::RightParen, i + 1)
    } else if c == '{' {
        step_token(src, i, line, TokenType::LeftBrace, i + 1)
    } else if c == '}' {
        step_token(src, i, line, TokenType::RightBrace, i + 1)
    } else if c == ',' {
        step_token(src, i, line, TokenType::Comma, i + 1)
    } else if c == '.' {
        step_token(src, i, line, TokenType::Dot, i + 1)
    } else if c == '-' {
        step_token(src, i, line, TokenType::Minus, i + 1)
    } else if c == '+' {
        step_token(src, i, line, TokenType::Plus, i + 1)
    } else if c == ';' {
        step_token(src, i, line, TokenType::Semicolon, i + 1)
    } else if c == '*' {
        step_token(src, i, line, TokenType::Star, i + 1)
    } else if c == '!' {
        step_operator(src, i, line, TokenType::Bang, TokenType::BangEqual)
    } else if c == '=' {
        step_operator(src, i, line, TokenType::Equal, TokenType::EqualEqual)
    } else if c == '<' {
        step_operator(src, i, line, TokenType::Less, TokenType::LessEqual)
    } else if c == '>' {
        step_operator(src, i, line, TokenType::Greater, TokenType::GreaterEqual)
    } else if c == '/' {
        if peek_at(src, i + 1) == '/' && i + 1 < src.len() {
            step_skip(line_comment_end(src, i + 2), line)
        } else if peek_at(src, i + 1) == '*' && i + 1 < src.len() {
            let (end, line2, unterminated) = block_comment_end(src, i + 2, line, 1);
            ScanStep {
                next: end,
                line: line2,
                token: None,
                error: if unterminated {
                    Some(
                        LexErrorModel {
                            line: line2,
                            kind: LexErrorKind::UnterminatedBlockComment,
                        },
                    )
                } else {
                    None
                },
            }
        } else {
            step_token(src, i, line, TokenType::Slash, i + 1)
        }
    } else if c == ' ' || c == '\t' || c == '\r' {
        step_skip(i + 1, line)
    } else if c == '\n' {
        step_skip(i + 1, line + 1)
    } else if c == '"' {
        step_string(src, i, line)
    } else if is_digit_char(c) {
        step_number(src, i, line)
    } else if is_alpha_char(c) {
        step_identifier(src, i, line)
    } else {
        ScanStep {
            next: i + 1,
            line,
            token: None,
            error: Some(LexErrorModel { line, kind: LexErrorKind::UnexpectedCharacter }),
        }
    }
}

/// The end-of-input token: empty lexeme, the final line number.
pub open spec fn eof_token(line: nat) -> TokenModel {
    TokenModel {
        token_type: TokenType::EOF,
        lexeme: Seq::empty(),
        literal: ValModel::VNil,
        line: line as u32,
    }
}

/// What a whole scan yields.
pub struct ScanResult {
    pub tokens: Seq<TokenModel>,
    pub errors: Seq<LexErrorModel>,
    pub line: nat,
}

/// Every scan step moves the cursor forward and never past the end.
pub proof fn lemma_scan_step_advances(src: Seq<char>, i: nat, line: nat)
    requires
        i < src.len(),
    ensures
        i < spec_scan_step(src, i, line).next <= src.len(),
{
    lemma_digits_end_bounds(src, i + 1);
    lemma_ident_end_bounds(src, i + 1);
    lemma_line_comment_end_bounds(src, i + 2);
    lemma_string_end_bounds(src, i + 1, line);
    lemma_block_comment_end_bounds(src, i + 2, line, 1);
    let c = src[i as int];
    if is_digit_char(c) {
        let int_end = digits_end(src, i + 1);
        if peek_at(src, int_end) == '.' && is_digit_char(peek_at(src, int_end + 1)) {
            lemma_digits_end_bounds(src, int_end + 2);
        }
    }
}

pub proof fn lemma_digits_end_bounds(src: Seq<char>, i: nat)
    ensures
        i <= digits_end(src, i),
        i <= src.len() ==> digits_end(src, i) <= src.len(),
    decreases src.len() - i,
{
    if i < src.len() && is_digit_char(src[i as int]) {
        lemma_digits_end_bounds(src, i + 1);
    }
}

pub proof fn lemma_ident_end_bounds(src: Seq<char>, i: nat)
    ensures
        i <= ident_end(src, i),
        i <= src.len() ==> ident_end(src, i) <= src.len(),
    decreases src.len() - i,
{
    if i < src.len() && is_alnum_char(src[i as int]) {
        lemma_ident_end_bounds(src, i + 1);
    }
}

pub proof fn lemma_line_comment_end_bounds(src: Seq<char>, i: nat)
    ensures
        i <= line_comment_end(src, i),
        i <= src.len() ==> line_comment_end(src, i) <= src.len(),
    decreases src.len() - i,
{
    if i < src.len() && src[i as int] != '\n' {
        lemma_line_comment_end_bounds(src, i + 1);
    }
}

pub proof fn lemma_string_end_bounds(src: Seq<char>, i: nat, line: nat)
    ensures
        i <= string_end(src, i, line).0,
        i <= src.len() ==> string_end(src, i, line).0 <= src.len(),
        line <= string_end(src, i, line).1 <= line + string_end(src, i, line).0 - i,
    decreases src.len() - i,
{
    if i < src.len() && src[i as int] != '"' {
        if src[i as int] == '\n' {
            lemma_string_end_bounds(src, i + 1, line + 1);
        } else {
            lemma_string_end_bounds(src, i + 1, line);
        }
    }
}

pub proof fn lemma_block_comment_end_bounds(src: Seq<char>, i: nat, line: nat, depth: nat)
    ensures
        i <= block_comment_end(src, i, line, depth).0,
        i <= src.len() ==> block_comment_end(src, i, line, depth).0 <= src.len(),
        line <= block_comment_end(src, i, line, depth).1 <= line + block_comment_end(
            src,
            i,
            line,
            depth,
        ).0 - i,
    decreases src.len() - i,
{
    if depth != 0 && i < src.len() {
        if src[i as int] == '*' && peek_at(src, i + 1) == '/' {
            lemma_block_comment_end_bounds(src, i + 2, line, (depth - 1) as nat);
        } else if src[i as int] == '/' && peek_at(src, i + 1) == '*' {
            lemma_block_comment_end_bounds(src, i + 2, line, depth + 1);
        } else if src[i as int] == '\n' {
            lemma_block_comment_end_bounds(src, i + 1, line + 1, depth);
        } else {
            lemma_block_comment_end_bounds(src, i + 1, line, depth);
        }
    }
}

/// The line counter never runs ahead of the cursor by more than the one it
/// started with.
pub proof fn lemma_scan_step_line(src: Seq<char>, i: nat, line: nat)
    requires
        i < src.len(),
        line <= i + 1,
    ensures
        spec_scan_step(src, i, line).line <= spec_scan_step(src, i, line).next + 1,
        line <= spec_scan_step(src, i, line).line,
{
    lemma_scan_step_advances(src, i, line);
    lemma_string_end_bounds(src, i + 1, line);
    lemma_block_comment_end_bounds(src, i + 2, line, 1);
}

/// Scanning from position `i` with the tokens and errors gathered so far:
/// steps to the end of input, then appends the single end-of-input token.
pub open spec fn spec_scan(
    src: Seq<char>,
    i: nat,
    line: nat,
    tokens: Seq<TokenModel>,
    errors: Seq<LexErrorModel>,
) -> ScanResult
    decreases src.len() - i,
    via spec_scan_decreases
{
    if i >= src.len() {
        ScanResult { tokens: tokens.push(eof_token(line)), errors, line }
    } else {
        let st = spec_scan_step(src, i, line);
        spec_scan(
            src,
            st.next,
            st.line,
            match st.token {
                Some(t) => tokens.push(t),
                None => tokens,
            },
            match st.error {
                Some(e) => errors.push(e),
                None => errors,
            },
        )
    }
}

#[via_fn]
proof fn spec_scan_decreases(
    src: Seq<char>,
    i: nat,
    line: nat,
    tokens: Seq<TokenModel>,
    errors: Seq<LexErrorModel>,
) {
    if i < src.len() {
        lemma_scan_step_advances(src, i, line);
    }
}

/// The operator token kinds with a fixed lexeme: every single-character and
/// fixed multi-character operator.
pub open spec fn is_operator_kind(t: TokenType) -> bool {
    ||| t == TokenType::LeftParen
    ||| t == TokenType::RightParen
    ||| t == TokenType::LeftBrace
    ||| t == TokenType::RightBrace
    ||| t == TokenType::Comma
    ||| t == TokenType::Dot
    ||| t == TokenType::Minus
    ||| t == TokenType::Plus
    ||| t == TokenType::Semicolon
    ||| t == TokenType::Slash
    ||| t == TokenType::Star
    ||| t == TokenType::Bang
    ||| t == TokenType::BangEqual
    ||| t == TokenType::Equal
    ||| t == TokenType::EqualEqual
    ||| t == TokenType::Greater
    ||| t == TokenType::GreaterEqual
    ||| t == TokenType::Less
    ||| t == TokenType::LessEqual
}

/// The fixed lexeme of an operator token kind.
pub open spec fn operator_lexeme(t: TokenType) -> Seq<char> {
    if t == TokenType::LeftParen {
        "("@
    } else if t == TokenType::RightParen {
        ")"@
    } else if t == TokenType::LeftBrace {
        "{"@
    } else if t == TokenType::RightBrace {
        "}"@
    } else if t == TokenType::Comma {
        ","@
    } else if t == TokenType::Dot {
        "."@
    } else if t == TokenType::Minus {
        "-"@
    } else if t == TokenType::Plus {
        "+"@
    } else if t == TokenType::Semicolon {
        ";"@
    } else if t == TokenType::Slash {
        "/"@
    } else if t == TokenType::Star {
        "*"@
    } else if t == TokenType::Bang {
        "!"@
    } else if t == TokenType::BangEqual {
        "!="@
    } else if t == TokenType::Equal {
        "="@
    } else if t == TokenType::EqualEqual {
        "=="@
    } else if t == TokenType::Greater {
        ">"@
    } else if t == TokenType::GreaterEqual {
        ">="@
    } else if t == TokenType::Less {
        "<"@
    } else {
        "<="@
    }
}

/// Law: scanning the output lexeme of any single-character or fixed
/// multi-character operator token yields exactly one token of the same kind
/// again, carrying that same lexeme, with no error.
pub proof fn lemma_operator_lexeme_round_trip(t: TokenType)
    requires
        is_operator_kind(t),
    ensures
        ({
            let res = spec_scan(operator_lexeme(t), 0, 1, Seq::empty(), Seq::empty());
            &&& res.tokens.len() == 2
            &&& res.tokens[0].token_type == t
            &&& res.tokens[0].lexeme == operator_lexeme(t)
            &&& res.tokens[1].token_type == TokenType::EOF
            &&& res.errors.len() == 0
        }),
{
    reveal_strlit("(");
    reveal_strlit(")");
    reveal_strlit("{");
    reveal_strlit("}");
    reveal_strlit(",");
    reveal_strlit(".");
    reveal_strlit("-");
    reveal_strlit("+");
    reveal_strlit(";");
    reveal_strlit("/");
    reveal_strlit("*");
    reveal_strlit("!");
    reveal_strlit("!=");
    reveal_strlit("=");
    reveal_strlit("==");
    reveal_strlit(">");
    reveal_strlit(">=");
    reveal_strlit("<");
    reveal_strlit("<=");
    reveal_with_fuel(spec_scan, 3);
    let src = operator_lexeme(t);
    assert(src.subrange(0, src.len() as int) =~= src);
    let st = spec_scan_step(src, 0, 1);
    lemma_scan_step_advances(src, 0, 1);
    assert(st.token is Some && st.error is None && st.next == src.len()
        && st.token->0.token_type == t && st.token->0.lexeme == src);
    let res = spec_scan(src, 0, 1, Seq::empty(), Seq::empty());
    assert(res.tokens =~= Seq::empty().push(st.token->0).push(eof_token(st.line)));
}

/// The models of a vector of tokens.
pub open spec fn tokens_model(v: Seq<Token>) -> Seq<TokenModel> {
    Seq::new(v.len(), |i: int| v[i]@)
}

/// A scan always ends with exactly one end-of-input token: the token list
/// grows, its last token is `EOF`, and no token before the last is `EOF`.
pub proof fn lemma_scan_shape(
    src: Seq<char>,
    i: nat,
    line: nat,
    tokens: Seq<TokenModel>,
    errors: Seq<LexErrorModel>,
)
    requires
        forall|j: int| 0 <= j < tokens.len() ==> (#[trigger] tokens[j]).token_type != TokenType::EOF,
    ensures
        ({
            let res = spec_scan(src, i, line, tokens, errors);
            &&& res.tokens.len() > tokens.len()
            &&& res.tokens.last().token_type == TokenType::EOF
            &&& forall|j: int|
                0 <= j < res.tokens.len() - 1 ==> (#[trigger] res.tokens[j]).token_type
                    != TokenType::EOF
        }),
    decreases src.len() - i,
{
    if i >= src.len() {
    } else {
        lemma_scan_step_advances(src, i, line);
        let st = spec_scan_step(src, i, line);
        let tokens2 = match st.token {
            Some(t) => tokens.push(t),
            None => tokens,
        };
        assert forall|j: int| 0 <= j < tokens2.len() implies (#[trigger] tokens2[j]).token_type
            != TokenType::EOF by {
            if j < tokens.len() {
                assert(tokens2[j] == tokens[j]);
            }
        }
        lemma_scan_shape(
            src,
            st.next,
            st.line,
            tokens2,
            match st.error {
                Some(e) => errors.push(e),
                None => errors,
            },
        );
    }
}

/// Mathematical model of the scanner's cursor state.
pub struct ScannerModel {
    pub source: Seq<char>,
    pub tokens: Seq<TokenModel>,
    pub start: nat,
    pub current: nat,
    pub line: nat,
}

/// A scanner mid-flight never stands past the end, its lexeme mark never
/// stands past the cursor, and its 1-based line counter cannot exceed the
/// characters passed; the source is held short enough that the counter fits
/// its 32 bits.
pub open spec fn scanner_wf(m: ScannerModel) -> bool {
    &&& m.source.len() < 0xFFFF_FFFF
    &&& m.start <= m.current <= m.source.len()
    &&& 1 <= m.line <= m.current + 1
}

/// The scanner: one forward cursor over the source, a mark at the start of
/// the current lexeme, and the tokens produced so far.
pub struct Scanner {
    source: String,
    tokens: Vec<Token>,
    start: usize,
    current: usize,
    line: u32,
}

impl View for Scanner {
    type V = ScannerModel;

    closed spec fn view(&self) -> ScannerModel {
        ScannerModel {
            source: self.source@,
            tokens: tokens_model(self.tokens@),
            start: self.start as nat,
            current: self.current as nat,
            line: self.line as nat,
        }
    }
}

impl Scanner {
    pub open spec fn wf(&self) -> bool {
        scanner_wf(self@)
    }

    /// A scanner at the start of `source`, line 1, no tokens yet.
    pub fn new(source: String) -> (r: Self)
        requires
            source@.len() < 0xFFFF_FFFF,
        ensures
            r@ == (ScannerModel {
                source: source@,
                tokens: Seq::<TokenModel>::empty(),
                start: 0,
                current: 0,
                line: 1,
            }),
            r.wf(),
    {
        let r = Scanner { source, tokens: Vec::new(), start: 0, current: 0, line: 1 };
        proof {
            assert(tokens_model(r.tokens@) =~= Seq::<TokenModel>::empty());
        }
        r
    }

    fn is_at_end(&self) -> (r: bool)
        requires
            self.wf(),
        ensures
            r == (self@.current >= self@.source.len()),
    {
        self.current >= self.source.as_str().unicode_len()
    }

    fn char_at(&self, i: usize) -> (c: char)
        requires
            self.wf(),
            i < self@.source.len(),
        ensures
            c == self@.source[i as int],
    {
        self.source.as_str().get_char(i)
    }

    fn peek(&self) -> (c: char)
        requires
            self.wf(),
        ensures
            c == peek_at(self@.source, self@.current),
    {
        if self.is_at_end() {
            return  '\0';
        }
        self.char_at(self.current)
    }

    fn peek_next(&self) -> (c: char)
        requires
            self.wf(),
        ensures
            c == peek_at(self@.source, self@.current + 1),
    {
        if self.current + 1 >= self.source.as_str().unicode_len() {
            return  '\0';
        }
        self.char_at(self.current + 1)
    }

    /// Consumes the next character if it is `expected`.
    fn match_char(&mut self, expected: char) -> (r: bool)
        requires
            old(self).wf(),
        ensures
            final(self).wf(),
            r == (old(self)@.current < old(self)@.source.len() && old(self)@.source[old(
                self,
            )@.current as int] == expected),
            r ==> final(self)@ == (ScannerModel { current: old(self)@.current + 1, ..old(self)@ }),
            !r ==> final(self)@ == old(self)@ && final(self).wf(),
    {
        if self.is_at_end() {
            return false;
        }
        if self.char_at(self.current) != expected {
            return false;
        }
        self.current = self.current + 1;
        true
    }

    /// Scans a string literal's body; the opening quote is already consumed.
    /// Input ending before the closing quote is reported and leaves the
    /// cursor at the end, producing no token.
    #[verifier::loop_isolation(false)]
    fn string(&mut self, lox: &mut Lox)
        requires
            old(self).wf(),
            old(self)@.start + 1 == old(self)@.current,
            old(self)@.source[old(self)@.start as int] == '"',
        ensures
            final(self).wf(),
            ({
                let st = step_string(old(self)@.source, old(self)@.start, old(self)@.line);
                &&& final(self)@ == (ScannerModel {
                    current: st.next,
                    line: st.line,
                    tokens: tokens_after(old(self)@.tokens, st.token),
                    ..old(self)@
                })
                &&& final(lox)@ == lox_after_error(old(lox)@, st.error)
            }),
    {
        let ghost src = self@.source;
        let ghost c0 = self@.current;
        let ghost l0 = self@.line;
        while self.peek() != '"' && !self.is_at_end()
            invariant
                self.wf(),
                self@.source == src,
                self@.start == old(self)@.start,
                self@.tokens == old(self)@.tokens,
                c0 <= self@.current,
                string_end(src, c0, l0) == string_end(src, self@.current, self@.line),
                lox == old(lox),
            decreases src.len() - self@.current,
        {
            if self.peek() == '\n' {
                self.line = self.line + 1;
            }
            self.current = self.current + 1;
        }
        if self.is_at_end() {
            lox.error(self.line, "Unterminated string.");
            proof {
                reveal_strlit("Unterminated string.");
            }
            return ;
        }
        self.current = self.current + 1;
        let content = self.source.as_str().substring_char(
            self.start + 1,
            self.current - 1,
        ).to_owned();
        self.add_token(TokenType::String, LiteralVal::Str(content));
    }

    /// Scans a numeric literal; its first digit is already consumed. The
    /// token's value is the exact decimal the digits denote, or the
    /// not-a-number marker when it does not fit the number representation.
    #[verifier::loop_isolation(false)]
    fn number(&mut self)
        requires
            old(self).wf(),
            old(self)@.start + 1 == old(self)@.current,
            is_digit_char(old(self)@.source[old(self)@.start as int]),
        ensures
            final(self).wf(),
            ({
                let st = step_number(old(self)@.source, old(self)@.start, old(self)@.line);
                final(self)@ == (ScannerModel {
                    current: st.next,
                    tokens: tokens_after(old(self)@.tokens, st.token),
                    ..old(self)@
                })
            }),
    {
        let ghost src = self@.source;
        let ghost c0 = self@.current;
        while is_digit(self.peek())
            invariant
                self.wf(),
                self@.source == src,
                self@.start == old(self)@.start,
                self@.line == old(self)@.line,
                self@.tokens == old(self)@.tokens,
                c0 <= self@.current,
                digits_end(src, c0) == digits_end(src, self@.current),
                forall|j: int| c0 <= j < self@.current ==> is_digit_char(#[trigger] src[j]),
            decreases src.len() - self@.current,
        {
            self.current = self.current + 1;
        }
        let int_end = self.current;
        let ghost has_frac = peek_at(src, int_end as nat) == '.' && is_digit_char(
            peek_at(src, int_end as nat + 1),
        );
        if self.peek() == '.' && is_digit(self.peek_next()) {
            self.current = self.current + 1;
            let ghost c1 = self@.current;
            while is_digit(self.peek())
                invariant
                    self.wf(),
                    self@.source == src,
                    self@.start == old(self)@.start,
                    self@.line == old(self)@.line,
                    self@.tokens == old(self)@.tokens,
                    c1 <= self@.current,
                    digits_end(src, c1) == digits_end(src, self@.current),
                    forall|j: int| c1 <= j < self@.current ==> is_digit_char(#[trigger] src[j]),
                decreases src.len() - self@.current,
            {
                self.current = self.current + 1;
            }
            proof {
                assert(digits_end(src, c1) == self@.current);
                assert(digits_end(src, int_end as nat + 2) == digits_end(src, c1));
            }
        }
        let ip = self.source.as_str().substring_char(self.start, int_end).to_owned();
        let fp = if self.current > int_end {
            self.source.as_str().substring_char(int_end + 1, self.current).to_owned()
        } else {
            String::new()
        };
        proof {
            let st = step_number(src, old(self)@.start, old(self)@.line);
            assert(ip@ == src.subrange(old(self)@.start as int, int_end as int));
            assert(crate::numeric::all_digits(ip@)) by {
                assert(forall|j: int|
                    0 <= j < ip@.len() ==> ip@[j] == src[old(self)@.start as int + j]);
            };
            if self@.current > int_end as nat {
                assert(crate::numeric::all_digits(fp@)) by {
                    assert(forall|j: int|
                        0 <= j < fp@.len() ==> fp@[j] == src[int_end as int + 1 + j]);
                };
            } else {
                assert(fp@ =~= Seq::<char>::empty());
            }
        }
        let literal = match crate::numeric::mantissa_from_parts(ip.as_str(), fp.as_str()) {
            Some(m) => LiteralVal::Number(m),
            None => LiteralVal::NaN,
        };
        self.add_token(TokenType::Number, literal);
    }

    /// Scans an identifier; its first character is already consumed. The
    /// text is checked against the keyword table.
    #[verifier::loop_isolation(false)]
    fn identifier(&mut self)
        requires
            old(self).wf(),
            old(self)@.start + 1 == old(self)@.current,
        ensures
            final(self).wf(),
            ({
                let st = step_identifier(old(self)@.source, old(self)@.start, old(self)@.line);
                final(self)@ == (ScannerModel {
                    current: st.next,
                    tokens: tokens_after(old(self)@.tokens, st.token),
                    ..old(self)@
                })
            }),
    {
        let ghost src = self@.source;
        let ghost c0 = self@.current;
        while is_alpha_numeric(self.peek())
            invariant
                self.wf(),
                self@.source == src,
                self@.start == old(self)@.start,
                self@.line == old(self)@.line,
                self@.tokens == old(self)@.tokens,
                c0 <= self@.current,
                ident_end(src, c0) == ident_end(src, self@.current),
            decreases src.len() - self@.current,
        {
            self.current = self.current + 1;
        }
        let text = self.source.as_str().substring_char(self.start, self.current).to_owned();
        let token_type = keyword_lookup(&text);
        self.add_token(token_type, LiteralVal::Nil);
    }

    /// Skips a block comment; the opening `/*` is already consumed. Block
    /// comments nest; input ending inside one is reported.
    #[verifier::loop_isolation(false)]
    fn block_comment(&mut self, lox: &mut Lox)
        requires
            old(self).wf(),
            old(self)@.current >= 2,
        ensures
            final(self).wf(),
            ({
                let (end, line2, unterminated) = block_comment_end(
                    old(self)@.source,
                    old(self)@.current,
                    old(self)@.line,
                    1,
                );
                &&& final(self)@ == (ScannerModel { current: end, line: line2, ..old(self)@ })
                &&& final(lox)@ == lox_after_error(
                    old(lox)@,
                    if unterminated {
                        Some(LexErrorModel { line: line2, kind: LexErrorKind::UnterminatedBlockComment })
                    } else {
                        None
                    },
                )
            }),
    {
        let ghost src = self@.source;
        let ghost c0 = self@.current;
        let ghost l0 = self@.line;
        let mut depth: usize = 1;
        while depth > 0
            invariant
                self.wf(),
                self@.source == src,
                self@.start == old(self)@.start,
                self@.tokens == old(self)@.tokens,
                depth <= self@.current,
                block_comment_end(src, c0, l0, 1) == block_comment_end(
                    src,
                    self@.current,
                    self@.line,
                    depth as nat,
                ),
                lox == old(lox),
            decreases src.len() - self@.current,
        {
            if self.is_at_end() {
                proof {
                    reveal_strlit("Unterminated block comment.");
                }
                lox.error(self.line, "Unterminated block comment.");
                return ;
            }
            if self.peek() == '*' && self.peek_next() == '/' {
                depth = depth - 1;
                self.current = self.current + 1;
            } else if self.peek() == '/' && self.peek_next() == '*' {
                depth = depth + 1;
                self.current = self.current + 1;
            } else if self.peek() == '\n' {
                self.line = self.line + 1;
            }
            self.current = self.current + 1;
        }
    }

    /// Emits a token for the current lexeme, carrying `literal`.
    fn add_token(&mut self, token_type: TokenType, literal: LiteralVal)
        requires
            old(self).wf(),
        ensures
            final(self)@ == (ScannerModel {
                tokens: old(self)@.tokens.push(
                    TokenModel {
                        token_type,
                        lexeme: old(self)@.source.subrange(
                            old(self)@.start as int,
                            old(self)@.current as int,
                        ),
                        literal: literal@,
                        line: old(self)@.line as u32,
                    },
                ),
                ..old(self)@
            }),
            final(self).wf(),
    {
        let text = self.source.as_str().substring_char(self.start, self.current).to_owned();
        let ghost literal_model = literal@;
        self.tokens.push(Token { token_type, lexeme: text, literal, line: self.line });
        proof {
            assert(tokens_model(self.tokens@) =~= tokens_model(old(self).tokens@).push(
                TokenModel {
                    token_type,
                    lexeme: old(self)@.source.subrange(
                        old(self)@.start as int,
                        old(self)@.current as int,
                    ),
                    literal: literal_model,
                    line: old(self)@.line as u32,
                },
            ));
        }
    }

    /// Scans the one token (or comment, or whitespace) starting at the
    /// cursor, which also marks the start of the lexeme.
    #[verifier::loop_isolation(false)]
    fn scan_token(&mut self, lox: &mut Lox)
        requires
            old(self).wf(),
            old(self)@.current < old(self)@.source.len(),
            old(self)@.start == old(self)@.current,
        ensures
            final(self).wf(),
            ({
                let st = spec_scan_step(old(self)@.source, old(self)@.current, old(self)@.line);
                &&& final(self)@ == (ScannerModel {
                    current: st.next,
                    line: st.line,
                    tokens: tokens_after(old(self)@.tokens, st.token),
                    ..old(self)@
                })
                &&& final(lox)@ == lox_after_error(old(lox)@, st.error)
            }),
    {
        let c = self.char_at(self.current);
        self.current = self.current + 1;
        if c == '(' {
            self.add_token(TokenType::LeftParen, LiteralVal::Nil);
        } else if c == ')' {
            self.add_token(TokenType::RightParen, LiteralVal::Nil);
        } else if c == '{' {
            self.add_token(TokenType::LeftBrace, LiteralVal::Nil);
        } else if c == '}' {
            self.add_token(TokenType::RightBrace, LiteralVal::Nil);
        } else if c == ',' {
            self.add_token(TokenType::Comma, LiteralVal::Nil);
        } else if c == '.' {
            self.add_token(TokenType::Dot, LiteralVal::Nil);
        } else if c == '-' {
            self.add_token(TokenType::Minus, LiteralVal::Nil);
        } else if c == '+' {
            self.add_token(TokenType::Plus, LiteralVal::Nil);
        } else if c == ';' {
            self.add_token(TokenType::Semicolon, LiteralVal::Nil);
        } else if c == '*' {
            self.add_token(TokenType::Star, LiteralVal::Nil);
        } else if c == '!' {
            let token = if self.match_char('=') {
                TokenType::BangEqual
            } else {
                TokenType::Bang
            };
            self.add_token(token, LiteralVal::Nil);
        } else if c == '=' {
            let token = if self.match_char('=') {
                TokenType::EqualEqual
            } else {
                TokenType::Equal
            };
            self.add_token(token, LiteralVal::Nil);
        } else if c == '<' {
            let token = if self.match_char('=') {
                TokenType::LessEqual
            } else {
                TokenType::Less
            };
            self.add_token(token, LiteralVal::Nil);
        } else if c == '>' {
            let token = if self.match_char('=') {
                TokenType::GreaterEqual
            } else {
                TokenType::Greater
            };
            self.add_token(token, LiteralVal::Nil);
        } else if c == '/' {
            if self.match_char('/') {
                let ghost src = self@.source;
                let ghost c0 = self@.current;
                while self.peek() != '\n' && !self.is_at_end()
                    invariant
                        self.wf(),
                        self@.source == src,
                        self@.start == old(self)@.start,
                        self@.line == old(self)@.line,
                        self@.tokens == old(self)@.tokens,
                        line_comment_end(src, c0) == line_comment_end(src, self@.current),
                    decreases src.len() - self@.current,
                {
                    self.current = self.current + 1;
                }
            } else if self.match_char('*') {
                self.block_comment(lox);
            } else {
                self.add_token(TokenType::Slash, LiteralVal::Nil);
            }
        } else if c == ' ' || c == '\t' || c == '\r' {
        } else if c == '\n' {
            self.line = self.line + 1;
        } else if c == '"' {
            self.string(lox);
        } else if is_digit(c) {
            self.number();
        } else if is_alpha(c) {
            self.identifier();
        } else {
            proof {
                reveal_strlit("Unexpected Character");
            }
            lox.error(self.line, "Unexpected Character");
        }
    }

    /// Scans the whole source: the token sequence `spec_scan` lays down,
    /// always terminated by a single end-of-input token carrying the final
    /// line number; every scan error is reported through the diagnostics
    /// stream, and scanning still reaches the end of input.
    #[verifier::loop_isolation(false)]
    pub fn scan_tokens(&mut self, lox: &mut Lox) -> (r: Vec<Token>)
        requires
            old(self).wf(),
        ensures
            final(self).wf(),
            ({
                let res = spec_scan(
                    old(self)@.source,
                    old(self)@.current,
                    old(self)@.line,
                    old(self)@.tokens,
                    Seq::empty(),
                );
                &&& tokens_model(r@) == res.tokens
                &&& final(self)@.tokens == res.tokens
                &&& final(self)@.source == old(self)@.source
                &&& final(lox)@.diagnostics == old(lox)@.diagnostics + res.errors.map_values(
                    |e: LexErrorModel| lex_error_diagnostic(e),
                )
                &&& final(lox)@.had_error == (old(lox)@.had_error || res.errors.len() > 0)
                &&& final(lox)@.had_runtime_error == old(lox)@.had_runtime_error
                &&& final(lox)@.output == old(lox)@.output
            }),
    {
        let ghost src = self@.source;
        let ghost c0 = self@.current;
        let ghost l0 = self@.line;
        let ghost toks0 = self@.tokens;
        let ghost mut errs: Seq<LexErrorModel> = Seq::empty();
        proof {
            assert(errs.map_values(|e: LexErrorModel| lex_error_diagnostic(e)) =~= Seq::<
                Seq<char>,
            >::empty());
            assert(old(lox)@.diagnostics + errs.map_values(
                |e: LexErrorModel| lex_error_diagnostic(e),
            ) =~= old(lox)@.diagnostics);
        }
        while !self.is_at_end()
            invariant
                self.wf(),
                self@.source == src,
                spec_scan(src, c0, l0, toks0, Seq::empty()) == spec_scan(
                    src,
                    self@.current,
                    self@.line,
                    self@.tokens,
                    errs,
                ),
                lox@.diagnostics == old(lox)@.diagnostics + errs.map_values(
                    |e: LexErrorModel| lex_error_diagnostic(e),
                ),
                lox@.had_error == (old(lox)@.had_error || errs.len() > 0),
                lox@.had_runtime_error == old(lox)@.had_runtime_error,
                lox@.output == old(lox)@.output,
            decreases src.len() - self@.current,
        {
            self.start = self.current;
            let ghost pre = self@;
            let ghost pre_errs = errs;
            proof {
                lemma_scan_step_advances(src, pre.current, pre.line);
                lemma_scan_step_line(src, pre.current, pre.line);
            }
            self.scan_token(lox);
            proof {
                let st = spec_scan_step(src, pre.current, pre.line);
                match st.error {
                    Some(e) => {
                        errs = pre_errs.push(e);
                        assert(pre_errs.push(e).map_values(
                            |e: LexErrorModel| lex_error_diagnostic(e),
                        ) =~= pre_errs.map_values(|e: LexErrorModel| lex_error_diagnostic(e)).push(
                            lex_error_diagnostic(e),
                        ));
                        assert(lox@.diagnostics =~= old(lox)@.diagnostics + errs.map_values(
                            |e: LexErrorModel| lex_error_diagnostic(e),
                        ));
                    },
                    None => {},
                }
            }
        }
        self.tokens.push(
            Token {
                token_type: TokenType::EOF,
                lexeme: String::new(),
                literal: LiteralVal::Nil,
                line: self.line,
            },
        );
        proof {
            assert(tokens_model(self.tokens@) =~= spec_scan(src, c0, l0, toks0, Seq::empty()).tokens);
        }
        clone_tokens(&self.tokens)
    }
}

/// What a step's optional token adds to the token list.
pub open spec fn tokens_after(tokens: Seq<TokenModel>, t: Option<TokenModel>) -> Seq<TokenModel> {
    match t {
        Some(tok) => tokens.push(tok),
        None => tokens,
    }
}

/// What a step's optional error adds to the host-facing state.
pub open spec fn lox_after_error(m: crate::LoxModel, e: Option<LexErrorModel>) -> crate::LoxModel {
    match e {
        Some(er) => crate::LoxModel {
            had_error: true,
            diagnostics: m.diagnostics.push(lex_error_diagnostic(er)),
            ..m
        },
        None => m,
    }
}

/// Checks identifier text against the keyword table.
fn keyword_lookup(text: &String) -> (t: TokenType)
    ensures
        t == keyword_or_identifier(text@),
{
    proof {
        reveal_strlit("and");
        reveal_strlit("class");
        reveal_strlit("else");
        reveal_strlit("false");
        reveal_strlit("for");
        reveal_strlit("fun");
        reveal_strlit("if");
        reveal_strlit("nil");
        reveal_strlit("or");
        reveal_strlit("print");
        reveal_strlit("return");
        reveal_strlit("super");
        reveal_strlit("this");
        reveal_strlit("true");
        reveal_strlit("var");
        reveal_strlit("while");
    }
    if *text == String::from_str("and") {
        TokenType::And
    } else if *text == String::from_str("class") {
        TokenType::Class
    } else if *text == String::from_str("else") {
        TokenType::Else
    } else if *text == String::from_str("false") {
        TokenType::False
    } else if *text == String::from_str("for") {
        TokenType::For
    } else if *text == String::from_str("fun") {
        TokenType::Fun
    } else if *text == String::from_str("if") {
        TokenType::If
    } else if *text == String::from_str("nil") {
        TokenType::Nil
    } else if *text == String::from_str("or") {
        TokenType::Or
    } else if *text == String::from_str("print") {
        TokenType::Print
    } else if *text == String::from_str("return") {
        TokenType::Return
    } else if *text == String::from_str("super") {
        TokenType::Super
    } else if *text == String::from_str("this") {
        TokenType::This
    } else if *text == String::from_str("true") {
        TokenType::True
    } else if *text == String::from_str("var") {
        TokenType::Var
    } else if *text == String::from_str("while") {
        TokenType::While
    } else {
        TokenType::Identifier
    }
}

/// A fresh vector holding the same tokens.
#[verifier::loop_isolation(false)]
fn clone_tokens(v: &Vec<Token>) -> (r: Vec<Token>)
    ensures
        tokens_model(r@) == tokens_model(v@),
{
    let mut r: Vec<Token> = Vec::new();
    let mut i: usize = 0;
    while i < v.len()
        invariant
            i <= v@.len(),
            r@.len() == i,
            forall|j: int| 0 <= j < i ==> (#[trigger] r@[j])@ == v@[j]@,
        decreases v@.len() - i,
    {
        r.push(v[i].clone());
        i = i + 1;
    }
    proof {
        assert(tokens_model(r@) =~= tokens_model(v@));
    }
    r
}

} // verus!
