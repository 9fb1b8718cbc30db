//! Tokens and literal values: the shared vocabulary of scanner, parser and
//! interpreter.
use vstd::prelude::*;

use crate::interpreter::{RuntimeError, RuntimeErrorKind, RuntimeErrorModel, TypeMismatchKind};
use crate::numeric::spec_render_mantissa;

verus! {

#[derive(Clone, Copy, Debug, PartialEq, Eq, Structural)]
pub enum TokenType {
    LeftParen,
    RightParen,
    LeftBrace,
    RightBrace,
    Comma,
    Dot,
    Minus,
    Plus,
    Semicolon,
    Slash,
    Star,
    Bang,
    BangEqual,
    Equal,
    EqualEqual,
    Greater,
    GreaterEqual,
    Less,
    LessEqual,
    Identifier,
    String,
    Number,
    And,
    Class,
    Else,
    False,
    Fun,
    For,
    If,
    Nil,
    Or,
    Print,
    Return,
    Super,
    This,
    True,
    Var,
    While,
    EOF,
}

/// Mathematical model of a literal value. A number is its exact decimal
/// mantissa in millionths (see `numeric`); a string is its characters.
pub enum ValModel {
    VNum(i64),
    VStr(Seq<char>),
    VBool(bool),
    VNil,
    VNaN,
    VUninit,
}

/// A value of the language: a number (an exact decimal, held as a mantissa
/// in millionths), a string, a boolean, nil, the explicit not-a-number
/// marker, or the sentinel for a declared-but-never-assigned variable.
#[derive(Debug)]
pub enum LiteralVal {
    Number(i64),
    Str(String),
    Boolean(bool),
    Nil,
    NaN,
    UnInit,
}

impl View for LiteralVal {
    type V = ValModel;

    open spec fn view(&self) -> ValModel {
        match self {
            LiteralVal::Number(n) => ValModel::VNum(*n),
            LiteralVal::Str(s) => ValModel::VStr(s@),
            LiteralVal::Boolean(b) => ValModel::VBool(*b),
            LiteralVal::Nil => ValModel::VNil,
            LiteralVal::NaN => ValModel::VNaN,
            LiteralVal::UnInit => ValModel::VUninit,
        }
    }
}

/// Structural equality of values: by tag, then by payload. The explicit
/// not-a-number marker equals itself, by design.
pub open spec fn val_eq(a: ValModel, b: ValModel) -> bool {
    match (a, b) {
        (ValModel::VNum(x), ValModel::VNum(y)) => x == y,
        (ValModel::VStr(x), ValModel::VStr(y)) => x == y,
        (ValModel::VBool(x), ValModel::VBool(y)) => x == y,
        (ValModel::VNil, ValModel::VNil) => true,
        (ValModel::VNaN, ValModel::VNaN) => true,
        (ValModel::VUninit, ValModel::VUninit) => true,
        _ => false,
    }
}

/// Law: value equality is reflexive and symmetric for every value tag, and
/// the explicit not-a-number marker equals itself — numbers are exact
/// decimals, so no value is unequal to itself.
pub proof fn lemma_val_eq_reflexive_symmetric(a: ValModel, b: ValModel)
    ensures
        val_eq(a, a),
        val_eq(a, b) == val_eq(b, a),
        val_eq(ValModel::VNaN, ValModel::VNaN),
{
}

impl Clone for LiteralVal {
    fn clone(&self) -> (r: Self)
        ensures
            r@ == self@,
    {
        match self {
            LiteralVal::Number(n) => LiteralVal::Number(*n),
            LiteralVal::Str(s) => LiteralVal::Str(s.clone()),
            LiteralVal::Boolean(b) => LiteralVal::Boolean(*b),
            LiteralVal::Nil => LiteralVal::Nil,
            LiteralVal::NaN => LiteralVal::NaN,
            LiteralVal::UnInit => LiteralVal::UnInit,
        }
    }
}

impl PartialEq for LiteralVal {
    fn eq(&self, other: &LiteralVal) -> (r: bool) {
        match (self, other) {
            (LiteralVal::Number(x), LiteralVal::Number(y)) => *x == *y,
            (LiteralVal::Str(x), LiteralVal::Str(y)) => *x == *y,
            (LiteralVal::Boolean(x), LiteralVal::Boolean(y)) => *x == *y,
            (LiteralVal::Nil, LiteralVal::Nil) => true,
            (LiteralVal::NaN, LiteralVal::NaN) => true,
            (LiteralVal::UnInit, LiteralVal::UnInit) => true,
            _ => false,
        }
    }
}

impl vstd::std_specs::cmp::PartialEqSpecImpl for LiteralVal {
    open spec fn obeys_eq_spec() -> bool {
        true
    }

    open spec fn eq_spec(&self, other: &LiteralVal) -> bool {
        val_eq(self@, other@)
    }
}

/// What `print` shows for a value, or the error for the one unprintable
/// value: a number renders as its exact decimal with no fractional part when
/// integral, a string as its characters, booleans and nil as their keywords,
/// the not-a-number marker as `Nan`, and the never-assigned sentinel is not
/// printable at all.
pub open spec fn spec_print_val(v: ValModel) -> Result<Seq<char>, RuntimeErrorModel> {
    match v {
        ValModel::VNum(n) => Ok(spec_render_mantissa(n as int)),
        ValModel::VStr(s) => Ok(s),
        ValModel::VBool(b) => Ok(
            if b {
                "true"@
            } else {
                "false"@
            },
        ),
        ValModel::VNil => Ok("nil"@),
        ValModel::VNaN => Ok("Nan"@),
        ValModel::VUninit => Err(
            RuntimeErrorModel {
                token: None,
                kind: RuntimeErrorKind::UninitializedVariableRead,
            },
        ),
    }
}

/// What a value contributes as a numeric operand: a number gives its
/// mantissa, the not-a-number marker gives `None` (so arithmetic on it stays
/// not-a-number and comparisons on it are false), and everything else is a
/// type mismatch blamed on the operator token.
pub open spec fn spec_number_operand(v: ValModel, operator: TokenModel) -> Result<
    Option<i64>,
    RuntimeErrorModel,
> {
    match v {
        ValModel::VNum(n) => Ok(Some(n)),
        ValModel::VNaN => Ok(None),
        _ => Err(
            RuntimeErrorModel {
                token: Some(operator),
                kind: RuntimeErrorKind::TypeMismatch(TypeMismatchKind::OperandMustBeNumber),
            },
        ),
    }
}

impl LiteralVal {
    /// Coerces this value to a numeric operand for `operator`, as
    /// `spec_number_operand` lays down.
    pub fn number_operand(&self, operator: Token) -> (r: Result<Option<i64>, RuntimeError>)
        ensures
            match spec_number_operand(self@, operator@) {
                Ok(n) => r == Ok::<Option<i64>, RuntimeError>(n),
                Err(e) => r is Err && r->Err_0@ == e,
            },
    {
        match self {
            LiteralVal::Number(n) => Ok(Some(*n)),
            LiteralVal::NaN => Ok(None),
            _ => Err(
                RuntimeError {
                    token: Some(operator),
                    kind: RuntimeErrorKind::TypeMismatch(TypeMismatchKind::OperandMustBeNumber),
                },
            ),
        }
    }

    /// Renders this value for `print`, as `spec_print_val` lays down.
    pub fn print(&self) -> (r: Result<String, RuntimeError>)
        ensures
            match spec_print_val(self@) {
                Ok(s) => r is Ok && r->Ok_0@ == s,
                Err(e) => r is Err && r->Err_0@ == e,
            },
    {
        match self {
            LiteralVal::Number(n) => Ok(crate::numeric::render_mantissa(*n)),
            LiteralVal::Str(s) => Ok(s.clone()),
            LiteralVal::Boolean(b) => {
                if *b {
                    Ok(String::from_str("true"))
                } else {
                    Ok(String::from_str("false"))
                }
            },
            LiteralVal::Nil => Ok(String::from_str("nil")),
            LiteralVal::NaN => Ok(String::from_str("Nan")),
            LiteralVal::UnInit => Err(
                RuntimeError { token: None, kind: RuntimeErrorKind::UninitializedVariableRead },
            ),
        }
    }
}

/// Mathematical model of a token.
pub struct TokenModel {
    pub token_type: TokenType,
    pub lexeme: Seq<char>,
    pub literal: ValModel,
    pub line: u32,
}

/// A token: its kind, the exact source substring it was scanned from, the
/// literal value it carries (numbers and strings only; `Nil` otherwise), and
/// the 1-based source line it starts on.
#[derive(Debug)]
pub struct Token {
    pub token_type: TokenType,
    pub lexeme: String,
    pub literal: LiteralVal,
    pub line: u32,
}

impl View for Token {
    type V = TokenModel;

    open spec fn view(&self) -> TokenModel {
        TokenModel {
            token_type: self.token_type,
            lexeme: self.lexeme@,
            literal: self.literal@,
            line: self.line,
        }
    }
}

impl Clone for Token {
    fn clone(&self) -> (r: Self)
        ensures
            r@ == self@,
    {
        Token {
            token_type: self.token_type,
            lexeme: self.lexeme.clone(),
            literal: self.literal.clone(),
            line: self.line,
        }
    }
}

} // verus!
