//! The tree-walking interpreter and its runtime errors.
//!
//! `spec_eval` and `spec_execute` are the language's semantics: every
//! executable entry point is proved to return exactly what they lay down.
use vstd::prelude::*;

use crate::environment::{chain_assign, chain_lookup, Environment};
use crate::expr::{wf_expr, Expr, ExprModel};
use crate::numeric::{spec_add_mant, spec_div_mant, spec_mul_mant, spec_sub_mant};
use crate::stmt::{stmts_model, wf_stmt, wf_stmts, Stmt, StmtModel};
use crate::token::{
    spec_number_operand, spec_print_val, val_eq, LiteralVal, Token, TokenModel, TokenType, ValModel,
};
use crate::{Lox, LoxModel};

verus! {

/// Which type-mismatch message a runtime error carries.
#[derive(Clone, Copy, Debug, PartialEq, Eq, Structural)]
pub enum TypeMismatchKind {
    OperandMustBeNumber,
    OperandsMustBeNumbersOrStrings,
}

/// The kinds of runtime error the interpreter can raise.
#[derive(Clone, Copy, Debug, PartialEq, Eq, Structural)]
pub enum RuntimeErrorKind {
    TypeMismatch(TypeMismatchKind),
    DivisionByZero,
    UndefinedVariable,
    UninitializedVariableRead,
}

/// Mathematical model of a runtime error.
pub struct RuntimeErrorModel {
    pub token: Option<TokenModel>,
    pub kind: RuntimeErrorKind,
}

/// A runtime error: its kind and, when one is known, the originating token
/// used for diagnostics.
#[derive(Debug)]
pub struct RuntimeError {
    pub token: Option<Token>,
    pub kind: RuntimeErrorKind,
}

impl View for RuntimeError {
    type V = RuntimeErrorModel;

    open spec fn view(&self) -> RuntimeErrorModel {
        RuntimeErrorModel {
            token: match &self.token {
                Some(t) => Some(t@),
                None => None,
            },
            kind: self.kind,
        }
    }
}

/// The scope chains the interpreter works on: global scope first, innermost
/// scope last.
pub type EnvModel = Seq<Map<Seq<char>, ValModel>>;

pub open spec fn undefined_variable(name: TokenModel) -> RuntimeErrorModel {
    RuntimeErrorModel { token: Some(name), kind: RuntimeErrorKind::UndefinedVariable }
}

pub open spec fn type_mismatch(op: TokenModel, which: TypeMismatchKind) -> RuntimeErrorModel {
    RuntimeErrorModel { token: Some(op), kind: RuntimeErrorKind::TypeMismatch(which) }
}

/// Truthiness: only nil and false are falsy; every other value — zero, the
/// empty string, the not-a-number marker — is truthy.
pub open spec fn spec_truthy(v: ValModel) -> bool {
    match v {
        ValModel::VNil => false,
        ValModel::VBool(b) => b,
        _ => true,
    }
}

/// Coerces an evaluation result to a numeric operand: an evaluation error
/// passes through, then the value must be a number or the not-a-number
/// marker (`spec_number_operand`).
pub open spec fn operand_of(r: Result<ValModel, RuntimeErrorModel>, op: TokenModel) -> Result<
    Option<i64>,
    RuntimeErrorModel,
> {
    match r {
        Ok(v) => spec_number_operand(v, op),
        Err(e) => Err(e),
    }
}

/// An arithmetic outcome as a value: a representable mantissa is a number,
/// anything else is the not-a-number marker.
pub open spec fn num_or_nan(o: Option<i64>) -> ValModel {
    match o {
        Some(m) => ValModel::VNum(m),
        None => ValModel::VNaN,
    }
}

pub open spec fn add_opt(a: Option<i64>, b: Option<i64>) -> Option<i64> {
    match (a, b) {
        (Some(x), Some(y)) => spec_add_mant(x, y),
        _ => None,
    }
}

pub open spec fn sub_opt(a: Option<i64>, b: Option<i64>) -> Option<i64> {
    match (a, b) {
        (Some(x), Some(y)) => spec_sub_mant(x, y),
        _ => None,
    }
}

pub open spec fn mul_opt(a: Option<i64>, b: Option<i64>) -> Option<i64> {
    match (a, b) {
        (Some(x), Some(y)) => spec_mul_mant(x, y),
        _ => None,
    }
}

pub open spec fn div_opt(a: Option<i64>, b: Option<i64>) -> Option<i64> {
    match (a, b) {
        (Some(x), Some(y)) => spec_div_mant(x, y),
        _ => None,
    }
}

/// An ordering comparison on numeric operands; any comparison involving the
/// not-a-number marker is false.
pub open spec fn spec_num_cmp(t: TokenType, a: Option<i64>, b: Option<i64>) -> bool {
    match (a, b) {
        (Some(x), Some(y)) => {
            if t == TokenType::Greater {
                x > y
            } else if t == TokenType::GreaterEqual {
                x >= y
            } else if t == TokenType::Less {
                x < y
            } else {
                x <= y
            }
        },
        _ => false,
    }
}

/// What a unary operator yields from its operand's evaluation result.
/// Unary minus multiplies by minus one, so negating an unrepresentable
/// result stays the not-a-number marker.
pub open spec fn spec_unary_op(
    op: TokenModel,
    rv: Result<ValModel, RuntimeErrorModel>,
) -> Result<ValModel, RuntimeErrorModel> {
    if op.token_type == TokenType::Minus {
        match operand_of(rv, op) {
            Ok(n) => Ok(num_or_nan(mul_opt(n, Some(-1_000_000i64)))),
            Err(e) => Err(e),
        }
    } else if op.token_type == TokenType::Bang {
        match rv {
            Ok(v) => Ok(ValModel::VBool(!spec_truthy(v))),
            Err(e) => Err(e),
        }
    } else {
        arbitrary()
    }
}

/// What a binary operator yields from its operands' evaluation results.
/// The precedence among errors follows the order the operands are consumed:
/// the ordering and arithmetic operators take the left operand first, except
/// division, which examines its right operand (and its zero check) first;
/// `+` pattern-matches both results at once, so any pairing that is not two
/// numbers or two strings — an operand error included — is a type mismatch.
pub open spec fn spec_binary_op(
    op: TokenModel,
    lv: Result<ValModel, RuntimeErrorModel>,
    rv: Result<ValModel, RuntimeErrorModel>,
) -> Result<ValModel, RuntimeErrorModel> {
    let t = op.token_type;
    if t == TokenType::Greater || t == TokenType::GreaterEqual || t == TokenType::Less || t
        == TokenType::LessEqual {
        match operand_of(lv, op) {
            Err(e) => Err(e),
            Ok(a) => match operand_of(rv, op) {
                Err(e) => Err(e),
                Ok(b) => Ok(ValModel::VBool(spec_num_cmp(t, a, b))),
            },
        }
    } else if t == TokenType::BangEqual {
        match lv {
            Err(e) => Err(e),
            Ok(a) => match rv {
                Err(e) => Err(e),
                Ok(b) => Ok(ValModel::VBool(!val_eq(a, b))),
            },
        }
    } else if t == TokenType::EqualEqual {
        match lv {
            Err(e) => Err(e),
            Ok(a) => match rv {
                Err(e) => Err(e),
                Ok(b) => Ok(ValModel::VBool(val_eq(a, b))),
            },
        }
    } else if t == TokenType::Minus {
        match operand_of(lv, op) {
            Err(e) => Err(e),
            Ok(a) => match operand_of(rv, op) {
                Err(e) => Err(e),
                Ok(b) => Ok(num_or_nan(sub_opt(a, b))),
            },
        }
    } else if t == TokenType::Star {
        match operand_of(lv, op) {
            Err(e) => Err(e),
            Ok(a) => match operand_of(rv, op) {
                Err(e) => Err(e),
                Ok(b) => Ok(num_or_nan(mul_opt(a, b))),
            },
        }
    } else if t == TokenType::Slash {
        match operand_of(rv, op) {
            Err(e) => Err(e),
            Ok(b) => {
                if b == Some(0i64) {
                    Err(RuntimeErrorModel { token: Some(op), kind: RuntimeErrorKind::DivisionByZero })
                } else {
                    match operand_of(lv, op) {
                        Err(e) => Err(e),
                        Ok(a) => Ok(num_or_nan(div_opt(a, b))),
                    }
                }
            },
        }
    } else if t == TokenType::Plus {
        match (lv, rv) {
            (Ok(ValModel::VNum(a)), Ok(ValModel::VNum(b))) => Ok(num_or_nan(spec_add_mant(a, b))),
            (Ok(ValModel::VStr(a)), Ok(ValModel::VStr(b))) => Ok(ValModel::VStr(a + b)),
            _ => Err(type_mismatch(op, TypeMismatchKind::OperandsMustBeNumbersOrStrings)),
        }
    } else {
        arbitrary()
    }
}

/// Big-step evaluation of an expression: yields the value or the first
/// runtime error, together with the scope chain after evaluation (assignment
/// is the one expression that changes it). Both operands of a binary
/// operator are evaluated, left then right, before the operator is applied.
pub open spec fn spec_eval(e: ExprModel, env: EnvModel) -> (Result<
    ValModel,
    RuntimeErrorModel,
>, EnvModel)
    decreases e,
{
    match e {
        ExprModel::Literal(v) => (Ok(v), env),
        ExprModel::Grouping(inner) => spec_eval(*inner, env),
        ExprModel::Variable(name) => (
            match chain_lookup(env, name.lexeme) {
                Some(v) => Ok(v),
                None => Err(undefined_variable(name)),
            },
            env,
        ),
        ExprModel::Assign(name, value) => {
            let (rv, env1) = spec_eval(*value, env);
            match rv {
                Ok(v) => match chain_assign(env1, name.lexeme, v) {
                    Some(env2) => (Ok(v), env2),
                    None => (Err(undefined_variable(name)), env1),
                },
                Err(e) => (Err(e), env1),
            }
        },
        ExprModel::Unary { operator, right } => {
            let (rv, env1) = spec_eval(*right, env);
            (spec_unary_op(operator, rv), env1)
        },
        ExprModel::Binary { left, operator, right } => {
            let (lv, env1) = spec_eval(*left, env);
            let (rv, env2) = spec_eval(*right, env1);
            (spec_binary_op(operator, lv, rv), env2)
        },
    }
}

/// One scope of the chain gained by `var`, entered by a block: `define`
/// always writes the innermost scope.
pub open spec fn env_define(env: EnvModel, name: Seq<char>, v: ValModel) -> EnvModel {
    env.drop_last().push(env.last().insert(name, v))
}

/// Big-step execution of one statement: the first runtime error if any, the
/// scope chain afterwards, and the lines printed. A block runs its body in a
/// fresh innermost scope and discards that scope on the way out, error or
/// not; a `var` without initializer installs the never-assigned sentinel.
pub open spec fn spec_execute(s: StmtModel, env: EnvModel) -> (Result<
    (),
    RuntimeErrorModel,
>, EnvModel, Seq<Seq<char>>)
    decreases s, 0int,
{
    match s {
        StmtModel::Expression(e) => {
            let (r, env1) = spec_eval(e, env);
            (
                match r {
                    Ok(_) => Ok(()),
                    Err(er) => Err(er),
                },
                env1,
                Seq::empty(),
            )
        },
        StmtModel::Print(e) => {
            let (r, env1) = spec_eval(e, env);
            match r {
                Ok(v) => match spec_print_val(v) {
                    Ok(line) => (Ok(()), env1, seq![line]),
                    Err(er) => (Err(er), env1, Seq::empty()),
                },
                Err(er) => (Err(er), env1, Seq::empty()),
            }
        },
        StmtModel::Var(name, init) => match init {
            Some(e) => {
                let (r, env1) = spec_eval(e, env);
                match r {
                    Ok(v) => (Ok(()), env_define(env1, name.lexeme, v), Seq::empty()),
                    Err(er) => (Err(er), env1, Seq::empty()),
                }
            },
            None => (Ok(()), env_define(env, name.lexeme, ValModel::VUninit), Seq::empty()),
        },
        StmtModel::Block(stmts) => {
            let (r, env1, out) = spec_exec_seq(stmts, env.push(Map::empty()));
            (r, env1.drop_last(), out)
        },
    }
}

/// Big-step execution of a statement sequence, fail-fast: the first runtime
/// error stops the batch, and the statements after it contribute nothing.
pub open spec fn spec_exec_seq(stmts: Seq<StmtModel>, env: EnvModel) -> (Result<
    (),
    RuntimeErrorModel,
>, EnvModel, Seq<Seq<char>>)
    decreases stmts, 1int,
{
    if stmts.len() == 0 {
        (Ok(()), env, Seq::empty())
    } else {
        let (r, env1, out) = spec_execute(stmts[0], env);
        match r {
            Err(e) => (Err(e), env1, out),
            Ok(_) => {
                let (r2, env2, out2) = spec_exec_seq(stmts.drop_first(), env1);
                (r2, env2, out + out2)
            },
        }
    }
}

/// Evaluation never changes how many scopes the chain holds.
pub proof fn lemma_eval_preserves_len(e: ExprModel, env: EnvModel)
    ensures
        spec_eval(e, env).1.len() == env.len(),
    decreases e,
{
    match e {
        ExprModel::Literal(_) => {},
        ExprModel::Grouping(inner) => {
            lemma_eval_preserves_len(*inner, env);
        },
        ExprModel::Variable(_) => {},
        ExprModel::Assign(name, value) => {
            lemma_eval_preserves_len(*value, env);
            let (rv, env1) = spec_eval(*value, env);
            if rv is Ok {
                lemma_chain_assign_len(env1, name.lexeme, rv->Ok_0);
            }
        },
        ExprModel::Unary { operator, right } => {
            lemma_eval_preserves_len(*right, env);
        },
        ExprModel::Binary { left, operator, right } => {
            lemma_eval_preserves_len(*left, env);
            let (lv, env1) = spec_eval(*left, env);
            lemma_eval_preserves_len(*right, env1);
        },
    }
}

proof fn lemma_chain_assign_len(chain: EnvModel, name: Seq<char>, v: ValModel)
    ensures
        chain_assign(chain, name, v) is Some ==> chain_assign(chain, name, v)->Some_0.len()
            == chain.len(),
    decreases chain.len(),
{
    if chain.len() > 0 && !chain.last().contains_key(name) {
        lemma_chain_assign_len(chain.drop_last(), name, v);
    }
}

/// Statement execution never changes how many scopes the chain holds.
pub proof fn lemma_execute_preserves_len(s: StmtModel, env: EnvModel)
    requires
        env.len() >= 1,
    ensures
        spec_execute(s, env).1.len() == env.len(),
    decreases s, 0int,
{
    match s {
        StmtModel::Expression(e) => {
            lemma_eval_preserves_len(e, env);
        },
        StmtModel::Print(e) => {
            lemma_eval_preserves_len(e, env);
        },
        StmtModel::Var(name, init) => {
            if init is Some {
                lemma_eval_preserves_len(init->0, env);
            }
        },
        StmtModel::Block(stmts) => {
            lemma_exec_seq_preserves_len(stmts, env.push(Map::empty()));
        },
    }
}

pub proof fn lemma_exec_seq_preserves_len(stmts: Seq<StmtModel>, env: EnvModel)
    requires
        env.len() >= 1,
    ensures
        spec_exec_seq(stmts, env).1.len() == env.len(),
    decreases stmts, 1int,
{
    if stmts.len() > 0 {
        lemma_execute_preserves_len(stmts[0], env);
        let (r, env1, out) = spec_execute(stmts[0], env);
        if r is Ok {
            lemma_exec_seq_preserves_len(stmts.drop_first(), env1);
        }
    }
}

/// Law: evaluating a binary arithmetic expression over two numeric literals
/// yields exactly the arithmetic of the literals' values — with the one
/// exception that division by exactly zero yields the division-by-zero
/// error, never a value — and leaves the scope chain untouched.
pub proof fn lemma_arithmetic_on_literals(op: TokenModel, a: i64, b: i64, env: EnvModel)
    requires
        op.token_type == TokenType::Plus || op.token_type == TokenType::Minus || op.token_type
            == TokenType::Star || op.token_type == TokenType::Slash,
    ensures
        ({
            let e = ExprModel::Binary {
                left: Box::new(ExprModel::Literal(ValModel::VNum(a))),
                operator: op,
                right: Box::new(ExprModel::Literal(ValModel::VNum(b))),
            };
            let (r, env2) = spec_eval(e, env);
            &&& env2 == env
            &&& (op.token_type == TokenType::Plus ==> r == Ok::<ValModel, RuntimeErrorModel>(
                num_or_nan(spec_add_mant(a, b)),
            ))
            &&& (op.token_type == TokenType::Minus ==> r == Ok::<ValModel, RuntimeErrorModel>(
                num_or_nan(spec_sub_mant(a, b)),
            ))
            &&& (op.token_type == TokenType::Star ==> r == Ok::<ValModel, RuntimeErrorModel>(
                num_or_nan(spec_mul_mant(a, b)),
            ))
            &&& (op.token_type == TokenType::Slash && b != 0 ==> r == Ok::<
                ValModel,
                RuntimeErrorModel,
            >(num_or_nan(spec_div_mant(a, b))))
            &&& (op.token_type == TokenType::Slash && b == 0 ==> r == Err::<
                ValModel,
                RuntimeErrorModel,
            >(RuntimeErrorModel { token: Some(op), kind: RuntimeErrorKind::DivisionByZero }))
        }),
{
    reveal_with_fuel(spec_eval, 3);
    let e = ExprModel::Binary {
        left: Box::new(ExprModel::Literal(ValModel::VNum(a))),
        operator: op,
        right: Box::new(ExprModel::Literal(ValModel::VNum(b))),
    };
    let lv = Ok::<ValModel, RuntimeErrorModel>(ValModel::VNum(a));
    let rv = Ok::<ValModel, RuntimeErrorModel>(ValModel::VNum(b));
    assert(spec_eval(e, env) == (spec_binary_op(op, lv, rv), env));
    assert(operand_of(lv, op) == Ok::<Option<i64>, RuntimeErrorModel>(Some(a)));
    assert(operand_of(rv, op) == Ok::<Option<i64>, RuntimeErrorModel>(Some(b)));
}

/// The message a runtime error prints.
pub open spec fn spec_runtime_message(e: RuntimeErrorModel) -> Seq<char> {
    match e.kind {
        RuntimeErrorKind::TypeMismatch(TypeMismatchKind::OperandMustBeNumber) => {
            "Operand must be a number."@
        },
        RuntimeErrorKind::TypeMismatch(TypeMismatchKind::OperandsMustBeNumbersOrStrings) => {
            "Operands must be two numbers or two strings."@
        },
        RuntimeErrorKind::DivisionByZero => "Division by zero."@,
        RuntimeErrorKind::UndefinedVariable => match e.token {
            Some(t) => "Undefined variable '"@ + t.lexeme + "'."@,
            None => "Undefined variable."@,
        },
        RuntimeErrorKind::UninitializedVariableRead => "Can't print uninitialized variable."@,
    }
}

/// The full diagnostic a runtime error produces: the message alone, or,
/// when the error carries its originating token,
/// `<message>\n[line <L>;token <lexeme>]`.
pub open spec fn spec_runtime_diagnostic(e: RuntimeErrorModel) -> Seq<char> {
    match e.token {
        Some(t) => spec_runtime_message(e) + "\n[line "@ + crate::numeric::dec_digits(t.line as nat)
            + ";token "@ + t.lexeme + "]"@,
        None => spec_runtime_message(e),
    }
}

impl RuntimeError {
    /// Renders the message this error prints.
    pub fn message(&self) -> (r: String)
        ensures
            r@ == spec_runtime_message(self@),
    {
        match self.kind {
            RuntimeErrorKind::TypeMismatch(TypeMismatchKind::OperandMustBeNumber) => {
                String::from_str("Operand must be a number.")
            },
            RuntimeErrorKind::TypeMismatch(TypeMismatchKind::OperandsMustBeNumbersOrStrings) => {
                String::from_str("Operands must be two numbers or two strings.")
            },
            RuntimeErrorKind::DivisionByZero => String::from_str("Division by zero."),
            RuntimeErrorKind::UndefinedVariable => {
                match &self.token {
                    Some(t) => {
                        proof {
                            reveal_strlit("Undefined variable '");
                            reveal_strlit("'.");
                        }
                        let mut m = String::from_str("Undefined variable '");
                        m.append(t.lexeme.as_str());
                        m.append("'.");
                        m
                    },
                    None => String::from_str("Undefined variable."),
                }
            },
            RuntimeErrorKind::UninitializedVariableRead => {
                String::from_str("Can't print uninitialized variable.")
            },
        }
    }
}

/// The tree-walking evaluator. It carries no state of its own: the scope
/// chain and the host-facing sinks are handed to each call.
pub struct Interpreter {}

/// Maps an exec evaluation result to its model.
pub open spec fn res_model(r: Result<LiteralVal, RuntimeError>) -> Result<
    ValModel,
    RuntimeErrorModel,
> {
    match r {
        Ok(v) => Ok(v@),
        Err(e) => Err(e@),
    }
}

/// Coerces an evaluation result to a numeric operand, blaming `operator`,
/// exactly as `operand_of` lays down.
fn number_operand_of(r: Result<LiteralVal, RuntimeError>, operator: &Token) -> (rr: Result<
    Option<i64>,
    RuntimeError,
>)
    ensures
        match operand_of(res_model(r), operator@) {
            Ok(n) => rr == Ok::<Option<i64>, RuntimeError>(n),
            Err(e) => rr is Err && rr->Err_0@ == e,
        },
{
    match r {
        Err(e) => Err(e),
        Ok(v) => v.number_operand(operator.clone()),
    }
}

impl Interpreter {
    pub fn new() -> Self {
        Interpreter {  }
    }

    /// Truthiness: only nil and false are falsy.
    pub fn is_truthy(&self, obj: &LiteralVal) -> (r: bool)
        ensures
            r == spec_truthy(obj@),
    {
        match obj {
            LiteralVal::Nil => false,
            LiteralVal::Boolean(b) => *b,
            _ => true,
        }
    }

    /// Structural value equality across all value tags; the explicit
    /// not-a-number marker equals itself.
    pub fn is_equal(&self, a: &LiteralVal, b: &LiteralVal) -> (r: bool)
        ensures
            r == val_eq(a@, b@),
    {
        a == b
    }

    /// Evaluates an expression against the scope chain, as `spec_eval` lays
    /// down. Does not touch the host-facing state.
    pub fn evaluate(&mut self, lox: &mut Lox, environment: &mut Environment, expr: &Expr) -> (r:
        Result<LiteralVal, RuntimeError>)
        requires
            wf_expr(expr@),
        ensures
            final(lox)@ == old(lox)@,
            ({
                let (res, env2) = spec_eval(expr@, old(environment)@);
                &&& final(environment)@ == env2
                &&& res_model(r) == res
            }),
        decreases expr,
    {
        match expr {
            Expr::Literal(value) => Ok(value.clone()),
            Expr::Grouping(inner) => self.evaluate(lox, environment, inner),
            Expr::Variable(name) => environment.get(name),
            Expr::Assign(name, value_expr) => {
                let value_r = self.evaluate(lox, environment, value_expr);
                match value_r {
                    Err(e) => Err(e),
                    Ok(v) => match environment.assign(name, v.clone()) {
                        Ok(_) => Ok(v),
                        Err(e) => Err(e),
                    },
                }
            },
            Expr::Unary { operator, right } => {
                let right_r = self.evaluate(lox, environment, right);
                match operator.token_type {
                    TokenType::Minus => {
                        match number_operand_of(right_r, operator) {
                            Err(e) => Err(e),
                            Ok(n) => Ok(
                                match n {
                                    Some(x) => match crate::numeric::mul_mant(x, -1_000_000i64) {
                                        Some(m) => LiteralVal::Number(m),
                                        None => LiteralVal::NaN,
                                    },
                                    None => LiteralVal::NaN,
                                },
                            ),
                        }
                    },
                    _ => {
                        match right_r {
                            Err(e) => Err(e),
                            Ok(v) => Ok(LiteralVal::Boolean(!self.is_truthy(&v))),
                        }
                    },
                }
            },
            Expr::Binary { left, operator, right } => {
                let left_r = self.evaluate(lox, environment, left);
                let right_r = self.evaluate(lox, environment, right);
                match operator.token_type {
                    TokenType::Greater | TokenType::GreaterEqual | TokenType::Less
                        | TokenType::LessEqual => {
                        let t = operator.token_type;
                        match number_operand_of(left_r, operator) {
                            Err(e) => Err(e),
                            Ok(a) => match number_operand_of(right_r, operator) {
                                Err(e) => Err(e),
                                Ok(b) => Ok(
                                    LiteralVal::Boolean(
                                        match (a, b) {
                                            (Some(x), Some(y)) => {
                                                if t == TokenType::Greater {
                                                    x > y
                                                } else if t == TokenType::GreaterEqual {
                                                    x >= y
                                                } else if t == TokenType::Less {
                                                    x < y
                                                } else {
                                                    x <= y
                                                }
                                            },
                                            _ => false,
                                        },
                                    ),
                                ),
                            },
                        }
                    },
                    TokenType::BangEqual => {
                        match left_r {
                            Err(e) => Err(e),
                            Ok(a) => match right_r {
                                Err(e) => Err(e),
                                Ok(b) => Ok(LiteralVal::Boolean(!self.is_equal(&a, &b))),
                            },
                        }
                    },
                    TokenType::EqualEqual => {
                        match left_r {
                            Err(e) => Err(e),
                            Ok(a) => match right_r {
                                Err(e) => Err(e),
                                Ok(b) => Ok(LiteralVal::Boolean(self.is_equal(&a, &b))),
                            },
                        }
                    },
                    TokenType::Minus => {
                        match number_operand_of(left_r, operator) {
                            Err(e) => Err(e),
                            Ok(a) => match number_operand_of(right_r, operator) {
                                Err(e) => Err(e),
                                Ok(b) => Ok(
                                    num_result_val(
                                        match (a, b) {
                                            (Some(x), Some(y)) => crate::numeric::sub_mant(x, y),
                                            _ => None,
                                        },
                                    ),
                                ),
                            },
                        }
                    },
                    TokenType::Star => {
                        match number_operand_of(left_r, operator) {
                            Err(e) => Err(e),
                            Ok(a) => match number_operand_of(right_r, operator) {
                                Err(e) => Err(e),
                                Ok(b) => Ok(
                                    num_result_val(
                                        match (a, b) {
                                            (Some(x), Some(y)) => crate::numeric::mul_mant(x, y),
                                            _ => None,
                                        },
                                    ),
                                ),
                            },
                        }
                    },
                    TokenType::Slash => {
                        match number_operand_of(right_r, operator) {
                            Err(e) => Err(e),
                            Ok(b) => {
                                let b_is_zero = match b {
                                    Some(y) => y == 0,
                                    None => false,
                                };
                                if b_is_zero {
                                    Err(
                                        RuntimeError {
                                            token: Some(operator.clone()),
                                            kind: RuntimeErrorKind::DivisionByZero,
                                        },
                                    )
                                } else {
                                    match number_operand_of(left_r, operator) {
                                        Err(e) => Err(e),
                                        Ok(a) => Ok(
                                            num_result_val(
                                                match (a, b) {
                                                    (Some(x), Some(y)) => crate::numeric::div_mant(
                                                        x,
                                                        y,
                                                    ),
                                                    _ => None,
                                                },
                                            ),
                                        ),
                                    }
                                }
                            },
                        }
                    },
                    _ => {
                        match (left_r, right_r) {
                            (Ok(LiteralVal::Number(a)), Ok(LiteralVal::Number(b))) => Ok(
                                num_result_val(crate::numeric::add_mant(a, b)),
                            ),
                            (Ok(LiteralVal::Str(a)), Ok(LiteralVal::Str(b))) => Ok(
                                LiteralVal::Str(a.concat(b.as_str())),
                            ),
                            _ => Err(
                                RuntimeError {
                                    token: Some(operator.clone()),
                                    kind: RuntimeErrorKind::TypeMismatch(
                                        TypeMismatchKind::OperandsMustBeNumbersOrStrings,
                                    ),
                                },
                            ),
                        }
                    },
                }
            },
        }
    }
}

/// An arithmetic outcome as a value, exactly as `num_or_nan` lays down.
fn num_result_val(o: Option<i64>) -> (r: LiteralVal)
    ensures
        r@ == num_or_nan(o),
{
    match o {
        Some(m) => LiteralVal::Number(m),
        None => LiteralVal::NaN,
    }
}

impl Interpreter {
    /// Executes one statement, as `spec_execute` lays down: printed lines go
    /// to the host-facing output, the diagnostics stream and the error flags
    /// stay untouched.
    fn execute(&mut self, lox: &mut Lox, environment: &mut Environment, stmt: &Stmt) -> (r: Result<
        (),
        RuntimeError,
    >)
        requires
            wf_stmt(stmt@),
            old(environment).well_formed(),
        ensures
            final(environment)@.len() == old(environment)@.len(),
            ({
                let (res, env2, out) = spec_execute(stmt@, old(environment)@);
                &&& final(environment)@ == env2
                &&& final(lox)@.output == old(lox)@.output + out
                &&& final(lox)@.diagnostics == old(lox)@.diagnostics
                &&& final(lox)@.had_error == old(lox)@.had_error
                &&& final(lox)@.had_runtime_error == old(lox)@.had_runtime_error
                &&& match res {
                    Ok(_) => r is Ok,
                    Err(e) => r is Err && r->Err_0@ == e,
                }
            }),
        decreases stmt, 0int,
    {
        proof {
            lemma_execute_preserves_len(stmt@, old(environment)@);
        }
        match stmt {
            Stmt::Expression(expression) => {
                match self.evaluate(lox, environment, expression) {
                    Err(e) => {
                        proof {
                            assert(final(lox)@.output =~= old(lox)@.output + Seq::<
                                Seq<char>,
                            >::empty());
                        }
                        Err(e)
                    },
                    Ok(_) => {
                        proof {
                            assert(final(lox)@.output =~= old(lox)@.output + Seq::<
                                Seq<char>,
                            >::empty());
                        }
                        Ok(())
                    },
                }
            },
            Stmt::Print(expression) => {
                let value = self.evaluate(lox, environment, expression);
                match value {
                    Ok(val) => {
                        match val.print() {
                            Ok(line) => {
                                lox.output.push(line);
                                proof {
                                    let (res, env2, out) = spec_execute(
                                        stmt@,
                                        old(environment)@,
                                    );
                                    assert(lox.output.deep_view() =~= old(lox)@.output + out);
                                }
                                Ok(())
                            },
                            Err(e) => {
                                proof {
                                    assert(final(lox)@.output =~= old(lox)@.output + Seq::<
                                        Seq<char>,
                                    >::empty());
                                }
                                Err(e)
                            },
                        }
                    },
                    Err(e) => {
                        proof {
                            assert(final(lox)@.output =~= old(lox)@.output + Seq::<
                                Seq<char>,
                            >::empty());
                        }
                        Err(e)
                    },
                }
            },
            Stmt::Var(name, init) => {
                let value = match init {
                    Some(expr) => {
                        match self.evaluate(lox, environment, expr) {
                            Ok(v) => v,
                            Err(e) => {
                                proof {
                                    assert(final(lox)@.output =~= old(lox)@.output + Seq::<
                                        Seq<char>,
                                    >::empty());
                                }
                                return Err(e);
                            },
                        }
                    },
                    None => LiteralVal::UnInit,
                };
                proof {
                    if init is Some {
                        lemma_eval_preserves_len(init->Some_0@, old(environment)@);
                    }
                }
                environment.define(name.lexeme.clone(), value);
                proof {
                    assert(final(lox)@.output =~= old(lox)@.output + Seq::<Seq<char>>::empty());
                }
                Ok(())
            },
            Stmt::Block(statements) => {
                environment.with_enclosing();
                let r = self.execute_block(lox, statements, environment);
                proof {
                    lemma_exec_seq_preserves_len(
                        stmts_model(statements@),
                        old(environment)@.push(Map::empty()),
                    );
                }
                environment.close_scope();
                r
            },
        }
    }

    /// Executes a statement sequence against the current innermost scope,
    /// fail-fast, as `spec_exec_seq` lays down.
    #[verifier::loop_isolation(false)]
    fn execute_block(
        &mut self,
        lox: &mut Lox,
        statements: &Vec<Stmt>,
        environment: &mut Environment,
    ) -> (r: Result<(), RuntimeError>)
        requires
            wf_stmts(stmts_model(statements@)),
            old(environment).well_formed(),
        ensures
            ({
                let (res, env2, out) = spec_exec_seq(stmts_model(statements@), old(environment)@);
                &&& final(environment)@ == env2
                &&& final(lox)@.output == old(lox)@.output + out
                &&& final(lox)@.diagnostics == old(lox)@.diagnostics
                &&& final(lox)@.had_error == old(lox)@.had_error
                &&& final(lox)@.had_runtime_error == old(lox)@.had_runtime_error
                &&& match res {
                    Ok(_) => r is Ok,
                    Err(e) => r is Err && r->Err_0@ == e,
                }
            }),
        decreases statements, 1int,
    {
        let ghost model = stmts_model(statements@);
        let ghost env0 = environment@;
        let ghost out0 = lox@.output;
        proof {
            crate::stmt::lemma_stmts_model_index(statements@);
            assert(model.subrange(0, model.len() as int) =~= model);
        }
        let n = statements.len();
        let mut i: usize = 0;
        while i < n
            invariant
                i <= n,
                n == statements@.len(),
                model == stmts_model(statements@),
                model.len() == n,
                wf_stmts(model),
                forall|j: int|
                    0 <= j < n ==> model[j] == crate::stmt::stmt_model(&#[trigger] statements@[j]),
                environment@.len() == env0.len(),
                env0.len() >= 1,
                lox@.output == out0 + lox@.output.skip(out0.len() as int),
                out0.len() <= lox@.output.len(),
                lox@.diagnostics == old(lox)@.diagnostics,
                lox@.had_error == old(lox)@.had_error,
                lox@.had_runtime_error == old(lox)@.had_runtime_error,
                spec_exec_seq(model, env0) == ({
                    let (res, env2, out) = spec_exec_seq(
                        model.subrange(i as int, n as int),
                        environment@,
                    );
                    (res, env2, lox@.output.skip(out0.len() as int) + out)
                }),
            decreases n - i,
        {
            let ghost env_before = environment@;
            let ghost out_before = lox@.output;
            let r = self.execute(lox, environment, &statements[i]);
            proof {
                let rest = model.subrange(i as int, n as int);
                assert(rest[0] == model[i as int]);
                assert(rest.drop_first() =~= model.subrange(i + 1, n as int));
            }
            match r {
                Err(e) => {
                    proof {
                        let rest = model.subrange(i as int, n as int);
                        let (res0, env1x, out1x) = spec_execute(model[i as int], env_before);
                        assert(res0 is Err);
                        assert(spec_exec_seq(rest, env_before) == (res0, env1x, out1x));
                        assert(lox@.output.skip(out0.len() as int) =~= out_before.skip(
                            out0.len() as int,
                        ) + out1x);
                        assert(lox@.output =~= out0 + (out_before.skip(out0.len() as int)
                            + out1x));
                        assert(spec_exec_seq(model, env0).2 == out_before.skip(out0.len() as int)
                            + out1x);
                        assert(spec_exec_seq(model, env0).0 == res0);
                        assert(spec_exec_seq(model, env0).1 == env1x);
                    }
                    return Err(e);
                },
                Ok(_) => {},
            }
            proof {
                assert(lox@.output.skip(out0.len() as int) =~= out_before.skip(out0.len() as int)
                    + spec_execute(model[i as int], env_before).2);
                assert(lox@.output =~= out0 + lox@.output.skip(out0.len() as int));
                let (res1, env_a, out_a) = spec_exec_seq(
                    model.subrange(i + 1, n as int),
                    environment@,
                );
                assert(out_before.skip(out0.len() as int) + (spec_execute(
                    model[i as int],
                    env_before,
                ).2 + out_a) =~= lox@.output.skip(out0.len() as int) + out_a);
            }
            i = i + 1;
        }
        proof {
            assert(model.subrange(i as int, n as int) =~= Seq::<StmtModel>::empty());
            assert(lox@.output.skip(out0.len() as int) + Seq::<Seq<char>>::empty() =~= lox@
                .output.skip(out0.len() as int));
        }
        Ok(())
    }

    /// Executes statements in order against the supplied scope chain,
    /// stopping at the first runtime error, which is reported through the
    /// diagnostics stream; the statements after it are skipped.
    pub fn interpret(
        &mut self,
        lox: &mut Lox,
        statements: Vec<Stmt>,
        environment: &mut Environment,
    )
        requires
            wf_stmts(stmts_model(statements@)),
            old(environment).well_formed(),
        ensures
            ({
                let (res, env2, out) = spec_exec_seq(
                    stmts_model(statements@),
                    old(environment)@,
                );
                &&& final(environment)@ == env2
                &&& final(lox)@.output == old(lox)@.output + out
                &&& final(lox)@.had_error == old(lox)@.had_error
                &&& match res {
                    Ok(_) => {
                        &&& final(lox)@.diagnostics == old(lox)@.diagnostics
                        &&& final(lox)@.had_runtime_error == old(lox)@.had_runtime_error
                    },
                    Err(e) => {
                        &&& final(lox)@.diagnostics == old(lox)@.diagnostics.push(
                            spec_runtime_diagnostic(e),
                        )
                        &&& final(lox)@.had_runtime_error
                    },
                }
            }),
    {
        match self.execute_block(lox, &statements, environment) {
            Err(e) => {
                lox.runtime_error(e);
            },
            Ok(_) => {},
        }
    }
}

} // verus!
