//! Expression trees.
use vstd::prelude::*;

use crate::token::{LiteralVal, Token, TokenModel, TokenType, ValModel};

verus! {

/// Mathematical model of an expression tree.
pub enum ExprModel {
    Binary { left: Box<ExprModel>, operator: TokenModel, right: Box<ExprModel> },
    Grouping(Box<ExprModel>),
    Literal(ValModel),
    Unary { operator: TokenModel, right: Box<ExprModel> },
    Variable(TokenModel),
    Assign(TokenModel, Box<ExprModel>),
}

/// An expression node; children are owned top-down.
pub enum Expr {
    Binary { left: Box<Expr>, operator: Token, right: Box<Expr> },
    Grouping(Box<Expr>),
    Literal(LiteralVal),
    Unary { operator: Token, right: Box<Expr> },
    Variable(Token),
    Assign(Token, Box<Expr>),
}

pub open spec fn expr_model(e: &Expr) -> ExprModel
    decreases e,
{
    match e {
        Expr::Binary { left, operator, right } => ExprModel::Binary {
            left: Box::new(expr_model(left)),
            operator: operator@,
            right: Box::new(expr_model(right)),
        },
        Expr::Grouping(inner) => ExprModel::Grouping(Box::new(expr_model(inner))),
        Expr::Literal(v) => ExprModel::Literal(v@),
        Expr::Unary { operator, right } => ExprModel::Unary {
            operator: operator@,
            right: Box::new(expr_model(right)),
        },
        Expr::Variable(name) => ExprModel::Variable(name@),
        Expr::Assign(name, value) => ExprModel::Assign(name@, Box::new(expr_model(value))),
    }
}

impl View for Expr {
    type V = ExprModel;

    open spec fn view(&self) -> ExprModel {
        expr_model(self)
    }
}

/// Whether a binary operator token may appear in a `Binary` node: the
/// parser only ever builds these.
pub open spec fn is_binary_operator(t: TokenType) -> bool {
    ||| t == TokenType::Greater
    ||| t == TokenType::GreaterEqual
    ||| t == TokenType::Less
    ||| t == TokenType::LessEqual
    ||| t == TokenType::BangEqual
    ||| t == TokenType::EqualEqual
    ||| t == TokenType::Minus
    ||| t == TokenType::Slash
    ||| t == TokenType::Star
    ||| t == TokenType::Plus
}

/// A well-formed expression carries only the operator tokens the grammar can
/// put there; the interpreter is defined on these.
pub open spec fn wf_expr(e: ExprModel) -> bool
    decreases e,
{
    match e {
        ExprModel::Binary { left, operator, right } => is_binary_operator(operator.token_type)
            && wf_expr(*left) && wf_expr(*right),
        ExprModel::Grouping(inner) => wf_expr(*inner),
        ExprModel::Literal(_) => true,
        ExprModel::Unary { operator, right } => (operator.token_type == TokenType::Minus
            || operator.token_type == TokenType::Bang) && wf_expr(*right),
        ExprModel::Variable(_) => true,
        ExprModel::Assign(_, value) => wf_expr(*value),
    }
}

} // verus!
