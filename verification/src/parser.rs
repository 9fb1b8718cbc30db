//! The parser: tokens to a statement tree, by recursive descent.
//!
//! Each binary precedence level parses its next-tighter level, then folds
//! further operands into left-associative nodes while its operators follow.
//! A declaration that fails to parse is reported and dropped from the
//! result, and parsing continues with the next token. `spec_declaration`
//! and its companions are the reference: `parse` is proved to produce
//! exactly their statements and to report exactly their errors.
use vstd::prelude::*;

use crate::expr::{Expr, ExprModel};
use crate::stmt::{Stmt, StmtModel};
use crate::token::{LiteralVal, Token, TokenModel, TokenType, ValModel};
use crate::{spec_report_line, spec_where_of_token, Lox};

verus! {

/// Mathematical model of a parse-time error: the token it is attributed to
/// and its message.
pub struct ParseErrorModel {
    pub token: TokenModel,
    pub message: Seq<char>,
}

/// The diagnostic line a parse-time error produces.
pub open spec fn parse_error_diagnostic(e: ParseErrorModel) -> Seq<char> {
    spec_report_line(e.token.line, spec_where_of_token(e.token), e.message)
}

/// What parsing one expression production yields: the expression or a
/// failure, the position after the attempt, and the errors reported.
pub struct ExprStep {
    pub res: Result<ExprModel, ()>,
    pub next: nat,
    pub errors: Seq<ParseErrorModel>,
}

/// What parsing one statement production yields.
pub struct StmtStep {
    pub res: Result<StmtModel, ()>,
    pub next: nat,
    pub errors: Seq<ParseErrorModel>,
}

/// Clamps a sub-parse's resulting position into `[lo, len]`; the positions
/// the productions return always lie there already (`lemma_expression_spans`
/// and companions), so the clamp only serves the termination measure.
pub open spec fn clamp_span(lo: nat, n: nat, len: nat) -> nat {
    if n < lo || len < lo {
        lo
    } else if n > len {
        len
    } else {
        n
    }
}

/// Whether `t` is one of the operators folded at binary precedence `level`:
/// 4 equality, 3 comparison, 2 terms, 1 factors.
pub open spec fn level_ops(level: nat, t: TokenType) -> bool {
    if level == 4 {
        t == TokenType::BangEqual || t == TokenType::EqualEqual
    } else if level == 3 {
        t == TokenType::Greater || t == TokenType::GreaterEqual || t == TokenType::Less || t
            == TokenType::LessEqual
    } else if level == 2 {
        t == TokenType::Plus || t == TokenType::Minus
    } else {
        t == TokenType::Slash || t == TokenType::Star
    }
}

pub open spec fn expect_expression_error(toks: Seq<TokenModel>, i: nat) -> ParseErrorModel {
    ParseErrorModel { token: toks[i as int], message: "Expect expression"@ }
}

/// `primary := NUMBER | STRING | "true" | "false" | "nil" | IDENT |
/// "(" expression ")"`; anything else is reported at the offending token
/// and the attempt fails without consuming it.
pub open spec fn spec_primary(toks: Seq<TokenModel>, i: nat) -> ExprStep
    decreases toks.len() - i, 1int,
{
    if i < toks.len() && toks[i as int].token_type == TokenType::False {
        ExprStep {
            res: Ok(ExprModel::Literal(ValModel::VBool(false))),
            next: i + 1,
            errors: Seq::empty(),
        }
    } else if i < toks.len() && toks[i as int].token_type == TokenType::True {
        ExprStep {
            res: Ok(ExprModel::Literal(ValModel::VBool(true))),
            next: i + 1,
            errors: Seq::empty(),
        }
    } else if i < toks.len() && toks[i as int].token_type == TokenType::Nil {
        ExprStep { res: Ok(ExprModel::Literal(ValModel::VNil)), next: i + 1, errors: Seq::empty() }
    } else if i < toks.len() && (toks[i as int].token_type == TokenType::Number || toks[
        i as int
    ].token_type == TokenType::String) {
        ExprStep {
            res: Ok(ExprModel::Literal(toks[i as int].literal)),
            next: i + 1,
            errors: Seq::empty(),
        }
    } else if i < toks.len() && toks[i as int].token_type == TokenType::Identifier {
        ExprStep {
            res: Ok(ExprModel::Variable(toks[i as int])),
            next: i + 1,
            errors: Seq::empty(),
        }
    } else if i < toks.len() && toks[i as int].token_type == TokenType::LeftParen {
        let e = spec_expression(toks, i + 1);
        match e.res {
            Err(_) => ExprStep { res: Err(()), next: e.next, errors: e.errors },
            Ok(inner) => {
                if e.next < toks.len() && toks[e.next as int].token_type == TokenType::RightParen {
                    ExprStep {
                        res: Ok(ExprModel::Grouping(Box::new(inner))),
                        next: e.next + 1,
                        errors: e.errors,
                    }
                } else {
                    ExprStep {
                        res: Err(()),
                        next: e.next,
                        errors: e.errors.push(
                            ParseErrorModel {
                                token: toks[clamp_span(0, e.next, (toks.len() - 1) as nat) as int],
                                message: "Expect ')' after expression."@,
                            },
                        ),
                    }
                }
            },
        }
    } else {
        ExprStep {
            res: Err(()),
            next: i,
            errors: seq![expect_expression_error(toks, i)],
        }
    }
}

/// `unary := ("!" | "-") unary | primary`.
pub open spec fn spec_unary(toks: Seq<TokenModel>, i: nat) -> ExprStep
    decreases toks.len() - i, 2int,
{
    if i < toks.len() && (toks[i as int].token_type == TokenType::Bang || toks[
        i as int
    ].token_type == TokenType::Minus) {
        let op = toks[i as int];
        let r = spec_unary(toks, i + 1);
        match r.res {
            Err(_) => r,
            Ok(right) => ExprStep {
                res: Ok(ExprModel::Unary { operator: op, right: Box::new(right) }),
                next: r.next,
                errors: r.errors,
            },
        }
    } else {
        spec_primary(toks, i)
    }
}

/// The next-tighter production under binary precedence `level`.
pub open spec fn spec_binary_child(toks: Seq<TokenModel>, i: nat, level: nat) -> ExprStep
    decreases toks.len() - i, 2 * level + 3,
{
    if level <= 1 {
        spec_unary(toks, i)
    } else {
        spec_binary(toks, i, (level - 1) as nat)
    }
}

/// Folds further operands of `level` onto `left`, left-associatively, while
/// that level's operators follow.
pub open spec fn spec_binary_rest(toks: Seq<TokenModel>, i: nat, left: ExprModel, level: nat)
    -> ExprStep
    decreases toks.len() - i, 2 * level + 3,
{
    if i < toks.len() && level_ops(level, toks[i as int].token_type) {
        let op = toks[i as int];
        let c = spec_binary_child(toks, i + 1, level);
        match c.res {
            Err(_) => ExprStep { res: Err(()), next: c.next, errors: c.errors },
            Ok(right) => {
                let folded = ExprModel::Binary {
                    left: Box::new(left),
                    operator: op,
                    right: Box::new(right),
                };
                let j = clamp_span(i + 1, c.next, toks.len());
                let r = spec_binary_rest(toks, j, folded, level);
                ExprStep { res: r.res, next: r.next, errors: c.errors + r.errors }
            },
        }
    } else {
        ExprStep { res: Ok(left), next: i, errors: Seq::empty() }
    }
}

/// One binary precedence level: parse the next-tighter level, then fold
/// while this level's operators follow.
pub open spec fn spec_binary(toks: Seq<TokenModel>, i: nat, level: nat) -> ExprStep
    decreases toks.len() - i, 2 * level + 4,
{
    let c = spec_binary_child(toks, i, level);
    match c.res {
        Err(_) => c,
        Ok(left) => {
            let j = clamp_span(i, c.next, toks.len());
            let r = spec_binary_rest(toks, j, left, level);
            ExprStep { res: r.res, next: r.next, errors: c.errors + r.errors }
        },
    }
}

/// `assignment := IDENT "=" assignment | equality`. Only a bare variable
/// reference may stand left of `=`; any other target is reported at the `=`
/// token, the parsed right-hand side is discarded, and the left expression
/// stands.
pub open spec fn spec_assignment(toks: Seq<TokenModel>, i: nat) -> ExprStep
    decreases toks.len() - i, 13int,
{
    let s = spec_binary(toks, i, 4);
    match s.res {
        Err(_) => s,
        Ok(expr) => {
            let j = clamp_span(i, s.next, toks.len());
            if j < toks.len() && toks[j as int].token_type == TokenType::Equal {
                let equals = toks[j as int];
                let v = spec_assignment(toks, j + 1);
                match v.res {
                    Err(_) => ExprStep {
                        res: Err(()),
                        next: v.next,
                        errors: s.errors + v.errors,
                    },
                    Ok(value) => match expr {
                        ExprModel::Variable(name) => ExprStep {
                            res: Ok(ExprModel::Assign(name, Box::new(value))),
                            next: v.next,
                            errors: s.errors + v.errors,
                        },
                        _ => ExprStep {
                            res: Ok(expr),
                            next: v.next,
                            errors: s.errors + v.errors.push(
                                ParseErrorModel {
                                    token: equals,
                                    message: "Invalid assignment target."@,
                                },
                            ),
                        },
                    },
                }
            } else {
                ExprStep { res: Ok(expr), next: j, errors: s.errors }
            }
        },
    }
}

/// `expression := assignment`.
pub open spec fn spec_expression(toks: Seq<TokenModel>, i: nat) -> ExprStep
    decreases toks.len() - i, 14int,
{
    spec_assignment(toks, i)
}

/// `printStmt := "print" expression ";"` — the `print` keyword is already
/// consumed. The semicolon is demanded even when the expression failed.
pub open spec fn spec_print_statement(toks: Seq<TokenModel>, i: nat) -> StmtStep
    decreases toks.len() - i, 15int,
{
    let v = spec_expression(toks, i);
    let j = clamp_span(i, v.next, toks.len());
    if j < toks.len() && toks[j as int].token_type == TokenType::Semicolon {
        match v.res {
            Ok(e) => StmtStep { res: Ok(StmtModel::Print(e)), next: j + 1, errors: v.errors },
            Err(_) => StmtStep { res: Err(()), next: j + 1, errors: v.errors },
        }
    } else {
        StmtStep {
            res: Err(()),
            next: j,
            errors: v.errors.push(
                ParseErrorModel {
                    token: toks[clamp_span(0, j, (toks.len() - 1) as nat) as int],
                    message: "Expect ';' after value."@,
                },
            ),
        }
    }
}

/// `exprStmt := expression ";"`, with the same semicolon policy.
pub open spec fn spec_expression_statement(toks: Seq<TokenModel>, i: nat) -> StmtStep
    decreases toks.len() - i, 15int,
{
    let v = spec_expression(toks, i);
    let j = clamp_span(i, v.next, toks.len());
    if j < toks.len() && toks[j as int].token_type == TokenType::Semicolon {
        match v.res {
            Ok(e) => StmtStep { res: Ok(StmtModel::Expression(e)), next: j + 1, errors: v.errors },
            Err(_) => StmtStep { res: Err(()), next: j + 1, errors: v.errors },
        }
    } else {
        StmtStep {
            res: Err(()),
            next: j,
            errors: v.errors.push(
                ParseErrorModel {
                    token: toks[clamp_span(0, j, (toks.len() - 1) as nat) as int],
                    message: "Expect ';' after expression."@,
                },
            ),
        }
    }
}

/// `varDecl := "var" IDENT ("=" expression)? ";"` — the `var` keyword is
/// already consumed.
pub open spec fn spec_var_declaration(toks: Seq<TokenModel>, i: nat) -> StmtStep
    decreases toks.len() - i, 15int,
{
    if i < toks.len() && toks[i as int].token_type == TokenType::Identifier {
        let name = toks[i as int];
        if i + 1 < toks.len() && toks[i as int + 1].token_type == TokenType::Equal {
            let v = spec_expression(toks, i + 2);
            match v.res {
                Err(_) => StmtStep { res: Err(()), next: v.next, errors: v.errors },
                Ok(init) => {
                    let j = clamp_span(i + 2, v.next, toks.len());
                    if j < toks.len() && toks[j as int].token_type == TokenType::Semicolon {
                        StmtStep {
                            res: Ok(StmtModel::Var(name, Some(init))),
                            next: j + 1,
                            errors: v.errors,
                        }
                    } else {
                        StmtStep {
                            res: Err(()),
                            next: j,
                            errors: v.errors.push(
                                ParseErrorModel {
                                    token: toks[clamp_span(0, j, (toks.len() - 1) as nat) as int],
                                    message: "Expect ';' after variable declaration."@,
                                },
                            ),
                        }
                    }
                },
            }
        } else {
            if i + 1 < toks.len() && toks[i as int + 1].token_type == TokenType::Semicolon {
                StmtStep {
                    res: Ok(StmtModel::Var(name, None)),
                    next: i + 2,
                    errors: Seq::empty(),
                }
            } else {
                StmtStep {
                    res: Err(()),
                    next: i + 1,
                    errors: seq![
                        ParseErrorModel {
                            token: toks[clamp_span(0, i + 1, (toks.len() - 1) as nat) as int],
                            message: "Expect ';' after variable declaration."@,
                        },
                    ],
                }
            }
        }
    } else {
        StmtStep {
            res: Err(()),
            next: i,
            errors: seq![
                ParseErrorModel {
                    token: toks[clamp_span(0, i, (toks.len() - 1) as nat) as int],
                    message: "Expect variable name."@,
                },
            ],
        }
    }
}

/// `block := "{" declaration* "}"` — the opening brace is already consumed.
/// A declaration that fails inside a block is reported and dropped, like a
/// top-level one, and one that consumed nothing is skipped past one token;
/// the closing brace is demanded.
pub open spec fn spec_block_items(
    toks: Seq<TokenModel>,
    i: nat,
    stmts: Seq<StmtModel>,
    errors: Seq<ParseErrorModel>,
) -> StmtStep
    decreases toks.len() - i, 18int,
{
    if i < toks.len() && toks[i as int].token_type != TokenType::RightBrace && toks[
        i as int
    ].token_type != TokenType::EOF {
        let d = spec_declaration(toks, i);
        let j = clamp_span(i + 1, d.next, toks.len());
        spec_block_items(
            toks,
            j,
            match d.res {
                Ok(s) => stmts.push(s),
                Err(_) => stmts,
            },
            errors + d.errors,
        )
    } else {
        if i < toks.len() && toks[i as int].token_type == TokenType::RightBrace {
            StmtStep { res: Ok(StmtModel::Block(stmts)), next: i + 1, errors }
        } else {
            StmtStep {
                res: Err(()),
                next: i,
                errors: errors.push(
                    ParseErrorModel {
                        token: toks[clamp_span(0, i, (toks.len() - 1) as nat) as int],
                        message: "Expect '}' after block."@,
                    },
                ),
            }
        }
    }
}

/// `statement := printStmt | block | exprStmt`.
pub open spec fn spec_statement(toks: Seq<TokenModel>, i: nat) -> StmtStep
    decreases toks.len() - i, 16int,
{
    if i < toks.len() && toks[i as int].token_type == TokenType::Print {
        spec_print_statement(toks, i + 1)
    } else if i < toks.len() && toks[i as int].token_type == TokenType::LeftBrace {
        spec_block_items(toks, i + 1, Seq::empty(), Seq::empty())
    } else {
        spec_expression_statement(toks, i)
    }
}

/// `declaration := varDecl | statement`.
pub open spec fn spec_declaration(toks: Seq<TokenModel>, i: nat) -> StmtStep
    decreases toks.len() - i, 17int,
{
    if i < toks.len() && toks[i as int].token_type == TokenType::Var {
        spec_var_declaration(toks, i + 1)
    } else {
        spec_statement(toks, i)
    }
}

/// A production's resulting position never retreats and never leaves the
/// token list: every clamp in the definitions above is an identity.
pub proof fn lemma_primary_spans(toks: Seq<TokenModel>, i: nat)
    requires
        i <= toks.len(),
    ensures
        i <= spec_primary(toks, i).next <= toks.len(),
    decreases toks.len() - i, 1int,
{
    if i < toks.len() && toks[i as int].token_type == TokenType::LeftParen {
        lemma_expression_spans(toks, i + 1);
    }
}

pub proof fn lemma_unary_spans(toks: Seq<TokenModel>, i: nat)
    requires
        i <= toks.len(),
    ensures
        i <= spec_unary(toks, i).next <= toks.len(),
    decreases toks.len() - i, 2int,
{
    if i < toks.len() && (toks[i as int].token_type == TokenType::Bang || toks[
        i as int
    ].token_type == TokenType::Minus) {
        lemma_unary_spans(toks, i + 1);
    } else {
        lemma_primary_spans(toks, i);
    }
}

pub proof fn lemma_binary_child_spans(toks: Seq<TokenModel>, i: nat, level: nat)
    requires
        i <= toks.len(),
    ensures
        i <= spec_binary_child(toks, i, level).next <= toks.len(),
    decreases toks.len() - i, 2 * level + 3,
{
    if level <= 1 {
        lemma_unary_spans(toks, i);
    } else {
        lemma_binary_spans(toks, i, (level - 1) as nat);
    }
}

pub proof fn lemma_binary_rest_spans(toks: Seq<TokenModel>, i: nat, left: ExprModel, level: nat)
    requires
        i <= toks.len(),
    ensures
        i <= spec_binary_rest(toks, i, left, level).next <= toks.len(),
    decreases toks.len() - i, 2 * level + 3,
{
    if i < toks.len() && level_ops(level, toks[i as int].token_type) {
        let c = spec_binary_child(toks, i + 1, level);
        lemma_binary_child_spans(toks, i + 1, level);
        match c.res {
            Err(_) => {},
            Ok(right) => {
                let folded = ExprModel::Binary {
                    left: Box::new(left),
                    operator: toks[i as int],
                    right: Box::new(right),
                };
                lemma_binary_rest_spans(toks, clamp_span(i + 1, c.next, toks.len()), folded, level);
            },
        }
    }
}

pub proof fn lemma_binary_spans(toks: Seq<TokenModel>, i: nat, level: nat)
    requires
        i <= toks.len(),
    ensures
        i <= spec_binary(toks, i, level).next <= toks.len(),
    decreases toks.len() - i, 2 * level + 4,
{
    let c = spec_binary_child(toks, i, level);
    lemma_binary_child_spans(toks, i, level);
    match c.res {
        Err(_) => {},
        Ok(left) => {
            lemma_binary_rest_spans(toks, clamp_span(i, c.next, toks.len()), left, level);
        },
    }
}

pub proof fn lemma_assignment_spans(toks: Seq<TokenModel>, i: nat)
    requires
        i <= toks.len(),
    ensures
        i <= spec_assignment(toks, i).next <= toks.len(),
    decreases toks.len() - i, 13int,
{
    let s = spec_binary(toks, i, 4);
    lemma_binary_spans(toks, i, 4);
    match s.res {
        Err(_) => {},
        Ok(_) => {
            let j = clamp_span(i, s.next, toks.len());
            if j < toks.len() && toks[j as int].token_type == TokenType::Equal {
                lemma_assignment_spans(toks, j + 1);
            }
        },
    }
}

pub proof fn lemma_expression_spans(toks: Seq<TokenModel>, i: nat)
    requires
        i <= toks.len(),
    ensures
        i <= spec_expression(toks, i).next <= toks.len(),
    decreases toks.len() - i, 14int,
{
    lemma_assignment_spans(toks, i);
}

pub proof fn lemma_block_items_spans(
    toks: Seq<TokenModel>,
    i: nat,
    stmts: Seq<StmtModel>,
    errors: Seq<ParseErrorModel>,
)
    requires
        i <= toks.len(),
    ensures
        i <= spec_block_items(toks, i, stmts, errors).next <= toks.len(),
    decreases toks.len() - i, 18int,
{
    if i < toks.len() && toks[i as int].token_type != TokenType::RightBrace && toks[
        i as int
    ].token_type != TokenType::EOF {
        let d = spec_declaration(toks, i);
        lemma_declaration_spans(toks, i);
        let j = clamp_span(i + 1, d.next, toks.len());
        lemma_block_items_spans(
            toks,
            j,
            match d.res {
                Ok(s) => stmts.push(s),
                Err(_) => stmts,
            },
            errors + d.errors,
        );
    }
}

pub proof fn lemma_statement_spans(toks: Seq<TokenModel>, i: nat)
    requires
        i <= toks.len(),
    ensures
        i <= spec_statement(toks, i).next <= toks.len(),
        i < toks.len() ==> i <= spec_print_statement(toks, i + 1).next <= toks.len(),
    decreases toks.len() - i, 16int,
{
    lemma_expression_spans(toks, i);
    if i < toks.len() {
        lemma_expression_spans(toks, i + 1);
        if toks[i as int].token_type == TokenType::LeftBrace {
            lemma_block_items_spans(toks, i + 1, Seq::empty(), Seq::empty());
        }
    }
}

pub proof fn lemma_declaration_spans(toks: Seq<TokenModel>, i: nat)
    requires
        i <= toks.len(),
    ensures
        i <= spec_declaration(toks, i).next <= toks.len(),
    decreases toks.len() - i, 17int,
{
    lemma_statement_spans(toks, i);
    if i < toks.len() {
        lemma_expression_spans(toks, i + 1);
        if i + 3 <= toks.len() {
            lemma_expression_spans(toks, i + 3);
        }
    }
}

/// What a production parses is well-formed: its operator tokens are the
/// ones the grammar put there, so the interpreter is defined on it.
pub proof fn lemma_primary_wf(toks: Seq<TokenModel>, i: nat)
    ensures
        spec_primary(toks, i).res matches Ok(e) ==> crate::expr::wf_expr(e),
    decreases toks.len() - i, 1int,
{
    if i < toks.len() && toks[i as int].token_type == TokenType::LeftParen {
        lemma_expression_wf(toks, i + 1);
    }
}

pub proof fn lemma_unary_wf(toks: Seq<TokenModel>, i: nat)
    ensures
        spec_unary(toks, i).res matches Ok(e) ==> crate::expr::wf_expr(e),
    decreases toks.len() - i, 2int,
{
    if i < toks.len() && (toks[i as int].token_type == TokenType::Bang || toks[
        i as int
    ].token_type == TokenType::Minus) {
        lemma_unary_wf(toks, i + 1);
    } else {
        lemma_primary_wf(toks, i);
    }
}

pub proof fn lemma_binary_child_wf(toks: Seq<TokenModel>, i: nat, level: nat)
    ensures
        spec_binary_child(toks, i, level).res matches Ok(e) ==> crate::expr::wf_expr(e),
    decreases toks.len() - i, 2 * level + 3,
{
    if level <= 1 {
        lemma_unary_wf(toks, i);
    } else {
        lemma_binary_wf(toks, i, (level - 1) as nat);
    }
}

pub proof fn lemma_binary_rest_wf(toks: Seq<TokenModel>, i: nat, left: ExprModel, level: nat)
    requires
        crate::expr::wf_expr(left),
    ensures
        spec_binary_rest(toks, i, left, level).res matches Ok(e) ==> crate::expr::wf_expr(e),
    decreases toks.len() - i, 2 * level + 3,
{
    if i < toks.len() && level_ops(level, toks[i as int].token_type) {
        let c = spec_binary_child(toks, i + 1, level);
        lemma_binary_child_wf(toks, i + 1, level);
        match c.res {
            Err(_) => {},
            Ok(right) => {
                let folded = ExprModel::Binary {
                    left: Box::new(left),
                    operator: toks[i as int],
                    right: Box::new(right),
                };
                assert(crate::expr::is_binary_operator(toks[i as int].token_type));
                lemma_binary_rest_wf(toks, clamp_span(i + 1, c.next, toks.len()), folded, level);
            },
        }
    }
}

pub proof fn lemma_binary_wf(toks: Seq<TokenModel>, i: nat, level: nat)
    ensures
        spec_binary(toks, i, level).res matches Ok(e) ==> crate::expr::wf_expr(e),
    decreases toks.len() - i, 2 * level + 4,
{
    let c = spec_binary_child(toks, i, level);
    lemma_binary_child_wf(toks, i, level);
    match c.res {
        Err(_) => {},
        Ok(left) => {
            lemma_binary_rest_wf(toks, clamp_span(i, c.next, toks.len()), left, level);
        },
    }
}

pub proof fn lemma_assignment_wf(toks: Seq<TokenModel>, i: nat)
    ensures
        spec_assignment(toks, i).res matches Ok(e) ==> crate::expr::wf_expr(e),
    decreases toks.len() - i, 13int,
{
    let s = spec_binary(toks, i, 4);
    lemma_binary_wf(toks, i, 4);
    match s.res {
        Err(_) => {},
        Ok(_) => {
            let j = clamp_span(i, s.next, toks.len());
            if j < toks.len() && toks[j as int].token_type == TokenType::Equal {
                lemma_assignment_wf(toks, j + 1);
            }
        },
    }
}

pub proof fn lemma_expression_wf(toks: Seq<TokenModel>, i: nat)
    ensures
        spec_expression(toks, i).res matches Ok(e) ==> crate::expr::wf_expr(e),
    decreases toks.len() - i, 14int,
{
    lemma_assignment_wf(toks, i);
}

pub proof fn lemma_block_items_wf(
    toks: Seq<TokenModel>,
    i: nat,
    stmts: Seq<StmtModel>,
    errors: Seq<ParseErrorModel>,
)
    requires
        crate::stmt::wf_stmts(stmts),
    ensures
        spec_block_items(toks, i, stmts, errors).res matches Ok(s) ==> crate::stmt::wf_stmt(s),
    decreases toks.len() - i, 18int,
{
    if i < toks.len() && toks[i as int].token_type != TokenType::RightBrace && toks[
        i as int
    ].token_type != TokenType::EOF {
        let d = spec_declaration(toks, i);
        lemma_declaration_wf(toks, i);
        let j = clamp_span(i + 1, d.next, toks.len());
        let stmts2 = match d.res {
            Ok(s) => stmts.push(s),
            Err(_) => stmts,
        };
        assert(crate::stmt::wf_stmts(stmts2)) by {
            match d.res {
                Ok(s) => {
                    assert(forall|k: int|
                        0 <= k < stmts.len() ==> stmts.push(s)[k] == #[trigger] stmts[k]);
                    assert(stmts.push(s)[stmts.len() as int] == s);
                },
                Err(_) => {},
            }
        };
        lemma_block_items_wf(toks, j, stmts2, errors + d.errors);
    }
}

pub proof fn lemma_statement_wf(toks: Seq<TokenModel>, i: nat)
    ensures
        spec_statement(toks, i).res matches Ok(s) ==> crate::stmt::wf_stmt(s),
        i < toks.len() ==> (spec_print_statement(toks, i + 1).res matches Ok(s)
            ==> crate::stmt::wf_stmt(s)),
    decreases toks.len() - i, 16int,
{
    lemma_expression_wf(toks, i);
    if i < toks.len() {
        lemma_expression_wf(toks, i + 1);
        if toks[i as int].token_type == TokenType::LeftBrace {
            assert(crate::stmt::wf_stmts(Seq::<StmtModel>::empty()));
            lemma_block_items_wf(toks, i + 1, Seq::empty(), Seq::empty());
        }
    }
}

pub proof fn lemma_declaration_wf(toks: Seq<TokenModel>, i: nat)
    ensures
        spec_declaration(toks, i).res matches Ok(s) ==> crate::stmt::wf_stmt(s),
    decreases toks.len() - i, 17int,
{
    lemma_statement_wf(toks, i);
    if i < toks.len() {
        lemma_expression_wf(toks, i + 1);
        lemma_expression_wf(toks, i + 3);
    }
}

/// Everything a whole parse yields is well-formed.
pub proof fn lemma_parse_wf(
    toks: Seq<TokenModel>,
    i: nat,
    stmts: Seq<StmtModel>,
    errors: Seq<ParseErrorModel>,
)
    requires
        crate::stmt::wf_stmts(stmts),
    ensures
        crate::stmt::wf_stmts(spec_parse(toks, i, stmts, errors).0),
    decreases toks.len() - i,
{
    if i >= toks.len() || toks[i as int].token_type == TokenType::EOF {
    } else {
        let d = spec_declaration(toks, i);
        lemma_declaration_wf(toks, i);
        let j = clamp_span(i + 1, d.next, toks.len());
        let stmts2 = match d.res {
            Ok(s) => stmts.push(s),
            Err(_) => stmts,
        };
        assert(crate::stmt::wf_stmts(stmts2)) by {
            match d.res {
                Ok(s) => {
                    assert(forall|k: int|
                        0 <= k < stmts.len() ==> stmts.push(s)[k] == #[trigger] stmts[k]);
                    assert(stmts.push(s)[stmts.len() as int] == s);
                },
                Err(_) => {},
            }
        };
        lemma_parse_wf(toks, j, stmts2, errors + d.errors);
    }
}

/// The whole parse: declarations until the end-of-input token, each failing
/// declaration dropped from the result; a declaration that consumed nothing
/// is skipped past one token so parsing always reaches the end.
pub open spec fn spec_parse(
    toks: Seq<TokenModel>,
    i: nat,
    stmts: Seq<StmtModel>,
    errors: Seq<ParseErrorModel>,
) -> (Seq<StmtModel>, Seq<ParseErrorModel>)
    decreases toks.len() - i,
{
    if i >= toks.len() || toks[i as int].token_type == TokenType::EOF {
        (stmts, errors)
    } else {
        let d = spec_declaration(toks, i);
        let j = clamp_span(i + 1, d.next, toks.len());
        spec_parse(
            toks,
            j,
            match d.res {
                Ok(s) => stmts.push(s),
                Err(_) => stmts,
            },
            errors + d.errors,
        )
    }
}

/// What a production's errors add to the host-facing state: each becomes a
/// diagnostic line, and any at all sets the error flag.
pub open spec fn lox_after_parse_errors(
    m: crate::LoxModel,
    errs: Seq<ParseErrorModel>,
) -> crate::LoxModel {
    crate::LoxModel {
        had_error: m.had_error || errs.len() > 0,
        diagnostics: m.diagnostics + errs.map_values(|e: ParseErrorModel| parse_error_diagnostic(e)),
        ..m
    }
}

pub proof fn lemma_lox_errors_empty(m: crate::LoxModel)
    ensures
        lox_after_parse_errors(m, Seq::empty()) == m,
{
    assert(Seq::<ParseErrorModel>::empty().map_values(
        |e: ParseErrorModel| parse_error_diagnostic(e),
    ) =~= Seq::<Seq<char>>::empty());
    assert(m.diagnostics + Seq::<Seq<char>>::empty() =~= m.diagnostics);
}

pub proof fn lemma_lox_errors_concat(m: crate::LoxModel, a: Seq<ParseErrorModel>, b: Seq<
    ParseErrorModel,
>)
    ensures
        lox_after_parse_errors(lox_after_parse_errors(m, a), b) == lox_after_parse_errors(m, a + b),
{
    let f = |e: ParseErrorModel| parse_error_diagnostic(e);
    assert((a + b).map_values(f) =~= a.map_values(f) + b.map_values(f));
    assert(m.diagnostics + a.map_values(f) + b.map_values(f) =~= m.diagnostics + (a.map_values(f)
        + b.map_values(f)));
}

pub proof fn lemma_lox_errors_push(m: crate::LoxModel, a: Seq<ParseErrorModel>, e: ParseErrorModel)
    ensures
        lox_after_parse_errors(lox_after_parse_errors(m, a), seq![e]) == lox_after_parse_errors(
            m,
            a.push(e),
        ),
{
    lemma_lox_errors_concat(m, a, seq![e]);
    assert(a + seq![e] =~= a.push(e));
}

/// One parse-time failure; the diagnostic was already reported when it is
/// returned.
#[derive(Debug)]
pub struct ParserError;

/// A well-formed token list for parsing: what the scanner hands over — at
/// least the end-of-input token, which is the last and only the last.
pub open spec fn tokens_wf(toks: Seq<TokenModel>) -> bool {
    &&& toks.len() >= 1
    &&& toks.last().token_type == TokenType::EOF
    &&& forall|j: int| 0 <= j < toks.len() - 1 ==> (#[trigger] toks[j]).token_type != TokenType::EOF
}

/// Mathematical model of the parser's cursor state.
pub struct ParserModel {
    pub tokens: Seq<TokenModel>,
    pub current: nat,
}

/// The parser: the token list and a cursor into it.
pub struct Parser {
    tokens: Vec<Token>,
    current: usize,
}

impl View for Parser {
    type V = ParserModel;

    closed spec fn view(&self) -> ParserModel {
        ParserModel {
            tokens: crate::scanner::tokens_model(self.tokens@),
            current: self.current as nat,
        }
    }
}

impl Parser {
    /// The cursor never leaves the token list: it stops on the end-of-input
    /// token.
    pub open spec fn wf(&self) -> bool {
        &&& tokens_wf(self@.tokens)
        &&& self@.current < self@.tokens.len()
    }

    /// A parser at the first of `tokens`, which must end with the
    /// end-of-input token the scanner always appends.
    pub fn new(tokens: Vec<Token>) -> (r: Self)
        requires
            tokens_wf(crate::scanner::tokens_model(tokens@)),
        ensures
            r@ == (ParserModel {
                tokens: crate::scanner::tokens_model(tokens@),
                current: 0,
            }),
            r.wf(),
    {
        Parser { tokens, current: 0 }
    }

    fn peek_type(&self) -> (t: TokenType)
        requires
            self.wf(),
        ensures
            t == self@.tokens[self@.current as int].token_type,
    {
        self.tokens[self.current].token_type
    }

    fn peek_clone(&self) -> (t: Token)
        requires
            self.wf(),
        ensures
            t@ == self@.tokens[self@.current as int],
    {
        self.tokens[self.current].clone()
    }

    fn is_at_end(&self) -> (r: bool)
        requires
            self.wf(),
        ensures
            r == (self@.current == self@.tokens.len() - 1),
    {
        proof {
            assert(self@.tokens.last() == self@.tokens[self@.tokens.len() - 1]);
            assert(self@.tokens[self@.current as int] == self.tokens@[self@.current as int]@);
        }
        let r = self.tokens[self.current].token_type == TokenType::EOF;
        proof {
            if self@.current < self@.tokens.len() - 1 {
                assert(self@.tokens[self@.current as int].token_type != TokenType::EOF);
            }
        }
        r
    }

    fn advance(&mut self)
        requires
            old(self).wf(),
        ensures
            final(self).wf(),
            final(self)@.tokens == old(self)@.tokens,
            final(self)@.current == (if old(self)@.current < old(self)@.tokens.len() - 1 {
                old(self)@.current + 1
            } else {
                old(self)@.current
            }),
    {
        let n = self.tokens.len();
        if !self.is_at_end() {
            proof {
                assert(self@.current < n);
            }
            self.current = self.current + 1;
        }
    }

    /// Whether the next token has type `t`; the end-of-input token matches
    /// nothing asked about.
    fn check(&self, t: TokenType) -> (r: bool)
        requires
            self.wf(),
            t != TokenType::EOF,
        ensures
            r == (self@.tokens[self@.current as int].token_type == t),
    {
        if self.is_at_end() {
            proof {
                assert(self@.tokens.last() == self@.tokens[self@.tokens.len() - 1]);
            }
            return false;
        }
        self.peek_type() == t
    }

    /// Consumes the next token if it has type `t`.
    fn match_type(&mut self, t: TokenType) -> (r: bool)
        requires
            old(self).wf(),
            t != TokenType::EOF,
        ensures
            final(self).wf(),
            final(self)@.tokens == old(self)@.tokens,
            r == (old(self)@.tokens[old(self)@.current as int].token_type == t),
            r ==> final(self)@.current == old(self)@.current + 1 && old(self)@.current < old(
                self,
            )@.tokens.len() - 1,
            !r ==> final(self)@.current == old(self)@.current,
    {
        if self.check(t) {
            proof {
                assert(self@.tokens.last() == self@.tokens[self@.tokens.len() - 1]);
            }
            self.advance();
            true
        } else {
            false
        }
    }

    /// Demands the next token to have type `t`: consumed and returned, or a
    /// failure reported at the offending token with `message`.
    fn consume(&mut self, lox: &mut Lox, t: TokenType, message: &str) -> (r: Result<
        Token,
        ParserError,
    >)
        requires
            old(self).wf(),
            t != TokenType::EOF,
        ensures
            final(self).wf(),
            final(self)@.tokens == old(self)@.tokens,
            if old(self)@.tokens[old(self)@.current as int].token_type == t {
                &&& r is Ok
                &&& r->Ok_0@ == old(self)@.tokens[old(self)@.current as int]
                &&& final(self)@.current == old(self)@.current + 1
                &&& final(lox)@ == old(lox)@
            } else {
                &&& r is Err
                &&& final(self)@.current == old(self)@.current
                &&& final(lox)@ == lox_after_parse_errors(
                    old(lox)@,
                    seq![
                        ParseErrorModel {
                            token: old(self)@.tokens[old(self)@.current as int],
                            message: message@,
                        },
                    ],
                )
            },
    {
        if self.check(t) {
            let tok = self.peek_clone();
            self.advance();
            proof {
                assert(old(self)@.tokens.last() == old(self)@.tokens[old(
                    self,
                )@.tokens.len() - 1]);
            }
            Ok(tok)
        } else {
            let tok = self.peek_clone();
            lox.error_token(&tok, message);
            proof {
                let e = ParseErrorModel {
                    token: old(self)@.tokens[old(self)@.current as int],
                    message: message@,
                };
                assert(seq![e].map_values(|e: ParseErrorModel| parse_error_diagnostic(e))
                    =~= seq![parse_error_diagnostic(e)]);
                assert(old(lox)@.diagnostics.push(parse_error_diagnostic(e)) =~= old(
                    lox,
                )@.diagnostics + seq![e].map_values(
                    |e: ParseErrorModel| parse_error_diagnostic(e),
                ));
            }
            Err(ParserError)
        }
    }

    /// `primary := NUMBER | STRING | "true" | "false" | "nil" | IDENT |
    /// "(" expression ")"`, as `spec_primary` lays down.
    #[verifier::loop_isolation(false)]
    fn primary(&mut self, lox: &mut Lox) -> (r: Result<Expr, ParserError>)
        requires
            old(self).wf(),
        ensures
            final(self).wf(),
            final(self)@.tokens == old(self)@.tokens,
            ({
                let s = spec_primary(old(self)@.tokens, old(self)@.current);
                &&& final(self)@.current == s.next
                &&& final(lox)@ == lox_after_parse_errors(old(lox)@, s.errors)
                &&& match s.res {
                    Ok(e) => r is Ok && r->Ok_0@ == e,
                    Err(_) => r is Err,
                }
            }),
        decreases old(self)@.tokens.len() - old(self)@.current, 1int,
    {
        proof {
            lemma_lox_errors_empty(old(lox)@);
        }
        if self.match_type(TokenType::False) {
            return Ok(Expr::Literal(LiteralVal::Boolean(false)));
        }
        if self.match_type(TokenType::True) {
            return Ok(Expr::Literal(LiteralVal::Boolean(true)));
        }
        if self.match_type(TokenType::Nil) {
            return Ok(Expr::Literal(LiteralVal::Nil));
        }
        if self.match_type(TokenType::Number) || self.match_type(TokenType::String) {
            let lit = self.tokens[self.current - 1].literal.clone();
            return Ok(Expr::Literal(lit));
        }
        if self.match_type(TokenType::Identifier) {
            let name = self.tokens[self.current - 1].clone();
            return Ok(Expr::Variable(name));
        }
        if self.match_type(TokenType::LeftParen) {
            let ghost toks = self@.tokens;
            let inner = match self.expression(lox) {
                Ok(e) => e,
                Err(e) => {
                    return Err(e);
                },
            };
            proof {
                lemma_expression_spans(toks, old(self)@.current + 1);
            }
            match self.consume(lox, TokenType::RightParen, "Expect ')' after expression.") {
                Ok(_) => {
                    return Ok(Expr::Grouping(Box::new(inner)));
                },
                Err(_) => {
                    proof {
                        let e_step = spec_expression(toks, old(self)@.current + 1);
                        lemma_lox_errors_push(
                            old(lox)@,
                            e_step.errors,
                            ParseErrorModel {
                                token: toks[clamp_span(
                                    0,
                                    e_step.next,
                                    (toks.len() - 1) as nat,
                                ) as int],
                                message: "Expect ')' after expression."@,
                            },
                        );
                    }
                    return Err(ParserError);
                },
            }
        }
        let tok = self.peek_clone();
        lox.error_token(&tok, "Expect expression");
        proof {
            let e = expect_expression_error(old(self)@.tokens, old(self)@.current);
            assert(seq![e].map_values(|e: ParseErrorModel| parse_error_diagnostic(e))
                =~= seq![parse_error_diagnostic(e)]);
            assert(old(lox)@.diagnostics.push(parse_error_diagnostic(e)) =~= old(
                lox,
            )@.diagnostics + seq![e].map_values(|e: ParseErrorModel| parse_error_diagnostic(e)));
        }
        Err(ParserError)
    }

    /// `unary := ("!" | "-") unary | primary`, as `spec_unary` lays down.
    fn unary(&mut self, lox: &mut Lox) -> (r: Result<Expr, ParserError>)
        requires
            old(self).wf(),
        ensures
            final(self).wf(),
            final(self)@.tokens == old(self)@.tokens,
            ({
                let s = spec_unary(old(self)@.tokens, old(self)@.current);
                &&& final(self)@.current == s.next
                &&& final(lox)@ == lox_after_parse_errors(old(lox)@, s.errors)
                &&& match s.res {
                    Ok(e) => r is Ok && r->Ok_0@ == e,
                    Err(_) => r is Err,
                }
            }),
        decreases old(self)@.tokens.len() - old(self)@.current, 2int,
    {
        if self.match_type(TokenType::Bang) || self.match_type(TokenType::Minus) {
            let operator = self.tokens[self.current - 1].clone();
            let right = match self.unary(lox) {
                Ok(e) => e,
                Err(e) => {
                    return Err(e);
                },
            };
            return Ok(Expr::Unary { operator, right: Box::new(right) });
        }
        self.primary(lox)
    }

    /// Whether the next token folds at binary precedence `level`.
    fn match_level_op(&mut self, level: u8) -> (r: bool)
        requires
            old(self).wf(),
            1 <= level <= 4,
        ensures
            final(self).wf(),
            final(self)@.tokens == old(self)@.tokens,
            r == level_ops(
                level as nat,
                old(self)@.tokens[old(self)@.current as int].token_type,
            ),
            r ==> final(self)@.current == old(self)@.current + 1 && old(self)@.current < old(
                self,
            )@.tokens.len() - 1,
            !r ==> final(self)@.current == old(self)@.current,
    {
        if level == 4 {
            self.match_type(TokenType::BangEqual) || self.match_type(TokenType::EqualEqual)
        } else if level == 3 {
            self.match_type(TokenType::Greater) || self.match_type(TokenType::GreaterEqual)
                || self.match_type(TokenType::Less) || self.match_type(TokenType::LessEqual)
        } else if level == 2 {
            self.match_type(TokenType::Plus) || self.match_type(TokenType::Minus)
        } else {
            self.match_type(TokenType::Slash) || self.match_type(TokenType::Star)
        }
    }

    /// One binary precedence level: `spec_binary` for this `level`.
    #[verifier::loop_isolation(false)]
    fn binary(&mut self, lox: &mut Lox, level: u8) -> (r: Result<Expr, ParserError>)
        requires
            old(self).wf(),
            1 <= level <= 4,
        ensures
            final(self).wf(),
            final(self)@.tokens == old(self)@.tokens,
            ({
                let s = spec_binary(old(self)@.tokens, old(self)@.current, level as nat);
                &&& final(self)@.current == s.next
                &&& final(lox)@ == lox_after_parse_errors(old(lox)@, s.errors)
                &&& match s.res {
                    Ok(e) => r is Ok && r->Ok_0@ == e,
                    Err(_) => r is Err,
                }
            }),
        decreases old(self)@.tokens.len() - old(self)@.current, 2 * level as int + 4,
    {
        let ghost toks = self@.tokens;
        let ghost i0 = self@.current;
        let c = if level == 1 {
            self.unary(lox)
        } else {
            self.binary(lox, level - 1)
        };
        proof {
            lemma_binary_child_spans(toks, i0, level as nat);
        }
        let mut expr = match c {
            Ok(e) => e,
            Err(e) => {
                return Err(e);
            },
        };
        let ghost mut errs = spec_binary_child(toks, i0, level as nat).errors;
        while self.match_level_op(level)
            invariant
                self.wf(),
                1 <= level <= 4,
                self@.tokens == toks,
                i0 <= self@.current <= toks.len(),
                lox@ == lox_after_parse_errors(old(lox)@, errs),
                spec_binary(toks, i0, level as nat) == ({
                    let r = spec_binary_rest(toks, self@.current, expr@, level as nat);
                    ExprStep { res: r.res, next: r.next, errors: errs + r.errors }
                }),
            decreases toks.len() - self@.current,
        {
            let ghost cur0 = (self@.current - 1) as nat;
            let operator = self.tokens[self.current - 1].clone();
            let ghost errs_before = errs;
            let ghost expr_before = expr@;
            let c2 = if level == 1 {
                self.unary(lox)
            } else {
                self.binary(lox, level - 1)
            };
            proof {
                lemma_binary_child_spans(toks, cur0 + 1, level as nat);
                let cstep = spec_binary_child(toks, cur0 + 1, level as nat);
                errs = errs_before + cstep.errors;
                lemma_lox_errors_concat(old(lox)@, errs_before, cstep.errors);
            }
            let right = match c2 {
                Ok(e) => e,
                Err(e) => {
                    proof {
                        let rrest = spec_binary_rest(toks, cur0, expr_before, level as nat);
                        let cstep = spec_binary_child(toks, cur0 + 1, level as nat);
                        assert(rrest.res is Err && rrest.next == cstep.next && rrest.errors
                            == cstep.errors);
                    }
                    return Err(e);
                },
            };
            expr = Expr::Binary { left: Box::new(expr), operator, right: Box::new(right) };
            proof {
                let cstep = spec_binary_child(toks, cur0 + 1, level as nat);
                let folded = spec_binary_rest(
                    toks,
                    clamp_span(cur0 + 1, cstep.next, toks.len()),
                    expr@,
                    level as nat,
                );
                assert(clamp_span(cur0 + 1, cstep.next, toks.len()) == cstep.next);
                assert(spec_binary_rest(toks, cur0, expr_before, level as nat) == (ExprStep {
                    res: folded.res,
                    next: folded.next,
                    errors: cstep.errors + folded.errors,
                }));
                assert(errs_before + (cstep.errors + folded.errors) =~= errs + folded.errors);
            }
        }
        proof {
            assert(spec_binary_rest(toks, self@.current, expr@, level as nat) == (ExprStep {
                res: Ok::<ExprModel, ()>(expr@),
                next: self@.current,
                errors: Seq::<ParseErrorModel>::empty(),
            }));
            assert(errs + Seq::<ParseErrorModel>::empty() =~= errs);
        }
        Ok(expr)
    }

    /// `assignment := IDENT "=" assignment | equality`, as `spec_assignment`
    /// lays down: an assignment target that is not a bare variable reference
    /// is reported at the `=` token and the left expression stands.
    fn assignment(&mut self, lox: &mut Lox) -> (r: Result<Expr, ParserError>)
        requires
            old(self).wf(),
        ensures
            final(self).wf(),
            final(self)@.tokens == old(self)@.tokens,
            ({
                let s = spec_assignment(old(self)@.tokens, old(self)@.current);
                &&& final(self)@.current == s.next
                &&& final(lox)@ == lox_after_parse_errors(old(lox)@, s.errors)
                &&& match s.res {
                    Ok(e) => r is Ok && r->Ok_0@ == e,
                    Err(_) => r is Err,
                }
            }),
        decreases old(self)@.tokens.len() - old(self)@.current, 13int,
    {
        let ghost toks = self@.tokens;
        let ghost i0 = self@.current;
        let expr = match self.binary(lox, 4) {
            Ok(e) => e,
            Err(e) => {
                return Err(e);
            },
        };
        proof {
            lemma_binary_spans(toks, i0, 4);
        }
        let ghost s = spec_binary(toks, i0, 4);
        if self.match_type(TokenType::Equal) {
            let equals = self.tokens[self.current - 1].clone();
            let ghost j = (self@.current - 1) as nat;
            let value = match self.assignment(lox) {
                Ok(v) => v,
                Err(e) => {
                    proof {
                        lemma_lox_errors_concat(
                            old(lox)@,
                            s.errors,
                            spec_assignment(toks, j + 1).errors,
                        );
                    }
                    return Err(e);
                },
            };
            proof {
                lemma_lox_errors_concat(old(lox)@, s.errors, spec_assignment(toks, j + 1).errors);
            }
            match expr {
                Expr::Variable(name) => {
                    return Ok(Expr::Assign(name, Box::new(value)));
                },
                _ => {
                    let ghost pre = lox@;
                    lox.error_token(&equals, "Invalid assignment target.");
                    proof {
                        let v = spec_assignment(toks, j + 1);
                        let e = ParseErrorModel {
                            token: toks[j as int],
                            message: "Invalid assignment target."@,
                        };
                        let f = |e: ParseErrorModel| parse_error_diagnostic(e);
                        assert(seq![e].map_values(f) =~= seq![parse_error_diagnostic(e)]);
                        assert(pre.diagnostics.push(parse_error_diagnostic(e)) =~= pre.diagnostics
                            + seq![e].map_values(f));
                        assert(lox@ == lox_after_parse_errors(pre, seq![e]));
                        assert(pre == lox_after_parse_errors(old(lox)@, s.errors + v.errors));
                        lemma_lox_errors_push(old(lox)@, s.errors + v.errors, e);
                        assert((s.errors + v.errors).push(e) =~= s.errors + v.errors.push(e));
                    }
                    return Ok(expr);
                },
            }
        }
        Ok(expr)
    }

    /// `expression := assignment`.
    fn expression(&mut self, lox: &mut Lox) -> (r: Result<Expr, ParserError>)
        requires
            old(self).wf(),
        ensures
            final(self).wf(),
            final(self)@.tokens == old(self)@.tokens,
            ({
                let s = spec_expression(old(self)@.tokens, old(self)@.current);
                &&& final(self)@.current == s.next
                &&& final(lox)@ == lox_after_parse_errors(old(lox)@, s.errors)
                &&& match s.res {
                    Ok(e) => r is Ok && r->Ok_0@ == e,
                    Err(_) => r is Err,
                }
            }),
        decreases old(self)@.tokens.len() - old(self)@.current, 14int,
    {
        self.assignment(lox)
    }

    /// `printStmt := "print" expression ";"` — the keyword is consumed.
    fn print_statement(&mut self, lox: &mut Lox) -> (r: Result<Stmt, ParserError>)
        requires
            old(self).wf(),
        ensures
            final(self).wf(),
            final(self)@.tokens == old(self)@.tokens,
            ({
                let s = spec_print_statement(old(self)@.tokens, old(self)@.current);
                &&& final(self)@.current == s.next
                &&& final(lox)@ == lox_after_parse_errors(old(lox)@, s.errors)
                &&& match s.res {
                    Ok(st) => r is Ok && r->Ok_0@ == st,
                    Err(_) => r is Err,
                }
            }),
    {
        let ghost toks = self@.tokens;
        let ghost i0 = self@.current;
        let value = self.expression(lox);
        proof {
            lemma_expression_spans(toks, i0);
        }
        let ghost v = spec_expression(toks, i0);
        match self.consume(lox, TokenType::Semicolon, "Expect ';' after value.") {
            Err(_) => {
                proof {
                    lemma_lox_errors_push(
                        old(lox)@,
                        v.errors,
                        ParseErrorModel {
                            token: toks[v.next as int],
                            message: "Expect ';' after value."@,
                        },
                    );
                }
                return Err(ParserError);
            },
            Ok(_) => {},
        }
        match value {
            Ok(e) => Ok(Stmt::Print(e)),
            Err(_) => Err(ParserError),
        }
    }

    /// `exprStmt := expression ";"`.
    fn expression_statement(&mut self, lox: &mut Lox) -> (r: Result<Stmt, ParserError>)
        requires
            old(self).wf(),
        ensures
            final(self).wf(),
            final(self)@.tokens == old(self)@.tokens,
            ({
                let s = spec_expression_statement(old(self)@.tokens, old(self)@.current);
                &&& final(self)@.current == s.next
                &&& final(lox)@ == lox_after_parse_errors(old(lox)@, s.errors)
                &&& match s.res {
                    Ok(st) => r is Ok && r->Ok_0@ == st,
                    Err(_) => r is Err,
                }
            }),
    {
        let ghost toks = self@.tokens;
        let ghost i0 = self@.current;
        let value = self.expression(lox);
        proof {
            lemma_expression_spans(toks, i0);
        }
        let ghost v = spec_expression(toks, i0);
        match self.consume(lox, TokenType::Semicolon, "Expect ';' after expression.") {
            Err(_) => {
                proof {
                    lemma_lox_errors_push(
                        old(lox)@,
                        v.errors,
                        ParseErrorModel {
                            token: toks[v.next as int],
                            message: "Expect ';' after expression."@,
                        },
                    );
                }
                return Err(ParserError);
            },
            Ok(_) => {},
        }
        match value {
            Ok(e) => Ok(Stmt::Expression(e)),
            Err(_) => Err(ParserError),
        }
    }

    /// `varDecl := "var" IDENT ("=" expression)? ";"` — the keyword is
    /// consumed.
    fn var_declaration(&mut self, lox: &mut Lox) -> (r: Result<Stmt, ParserError>)
        requires
            old(self).wf(),
        ensures
            final(self).wf(),
            final(self)@.tokens == old(self)@.tokens,
            ({
                let s = spec_var_declaration(old(self)@.tokens, old(self)@.current);
                &&& final(self)@.current == s.next
                &&& final(lox)@ == lox_after_parse_errors(old(lox)@, s.errors)
                &&& match s.res {
                    Ok(st) => r is Ok && r->Ok_0@ == st,
                    Err(_) => r is Err,
                }
            }),
    {
        let ghost toks = self@.tokens;
        let ghost i0 = self@.current;
        let name = match self.consume(lox, TokenType::Identifier, "Expect variable name.") {
            Ok(t) => t,
            Err(_) => {
                proof {
                    lemma_lox_errors_empty(old(lox)@);
                    lemma_lox_errors_push(
                        old(lox)@,
                        Seq::empty(),
                        ParseErrorModel {
                            token: toks[i0 as int],
                            message: "Expect variable name."@,
                        },
                    );
                    assert(Seq::<ParseErrorModel>::empty().push(
                        ParseErrorModel {
                            token: toks[i0 as int],
                            message: "Expect variable name."@,
                        },
                    ) =~= seq![
                        ParseErrorModel {
                            token: toks[i0 as int],
                            message: "Expect variable name."@,
                        },
                    ]);
                }
                return Err(ParserError);
            },
        };
        let mut initializer: Option<Expr> = None;
        let ghost has_init = self@.tokens[self@.current as int].token_type == TokenType::Equal;
        let ghost v = spec_expression(toks, i0 + 2);
        if self.match_type(TokenType::Equal) {
            match self.expression(lox) {
                Ok(e) => {
                    initializer = Some(e);
                },
                Err(e) => {
                    return Err(e);
                },
            }
            proof {
                lemma_expression_spans(toks, i0 + 2);
            }
        }
        let ghost errs_so_far: Seq<ParseErrorModel> = if has_init {
            v.errors
        } else {
            Seq::empty()
        };
        proof {
            if !has_init {
                lemma_lox_errors_empty(old(lox)@);
            }
        }
        match self.consume(lox, TokenType::Semicolon, "Expect ';' after variable declaration.") {
            Ok(_) => Ok(Stmt::Var(name, initializer)),
            Err(_) => {
                proof {
                    let e = ParseErrorModel {
                        token: toks[final(self)@.current as int],
                        message: "Expect ';' after variable declaration."@,
                    };
                    lemma_lox_errors_push(old(lox)@, errs_so_far, e);
                    if !has_init {
                        assert(Seq::<ParseErrorModel>::empty().push(e) =~= seq![e]);
                    }
                }
                Err(ParserError)
            },
        }
    }

    /// `block := "{" declaration* "}"` — the opening brace is consumed.
    #[verifier::loop_isolation(false)]
    fn block_items(&mut self, lox: &mut Lox) -> (r: Result<Stmt, ParserError>)
        requires
            old(self).wf(),
        ensures
            final(self).wf(),
            final(self)@.tokens == old(self)@.tokens,
            ({
                let s = spec_block_items(
                    old(self)@.tokens,
                    old(self)@.current,
                    Seq::empty(),
                    Seq::empty(),
                );
                &&& final(self)@.current == s.next
                &&& final(lox)@ == lox_after_parse_errors(old(lox)@, s.errors)
                &&& match s.res {
                    Ok(st) => r is Ok && r->Ok_0@ == st,
                    Err(_) => r is Err,
                }
            }),
        decreases old(self)@.tokens.len() - old(self)@.current, 18int,
    {
        let ghost toks = self@.tokens;
        let ghost i0 = self@.current;
        let mut statements: Vec<Stmt> = Vec::new();
        let ghost mut errs: Seq<ParseErrorModel> = Seq::empty();
        proof {
            assert(crate::stmt::stmts_model(statements@) =~= Seq::<StmtModel>::empty());
            lemma_lox_errors_empty(old(lox)@);
        }
        while !self.check(TokenType::RightBrace) && !self.is_at_end()
            invariant
                self.wf(),
                self@.tokens == toks,
                i0 <= self@.current,
                lox@ == lox_after_parse_errors(old(lox)@, errs),
                spec_block_items(toks, i0, Seq::empty(), Seq::empty()) == spec_block_items(
                    toks,
                    self@.current,
                    crate::stmt::stmts_model(statements@),
                    errs,
                ),
            decreases toks.len() - self@.current,
        {
            let before = self.current;
            let ghost pre_cur = self@.current;
            let ghost pre_errs = errs;
            proof {
                assert(toks.last() == toks[toks.len() - 1]);
            }
            let d = self.declaration(lox);
            let ghost dstep = spec_declaration(toks, pre_cur);
            proof {
                lemma_declaration_spans(toks, pre_cur);
                errs = pre_errs + dstep.errors;
                lemma_lox_errors_concat(old(lox)@, pre_errs, dstep.errors);
            }
            match d {
                Ok(s) => {
                    proof {
                        crate::stmt::lemma_stmts_model_push(statements@, s);
                    }
                    statements.push(s);
                },
                Err(_) => {},
            }
            if self.current == before {
                self.advance();
            }
            proof {
                let j = clamp_span(pre_cur + 1, dstep.next, toks.len());
                assert(self@.current == j);
            }
        }
        proof {
            assert(toks.last() == toks[toks.len() - 1]);
        }
        match self.consume(lox, TokenType::RightBrace, "Expect '}' after block.") {
            Ok(_) => Ok(Stmt::Block(statements)),
            Err(_) => {
                proof {
                    lemma_lox_errors_push(
                        old(lox)@,
                        errs,
                        ParseErrorModel {
                            token: toks[self@.current as int],
                            message: "Expect '}' after block."@,
                        },
                    );
                }
                Err(ParserError)
            },
        }
    }

    /// `statement := printStmt | block | exprStmt`.
    fn statement(&mut self, lox: &mut Lox) -> (r: Result<Stmt, ParserError>)
        requires
            old(self).wf(),
        ensures
            final(self).wf(),
            final(self)@.tokens == old(self)@.tokens,
            ({
                let s = spec_statement(old(self)@.tokens, old(self)@.current);
                &&& final(self)@.current == s.next
                &&& final(lox)@ == lox_after_parse_errors(old(lox)@, s.errors)
                &&& match s.res {
                    Ok(st) => r is Ok && r->Ok_0@ == st,
                    Err(_) => r is Err,
                }
            }),
        decreases old(self)@.tokens.len() - old(self)@.current, 16int,
    {
        if self.match_type(TokenType::Print) {
            self.print_statement(lox)
        } else if self.match_type(TokenType::LeftBrace) {
            self.block_items(lox)
        } else {
            self.expression_statement(lox)
        }
    }

    /// `declaration := varDecl | statement`.
    fn declaration(&mut self, lox: &mut Lox) -> (r: Result<Stmt, ParserError>)
        requires
            old(self).wf(),
        ensures
            final(self).wf(),
            final(self)@.tokens == old(self)@.tokens,
            ({
                let s = spec_declaration(old(self)@.tokens, old(self)@.current);
                &&& final(self)@.current == s.next
                &&& final(lox)@ == lox_after_parse_errors(old(lox)@, s.errors)
                &&& match s.res {
                    Ok(st) => r is Ok && r->Ok_0@ == st,
                    Err(_) => r is Err,
                }
            }),
        decreases old(self)@.tokens.len() - old(self)@.current, 17int,
    {
        if self.match_type(TokenType::Var) {
            self.var_declaration(lox)
        } else {
            self.statement(lox)
        }
    }

    /// The whole parse, as `spec_parse` lays down: the statements of the
    /// declarations that parsed, in order; each failure is reported and its
    /// statement dropped, and parsing always reaches the end of input.
    #[verifier::loop_isolation(false)]
    pub fn parse(&mut self, lox: &mut Lox) -> (r: Vec<Stmt>)
        requires
            old(self).wf(),
        ensures
            final(self).wf(),
            final(self)@.tokens == old(self)@.tokens,
            ({
                let (stmts, errs) = spec_parse(
                    old(self)@.tokens,
                    old(self)@.current,
                    Seq::empty(),
                    Seq::empty(),
                );
                &&& crate::stmt::stmts_model(r@) == stmts
                &&& final(lox)@ == lox_after_parse_errors(old(lox)@, errs)
            }),
    {
        let ghost toks = self@.tokens;
        let ghost i0 = self@.current;
        let mut statements: Vec<Stmt> = Vec::new();
        let ghost mut errs: Seq<ParseErrorModel> = Seq::empty();
        proof {
            assert(crate::stmt::stmts_model(statements@) =~= Seq::<StmtModel>::empty());
            lemma_lox_errors_empty(old(lox)@);
        }
        while !self.is_at_end()
            invariant
                self.wf(),
                self@.tokens == toks,
                lox@ == lox_after_parse_errors(old(lox)@, errs),
                spec_parse(toks, i0, Seq::empty(), Seq::empty()) == spec_parse(
                    toks,
                    self@.current,
                    crate::stmt::stmts_model(statements@),
                    errs,
                ),
            decreases toks.len() - self@.current,
        {
            let before = self.current;
            let ghost pre_cur = self@.current;
            let ghost pre_stmts = crate::stmt::stmts_model(statements@);
            let ghost pre_errs = errs;
            let d = self.declaration(lox);
            let ghost dstep = spec_declaration(toks, pre_cur);
            proof {
                lemma_declaration_spans(toks, pre_cur);
                errs = pre_errs + dstep.errors;
                lemma_lox_errors_concat(old(lox)@, pre_errs, dstep.errors);
            }
            match d {
                Ok(s) => {
                    proof {
                        crate::stmt::lemma_stmts_model_push(statements@, s);
                    }
                    statements.push(s);
                },
                Err(_) => {},
            }
            if self.current == before {
                self.advance();
            }
            proof {
                let j = clamp_span(pre_cur + 1, dstep.next, toks.len());
                let new_stmts = crate::stmt::stmts_model(statements@);
                assert(spec_parse(toks, pre_cur, pre_stmts, pre_errs) == spec_parse(
                    toks,
                    j,
                    new_stmts,
                    errs,
                ));
                if self@.current != j {
                    assert(self@.current == toks.len() - 1 && j == toks.len());
                    assert(toks[self@.current as int].token_type == TokenType::EOF) by {
                        assert(toks.last() == toks[toks.len() - 1]);
                    };
                    assert(spec_parse(toks, j, new_stmts, errs) == spec_parse(
                        toks,
                        self@.current,
                        new_stmts,
                        errs,
                    ));
                }
            }
        }
        proof {
            assert(toks.last() == toks[toks.len() - 1]);
        }
        statements
    }
}

} // verus!
