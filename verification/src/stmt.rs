//! Statement trees.
use vstd::prelude::*;

use crate::expr::{expr_model, wf_expr, Expr, ExprModel};
use crate::token::{Token, TokenModel};

verus! {

/// Mathematical model of a statement.
pub enum StmtModel {
    Block(Seq<StmtModel>),
    Expression(ExprModel),
    Print(ExprModel),
    Var(TokenModel, Option<ExprModel>),
}

/// A statement: a block opening a fresh scope, an expression evaluated for
/// effect, a `print`, or a variable declaration with optional initializer.
pub enum Stmt {
    Block(Vec<Stmt>),
    Expression(Expr),
    Print(Expr),
    Var(Token, Option<Expr>),
}

pub open spec fn stmts_model(stmts: Seq<Stmt>) -> Seq<StmtModel>
    decreases stmts,
{
    if stmts.len() == 0 {
        Seq::empty()
    } else {
        seq![stmt_model(&stmts[0])] + stmts_model(stmts.drop_first())
    }
}

pub open spec fn stmt_model(s: &Stmt) -> StmtModel
    decreases s,
{
    match s {
        Stmt::Block(stmts) => StmtModel::Block(stmts_model(stmts@)),
        Stmt::Expression(e) => StmtModel::Expression(expr_model(e)),
        Stmt::Print(e) => StmtModel::Print(expr_model(e)),
        Stmt::Var(name, init) => StmtModel::Var(
            name@,
            match init {
                Some(e) => Some(expr_model(e)),
                None => None,
            },
        ),
    }
}

impl View for Stmt {
    type V = StmtModel;

    open spec fn view(&self) -> StmtModel {
        stmt_model(self)
    }
}

/// A well-formed statement holds only well-formed expressions.
pub open spec fn wf_stmt(s: StmtModel) -> bool
    decreases s, 0int,
{
    match s {
        StmtModel::Block(stmts) => wf_stmts(stmts),
        StmtModel::Expression(e) => wf_expr(e),
        StmtModel::Print(e) => wf_expr(e),
        StmtModel::Var(_, init) => match init {
            Some(e) => wf_expr(e),
            None => true,
        },
    }
}

pub open spec fn wf_stmts(stmts: Seq<StmtModel>) -> bool
    decreases stmts, 1int,
{
    forall|i: int| 0 <= i < stmts.len() ==> wf_stmt(#[trigger] stmts[i])
}

pub proof fn lemma_stmts_model_push(stmts: Seq<Stmt>, s: Stmt)
    ensures
        stmts_model(stmts.push(s)) == stmts_model(stmts).push(stmt_model(&s)),
{
    lemma_stmts_model_index(stmts);
    lemma_stmts_model_index(stmts.push(s));
    assert(stmts_model(stmts.push(s)) =~= stmts_model(stmts).push(stmt_model(&s))) by {
        assert(forall|i: int| 0 <= i < stmts.len() ==> stmts.push(s)[i] == #[trigger] stmts[i]);
        assert(stmts.push(s)[stmts.len() as int] == s);
    };
}

/// The model of a statement list is the list of the statements' models.
pub proof fn lemma_stmts_model_index(stmts: Seq<Stmt>)
    ensures
        stmts_model(stmts).len() == stmts.len(),
        forall|i: int|
            0 <= i < stmts.len() ==> stmts_model(stmts)[i] == stmt_model(&#[trigger] stmts[i]),
    decreases stmts,
{
    if stmts.len() > 0 {
        lemma_stmts_model_index(stmts.drop_first());
        assert forall|i: int| 0 <= i < stmts.len() implies stmts_model(stmts)[i] == stmt_model(
            &stmts[i],
        ) by {
            if i > 0 {
                assert(stmts.drop_first()[i - 1] == stmts[i]);
                assert(stmts_model(stmts)[i] == stmts_model(stmts.drop_first())[i - 1]);
            }
        }
    }
}

} // verus!
