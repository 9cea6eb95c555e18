//! Statements of the syntax tree.
use crate::expr::{Expr, ExprModel, expr_option_model};
use crate::interpreter::{Action, Interpreter};
use crate::machine::exec_model;
use crate::token::{Token, TokenModel, tokens_model};
use std::rc::Rc;
use vstd::prelude::*;

verus! {

/// A statement. A `for` loop has no variant of its own: the parser writes it
/// as a block that holds the initializer and a `While`.
#[derive(Clone, Debug, PartialEq)]
pub enum Stmt {
    Block(Vec<Rc<Stmt>>),
    Class(Token, Option<Rc<Expr>>, Vec<Rc<Stmt>>),
    Expr(Rc<Expr>),
    Func(Token, Vec<Token>, Vec<Rc<Stmt>>),
    If(Rc<Expr>, Rc<Stmt>, Option<Rc<Stmt>>),
    Print(Rc<Expr>),
    Return(Token, Option<Rc<Expr>>),
    Var(Token, Option<Rc<Expr>>),
    While(Rc<Expr>, Rc<Stmt>),
}

/// The mathematical content of a [`Stmt`].
pub enum StmtModel {
    Block(Seq<StmtModel>),
    Class(TokenModel, Option<ExprModel>, Seq<StmtModel>),
    Expr(ExprModel),
    Func(TokenModel, Seq<TokenModel>, Seq<StmtModel>),
    If(ExprModel, Box<StmtModel>, Option<Box<StmtModel>>),
    Print(ExprModel),
    Return(TokenModel, Option<ExprModel>),
    Var(TokenModel, Option<ExprModel>),
    While(ExprModel, Box<StmtModel>),
}

pub open spec fn stmt_model(s: Stmt) -> StmtModel
    decreases s,
{
    match s {
        Stmt::Block(stmts) => StmtModel::Block(stmts_model(stmts@)),
        Stmt::Class(name, superclass, methods) => StmtModel::Class(
            name@,
            expr_option_model(superclass),
            stmts_model(methods@),
        ),
        Stmt::Expr(e) => StmtModel::Expr(e@),
        Stmt::Func(name, params, body) => StmtModel::Func(
            name@,
            tokens_model(params@),
            stmts_model(body@),
        ),
        Stmt::If(cond, then_branch, else_branch) => StmtModel::If(
            cond@,
            Box::new(stmt_model(*then_branch)),
            match else_branch {
                Some(e) => Some(Box::new(stmt_model(*e))),
                None => None,
            },
        ),
        Stmt::Print(e) => StmtModel::Print(e@),
        Stmt::Return(keyword, value) => StmtModel::Return(keyword@, expr_option_model(value)),
        Stmt::Var(name, init) => StmtModel::Var(name@, expr_option_model(init)),
        Stmt::While(cond, body) => StmtModel::While(cond@, Box::new(stmt_model(*body))),
    }
}

/// The views of a list of statements.
pub open spec fn stmts_model(ss: Seq<Rc<Stmt>>) -> Seq<StmtModel>
    decreases ss,
{
    Seq::new(
        ss.len(),
        |i: int|
            if 0 <= i < ss.len() {
                stmt_model(*ss[i])
            } else {
                StmtModel::Block(Seq::empty())
            },
    )
}

impl View for Stmt {
    type V = StmtModel;

    open spec fn view(&self) -> StmtModel {
        stmt_model(*self)
    }
}


/// Starts the execution of a statement: the one transition of the
/// interpreter that the kind of the statement calls for.
pub fn walk_stmt(visitor: &mut Interpreter, stmt: &Stmt) -> (a: Action)
    ensures
        (final(visitor)@, a@) == exec_model(old(visitor)@, stmt@),
{
    match stmt {
        Stmt::Block(stmts) => visitor.visit_block(stmts),
        Stmt::Class(name, superclass, methods) => visitor.visit_class(name, superclass, methods),
        Stmt::Expr(expr) => visitor.visit_expr_stmt(expr),
        Stmt::Func(name, args, body) => visitor.visit_func(name, args, body),
        Stmt::If(cond, then_branch, else_branch) => visitor.visit_if(
            cond,
            then_branch,
            else_branch,
        ),
        Stmt::Print(expr) => visitor.visit_print(expr),
        Stmt::Return(keyword, value) => visitor.visit_return(keyword, value),
        Stmt::Var(name, init) => visitor.visit_var_stmt(name, init),
        Stmt::While(cond, body) => visitor.visit_while(cond, body),
    }
}

} // verus!
