//! Statement trees. A function body sits behind `Rc` so that a closure
//! value can share it with the declaration that produced it.
use vstd::prelude::*;

use std::rc::Rc;

use crate::expr::Expr;
use crate::token::Token;

verus! {

/// A statement. `Class` is reserved for a class system the evaluator does
/// not implement.
#[derive(Debug)]
pub enum Stmt {
    Block(Vec<Stmt>),
    Class,
    Expression(Expr),
    Function { name: Token, params: Vec<Token>, body: Rc<Vec<Stmt>> },
    If { condition: Expr, then_branch: Box<Stmt>, else_branch: Option<Box<Stmt>> },
    Print(Expr),
    Return { keyword: Token, expr: Option<Expr> },
    Var { name: Token, initializer: Option<Expr> },
    While { condition: Expr, body: Box<Stmt> },
}

} // verus!
