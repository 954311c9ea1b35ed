//! Expression trees and the visitor protocol that walks them.
use vstd::prelude::*;
use crate::literal::{Object, ObjectModel};
use crate::token::{Token, TokenModel};

verus! {

/// An expression: each node owns its sub-expressions.
#[derive(Debug, PartialEq)]
pub enum Expr {
    Binary { left: Box<Expr>, operator: Token, right: Box<Expr> },
    Grouping { expression: Box<Expr> },
    Literal { value: Object },
    Unary { operator: Token, right: Box<Expr> },
}

/// What an [`Expr`] holds, as mathematical values.
pub enum ExprModel {
    Binary { left: Box<ExprModel>, operator: TokenModel, right: Box<ExprModel> },
    Grouping { expression: Box<ExprModel> },
    Literal { value: ObjectModel },
    Unary { operator: TokenModel, right: Box<ExprModel> },
}

pub open spec fn expr_model(e: Expr) -> ExprModel
    decreases e,
{
    match e {
        Expr::Binary { left, operator, right } => ExprModel::Binary {
            left: Box::new(expr_model(*left)),
            operator: operator@,
            right: Box::new(expr_model(*right)),
        },
        Expr::Grouping { expression } => ExprModel::Grouping {
            expression: Box::new(expr_model(*expression)),
        },
        Expr::Literal { value } => ExprModel::Literal { value: value@ },
        Expr::Unary { operator, right } => ExprModel::Unary {
            operator: operator@,
            right: Box::new(expr_model(*right)),
        },
    }
}

impl View for Expr {
    type V = ExprModel;

    open spec fn view(&self) -> ExprModel {
        expr_model(*self)
    }
}

/// An operation over expression trees, with one method for each kind of
/// node. [`Expr::accept`] walks a tree bottom-up and hands each method the
/// node's parts and the results already computed for its children.
///
/// A visitor states what it computes with `produces`; each method must
/// produce the result for its node from results produced for the children.
/// A method may fail with `E`, and the failure ends the walk; a visitor
/// that never fails says so with `infallible`.
pub trait Visitor<R, E> {
    /// `out` is what this visitor computes for the tree `e`.
    spec fn produces(&self, e: Expr, out: R) -> bool;

    /// None of this visitor's methods ever fails.
    spec fn infallible(&self) -> bool;

    fn visit_binary(&self, left: &Expr, operator: &Token, right: &Expr, left_out: R, right_out: R) -> (r: Result<R, E>)
        requires
            self.produces(*left, left_out),
            self.produces(*right, right_out),
        ensures
            self.infallible() ==> r is Ok,
            r matches Ok(out) ==> self.produces(
                Expr::Binary { left: Box::new(*left), operator: *operator, right: Box::new(*right) },
                out,
            ),
    ;

    fn visit_grouping(&self, expression: &Expr, inner_out: R) -> (r: Result<R, E>)
        requires
            self.produces(*expression, inner_out),
        ensures
            self.infallible() ==> r is Ok,
            r matches Ok(out) ==> self.produces(
                Expr::Grouping { expression: Box::new(*expression) },
                out,
            ),
    ;

    fn visit_literal(&self, value: &Object) -> (r: Result<R, E>)
        ensures
            self.infallible() ==> r is Ok,
            r matches Ok(out) ==> self.produces(Expr::Literal { value: *value }, out),
    ;

    fn visit_unary(&self, operator: &Token, right: &Expr, right_out: R) -> (r: Result<R, E>)
        requires
            self.produces(*right, right_out),
        ensures
            self.infallible() ==> r is Ok,
            r matches Ok(out) ==> self.produces(
                Expr::Unary { operator: *operator, right: Box::new(*right) },
                out,
            ),
    ;
}

impl Expr {
    /// Walks this tree with `visitor`: the result it produces for the whole
    /// tree, or the first failure of one of its methods.
    pub fn accept<R, E, V: Visitor<R, E>>(&self, visitor: &V) -> (r: Result<R, E>)
        ensures
            visitor.infallible() ==> r is Ok,
            r matches Ok(out) ==> visitor.produces(*self, out),
        decreases self,
    {
        match self {
            Expr::Binary { left, operator, right } => {
                let l = left.accept(visitor)?;
                let r = right.accept(visitor)?;
                visitor.visit_binary(left, operator, right, l, r)
            },
            Expr::Grouping { expression } => {
                let inner = expression.accept(visitor)?;
                visitor.visit_grouping(expression, inner)
            },
            Expr::Literal { value } => visitor.visit_literal(value),
            Expr::Unary { operator, right } => {
                let r = right.accept(visitor)?;
                visitor.visit_unary(operator, right, r)
            },
        }
    }
}

} // verus!
