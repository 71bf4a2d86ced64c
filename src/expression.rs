//! Expression nodes of the syntax tree.
use vstd::prelude::*;

use crate::tokenizer::Token;

verus! {

/// An expression.
#[derive(Debug)]
pub enum Expression<'a> {
    Call(CallExpression<'a>),
    TemplateLiteral(TemplateLiteralExpression<'a>),
    Variable(VariableExpression<'a>),
    Unary(UnaryExpression<'a>),
    Binary(BinaryExpression<'a>),
    Literal(LiteralExpression<'a>),
}

/// The one prefix operator, `!`.
#[derive(PartialEq, Eq, Structural, Debug, Clone, Copy)]
pub enum UnaryOperator {
    Not,
}

/// The infix operators: `==`, `!=`, `&&`, `||`.
#[derive(PartialEq, Eq, Structural, Debug, Clone, Copy)]
pub enum BinaryOperator {
    Equals,
    NotEquals,
    And,
    Or,
}

/// A prefix operator applied to an operand.
#[derive(Debug)]
pub struct UnaryExpression<'a> {
    pub operator: UnaryOperator,
    pub right: Box<Expression<'a>>,
}

/// Dotted property access: `callee.name`.
#[derive(Debug)]
pub struct CallExpression<'a> {
    pub callee: Box<Expression<'a>>,
    pub name: &'a [u8],
}

/// An infix operator applied to two operands.
#[derive(Debug)]
pub struct BinaryExpression<'a> {
    pub left: Box<Expression<'a>>,
    pub operator: BinaryOperator,
    pub right: Box<Expression<'a>>,
}

/// Text outside directives, rendered verbatim.
#[derive(Debug)]
pub struct TemplateLiteralExpression<'a> {
    pub value: &'a [u8],
}

/// A variable, looked up in the context.
#[derive(Debug)]
pub struct VariableExpression<'a> {
    pub name: &'a [u8],
}

/// A quoted string literal; its token holds the quotes.
#[derive(Debug)]
pub struct LiteralExpression<'a> {
    pub token: Token<'a>,
}

} // verus!
