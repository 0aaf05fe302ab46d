//! The resolved expression tree handed to the evaluator.
use vstd::prelude::*;

verus! {

pub enum Expression {
    Variable(String),
    Integer(u32),
    FieldElement(u64),
    Boolean(bool),
    Add(Box<Expression>, Box<Expression>),
    Sub(Box<Expression>, Box<Expression>),
    Mul(Box<Expression>, Box<Expression>),
    Div(Box<Expression>, Box<Expression>),
    Pow(Box<Expression>, Box<Expression>),
    Not(Box<Expression>),
    Or(Box<Expression>, Box<Expression>),
    And(Box<Expression>, Box<Expression>),
    Eq(Box<Expression>, Box<Expression>),
    Geq(Box<Expression>, Box<Expression>),
    Gt(Box<Expression>, Box<Expression>),
    Leq(Box<Expression>, Box<Expression>),
    Lt(Box<Expression>, Box<Expression>),
    IfElse(Box<Expression>, Box<Expression>, Box<Expression>),
    Array(Vec<SpreadOrExpression>),
    ArrayAccess(Box<Expression>, Box<RangeOrExpression>),
    Struct(String, Vec<StructMember>),
    StructMemberAccess(Box<Expression>, String),
    FunctionCall(String, Vec<Expression>),
}

/// An element of an array literal.
pub enum SpreadOrExpression {
    Spread(Expression),
    Expression(Expression),
}

/// The index of an array access: a slice with literal bounds, or one element.
pub enum RangeOrExpression {
    Range(Option<u32>, Option<u32>),
    Expression(Expression),
}

/// A member of an inline struct expression.
pub struct StructMember {
    pub variable: String,
    pub expression: Expression,
}

} // verus!
