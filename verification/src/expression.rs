//! The dice-roll expression tree.

use vstd::prelude::*;

use crate::operators::BinaryOp;
use crate::semantics::{node_left, node_op, node_right};

verus! {

/// The relation tested by a `Compare` node.
#[derive(Clone, Copy, Debug, PartialEq, Eq)]
pub enum Comparison {
    GreaterThan,
    GreaterThanOrEqualTo,
    LessThan,
    LessThanOrEqualTo,
    EqualTo,
}

/// A dice roll expression: leaves are dice and constants, inner nodes are
/// binary operators; `Advantage` and `Disadvantage` evaluate their child
/// twice and keep the larger respectively smaller value.
#[derive(Debug, PartialEq)]
pub enum Expression {
    Die(u32),
    Constant(i32),
    Sum(Box<Expression>, Box<Expression>),
    Diff(Box<Expression>, Box<Expression>),
    Multiply(Box<Expression>, Box<Expression>),
    Divide(Box<Expression>, Box<Expression>),
    Advantage(Box<Expression>),
    Disadvantage(Box<Expression>),
    Compare(Box<Expression>, Box<Expression>, Comparison),
}

/// An expression is well formed when every die in it has at least one side
/// and no more sides than a roll result can hold.
pub open spec fn wf(e: Expression) -> bool
    decreases e,
{
    match e {
        Expression::Die(m) => 1 <= m <= i32::MAX,
        Expression::Constant(_) => true,
        Expression::Sum(l, r) => wf(*l) && wf(*r),
        Expression::Diff(l, r) => wf(*l) && wf(*r),
        Expression::Multiply(l, r) => wf(*l) && wf(*r),
        Expression::Divide(l, r) => wf(*l) && wf(*r),
        Expression::Advantage(x) => wf(*x),
        Expression::Disadvantage(x) => wf(*x),
        Expression::Compare(l, r, _) => wf(*l) && wf(*r),
    }
}

impl Clone for Expression {
    fn clone(&self) -> (r: Self)
        ensures
            r == *self,
        decreases *self,
    {
        match self {
            Expression::Die(m) => Expression::Die(*m),
            Expression::Constant(n) => Expression::Constant(*n),
            Expression::Sum(l, r) => Expression::Sum(Box::new((**l).clone()), Box::new((**r).clone())),
            Expression::Diff(l, r) => Expression::Diff(Box::new((**l).clone()), Box::new((**r).clone())),
            Expression::Multiply(l, r) => Expression::Multiply(
                Box::new((**l).clone()),
                Box::new((**r).clone()),
            ),
            Expression::Divide(l, r) => Expression::Divide(
                Box::new((**l).clone()),
                Box::new((**r).clone()),
            ),
            Expression::Advantage(x) => Expression::Advantage(Box::new((**x).clone())),
            Expression::Disadvantage(x) => Expression::Disadvantage(Box::new((**x).clone())),
            Expression::Compare(l, r, c) => Expression::Compare(
                Box::new((**l).clone()),
                Box::new((**r).clone()),
                *c,
            ),
        }
    }
}

impl Expression {
    /// Retrieve the operation encapsulated by this expression: its binary
    /// operator and its left and right operand expressions, or `None` for
    /// a die or constant leaf.  The unary node kinds hand out their single
    /// child as both operands.
    pub fn get_operation(&self) -> (r: Option<(BinaryOp, &Expression, &Expression)>)
        ensures
            r is Some <==> node_op(*self) is Some,
            r matches Some(t) ==> t.0 == node_op(*self)->Some_0 && *t.1 == node_left(*self)
                && *t.2 == node_right(*self),
    {
        match self {
            Expression::Constant(_) => None,
            Expression::Die(_) => None,
            Expression::Sum(l, r) => Some((BinaryOp::Addition, &**l, &**r)),
            Expression::Diff(l, r) => Some((BinaryOp::Subtraction, &**l, &**r)),
            Expression::Multiply(l, r) => Some((BinaryOp::Multiplication, &**l, &**r)),
            Expression::Divide(l, r) => Some((BinaryOp::Division, &**l, &**r)),
            Expression::Advantage(x) => Some((BinaryOp::Maximum, &**x, &**x)),
            Expression::Disadvantage(x) => Some((BinaryOp::Minimum, &**x, &**x)),
            Expression::Compare(l, r, c) => Some((BinaryOp::Relation(*c), &**l, &**r)),
        }
    }

    /// Whether every die in the expression has a positive side count that
    /// fits a roll result; `roll` and `plot` ask for this.
    pub fn is_well_formed(&self) -> (r: bool)
        ensures
            r == wf(*self),
        decreases *self,
    {
        match self {
            Expression::Die(m) => 1 <= *m && *m <= 0x7fff_ffff,
            Expression::Constant(_) => true,
            Expression::Sum(l, r) => l.is_well_formed() && r.is_well_formed(),
            Expression::Diff(l, r) => l.is_well_formed() && r.is_well_formed(),
            Expression::Multiply(l, r) => l.is_well_formed() && r.is_well_formed(),
            Expression::Divide(l, r) => l.is_well_formed() && r.is_well_formed(),
            Expression::Advantage(x) => x.is_well_formed(),
            Expression::Disadvantage(x) => x.is_well_formed(),
            Expression::Compare(l, r, _) => l.is_well_formed() && r.is_well_formed(),
        }
    }
}

} // verus!
