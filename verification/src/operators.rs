//! The operator table: one pure binary function over roll results per
//! arithmetic or comparison node kind, used identically by `roll` and `plot`.

use vstd::prelude::*;

use crate::errors::EvalError;
use crate::expression::Comparison;

verus! {

/// The operator carried by an inner expression node, used to dispatch both
/// evaluation modes through one table.
#[derive(Clone, Copy, Debug, PartialEq, Eq)]
pub enum BinaryOp {
    Addition,
    Subtraction,
    Multiplication,
    Division,
    Maximum,
    Minimum,
    Relation(Comparison),
}

/// Whether the relation named by `c` holds between `a` and `b`.
pub open spec fn cmp_holds(c: Comparison, a: int, b: int) -> bool {
    match c {
        Comparison::GreaterThan => a > b,
        Comparison::GreaterThanOrEqualTo => a >= b,
        Comparison::LessThan => a < b,
        Comparison::LessThanOrEqualTo => a <= b,
        Comparison::EqualTo => a == b,
    }
}

/// Integer division truncated toward zero, the meaning of the `/` operator
/// on roll results; defined as 0 when the divisor is 0 so that every
/// operator is total at the specification level (the evaluators report a
/// division by zero instead of using that value).
pub open spec fn div_trunc(a: int, b: int) -> int {
    if b == 0 {
        0
    } else if a == 0 {
        0
    } else if a > 0 && b > 0 {
        a / b
    } else if a < 0 && b < 0 {
        (a * -1) / (b * -1)
    } else if a < 0 {
        ((a * -1) / b) * -1
    } else {
        (a / (b * -1)) * -1
    }
}

/// The mathematical meaning of each operator, total over all integer pairs.
pub open spec fn apply_bin_op(op: BinaryOp, a: int, b: int) -> int {
    match op {
        BinaryOp::Addition => a + b,
        BinaryOp::Subtraction => a - b,
        BinaryOp::Multiplication => a * b,
        BinaryOp::Division => div_trunc(a, b),
        BinaryOp::Maximum => if a >= b { a } else { b },
        BinaryOp::Minimum => if a <= b { a } else { b },
        BinaryOp::Relation(c) => if cmp_holds(c, a, b) { 1 } else { 0 },
    }
}

/// Find the sum of two rolls.
pub fn sum(left: &i32, right: &i32) -> (r: i32)
    requires
        i32::MIN <= *left + *right <= i32::MAX,
    ensures
        r == *left + *right,
{
    *left + *right
}

/// Find the difference between two rolls.
pub fn difference(left: &i32, right: &i32) -> (r: i32)
    requires
        i32::MIN <= *left - *right <= i32::MAX,
    ensures
        r == *left - *right,
{
    *left - *right
}

/// Multiply two rolls.
pub fn multiply(left: &i32, right: &i32) -> (r: i32)
    requires
        i32::MIN <= *left * *right <= i32::MAX,
    ensures
        r == *left * *right,
{
    *left * *right
}

/// Divide two rolls, truncating toward zero.
pub fn divide(left: &i32, right: &i32) -> (r: i32)
    requires
        *right != 0,
        !(*left == i32::MIN && *right == -1),
    ensures
        r == div_trunc(*left as int, *right as int),
{
    let q = (*left).checked_div(*right);
    proof {
        assert(i32::MIN <= div_trunc(*left as int, *right as int) <= i32::MAX) by {
            lemma_div_trunc_range(*left as int, *right as int);
        }
    }
    q.unwrap()
}

/// Take the greater of two rolls.
pub fn advantage(left: &i32, right: &i32) -> (r: i32)
    ensures
        r == apply_bin_op(BinaryOp::Maximum, *left as int, *right as int),
{
    if *left > *right {
        *left
    } else {
        *right
    }
}

/// Take the lesser of two rolls.
pub fn disadvantage(left: &i32, right: &i32) -> (r: i32)
    ensures
        r == apply_bin_op(BinaryOp::Minimum, *left as int, *right as int),
{
    if *left < *right {
        *left
    } else {
        *right
    }
}

/// Compare two rolls three ways: 1 when left is greater, 0 when the two are
/// equal, -1 when left is less.
pub fn compare(left: &i32, right: &i32) -> (r: i32)
    ensures
        *left > *right ==> r == 1,
        *left == *right ==> r == 0,
        *left < *right ==> r == -1,
{
    if *left > *right {
        1
    } else if *left == *right {
        0
    } else {
        -1
    }
}

/// 1 if left is greater than right else 0.
pub fn greater_than(left: &i32, right: &i32) -> (r: i32)
    ensures
        r == apply_bin_op(
            BinaryOp::Relation(Comparison::GreaterThan),
            *left as int,
            *right as int,
        ),
{
    if *left > *right {
        1
    } else {
        0
    }
}

/// 1 if left is greater than or equal to right else 0.
pub fn greater_than_or_equal_to(left: &i32, right: &i32) -> (r: i32)
    ensures
        r == apply_bin_op(
            BinaryOp::Relation(Comparison::GreaterThanOrEqualTo),
            *left as int,
            *right as int,
        ),
{
    if *left >= *right {
        1
    } else {
        0
    }
}

/// 1 if left is less than right else 0.
pub fn less_than(left: &i32, right: &i32) -> (r: i32)
    ensures
        r == apply_bin_op(
            BinaryOp::Relation(Comparison::LessThan),
            *left as int,
            *right as int,
        ),
{
    if *left < *right {
        1
    } else {
        0
    }
}

/// 1 if left is less than or equal to right else 0.
pub fn less_than_or_equal_to(left: &i32, right: &i32) -> (r: i32)
    ensures
        r == apply_bin_op(
            BinaryOp::Relation(Comparison::LessThanOrEqualTo),
            *left as int,
            *right as int,
        ),
{
    if *left <= *right {
        1
    } else {
        0
    }
}

/// 1 if left is equal to right else 0.
pub fn equal_to(left: &i32, right: &i32) -> (r: i32)
    ensures
        r == apply_bin_op(
            BinaryOp::Relation(Comparison::EqualTo),
            *left as int,
            *right as int,
        ),
{
    if *left == *right {
        1
    } else {
        0
    }
}

/// Apply one operator to two roll results, reporting the overflow or zero
/// division that makes its mathematical value unrepresentable.
pub(crate) fn eval_op(op: BinaryOp, a: i32, b: i32) -> (r: Result<i32, EvalError>)
    ensures
        r is Ok <==> crate::semantics::in_i32(apply_bin_op(op, a as int, b as int)) && !(op
            is Division && b == 0),
        r matches Ok(v) ==> v as int == apply_bin_op(op, a as int, b as int),
        r == Err::<i32, EvalError>(EvalError::DivisionByZero) <==> op is Division && b == 0,
{
    match op {
        BinaryOp::Addition => match a.checked_add(b) {
            Some(v) => Ok(v),
            None => Err(EvalError::Overflow),
        },
        BinaryOp::Subtraction => match a.checked_sub(b) {
            Some(v) => Ok(v),
            None => Err(EvalError::Overflow),
        },
        BinaryOp::Multiplication => match a.checked_mul(b) {
            Some(v) => Ok(v),
            None => Err(EvalError::Overflow),
        },
        BinaryOp::Division => {
            if b == 0 {
                Err(EvalError::DivisionByZero)
            } else {
                match a.checked_div(b) {
                    Some(v) => Ok(v),
                    None => Err(EvalError::Overflow),
                }
            }
        },
        BinaryOp::Maximum => Ok(if a >= b {
            a
        } else {
            b
        }),
        BinaryOp::Minimum => Ok(if a <= b {
            a
        } else {
            b
        }),
        BinaryOp::Relation(c) => {
            let holds = match c {
                Comparison::GreaterThan => a > b,
                Comparison::GreaterThanOrEqualTo => a >= b,
                Comparison::LessThan => a < b,
                Comparison::LessThanOrEqualTo => a <= b,
                Comparison::EqualTo => a == b,
            };
            Ok(
                if holds {
                    1
                } else {
                    0
                },
            )
        },
    }
}

/// Truncating division stays within the bounds of its dividend's type
/// whenever it is not the one overflowing case `i32::MIN / -1`.
pub proof fn lemma_div_trunc_range(a: int, b: int)
    requires
        i32::MIN <= a <= i32::MAX,
        i32::MIN <= b <= i32::MAX,
        b != 0,
        !(a == i32::MIN && b == -1),
    ensures
        i32::MIN <= div_trunc(a, b) <= i32::MAX,
{
    if a == 0 {
    } else if a > 0 && b > 0 {
        lemma_nonneg_div_le(a, b);
    } else if a < 0 && b < 0 {
        lemma_nonneg_div_le(a * -1, b * -1);
        if a == i32::MIN {
            assert(b * -1 >= 2);
            lemma_div_by_two_halves(a * -1, b * -1);
            assert((a * -1) / 2 == 0x4000_0000int);
        }
    } else if a < 0 {
        lemma_nonneg_div_le(a * -1, b);
    } else {
        lemma_nonneg_div_le(a, b * -1);
    }
}

/// For nonnegative `a` and positive `b`, `a / b` lies between 0 and `a`.
proof fn lemma_nonneg_div_le(a: int, b: int)
    requires
        a >= 0,
        b >= 1,
    ensures
        0 <= a / b <= a,
{
    vstd::arithmetic::div_mod::lemma_div_nonincreasing(a, b);
    vstd::arithmetic::div_mod::lemma_div_pos_is_pos(a, b);
}

/// Dividing a nonnegative number by at least two at most halves it.
proof fn lemma_div_by_two_halves(a: int, b: int)
    requires
        a >= 0,
        b >= 2,
    ensures
        a / b <= a / 2,
{
    vstd::arithmetic::div_mod::lemma_div_is_ordered_by_denominator(a, 2, b);
}

} // verus!
