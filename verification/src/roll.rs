//! The stochastic evaluation mode: `roll` draws one sample from an
//! expression's distribution by rolling each die independently and
//! applying the node operators to the sampled operand values.

use vstd::prelude::*;

use crate::convolution::lemma_wcross_pair;
use crate::errors::EvalError;
use crate::expression::{wf, Expression};
use crate::operators::{apply_bin_op, eval_op, BinaryOp};
use crate::semantics::{
    combo_in_range, combo_no_div0, in_i32, in_range_all, lemma_uniform_wocc,
    lemma_weighted_outcomes_node, no_div0_all, node_left, node_right, weighted_outcomes, wocc,
};

verus! {

/// Roll one die with the given number of sides.
///
/// Relies on `rand::random_range` over `1..=max`: the result is drawn
/// uniformly from that range and never lies outside it; the range is
/// nonempty because `max` is at least 1, so the call cannot panic.
#[verifier::external_body]
pub(crate) fn draw_die(max: i32) -> (r: i32)
    requires
        1 <= max,
    ensures
        1 <= r <= max,
{
    rand::random_range(1..=max)
}

impl Expression {
    /// Get a single value from the roll expression: every die is sampled
    /// independently and uniformly over its sides, and each inner node
    /// applies its operator to the two sampled operand values.  Any value
    /// returned has positive weight in the expression's outcome
    /// distribution; the roll fails only when an operator application
    /// overflows the roll result range or divides by zero, which cannot
    /// happen on an expression whose combinations all stay in range and
    /// avoid zero divisors.
    pub fn roll(&self) -> (res: Result<i32, EvalError>)
        requires
            wf(*self),
        ensures
            (res matches Ok(v) ==> wocc(weighted_outcomes(*self), v as int) >= 1),
            in_range_all(*self) && no_div0_all(*self) ==> res is Ok,
            res == Err::<i32, EvalError>(EvalError::DivisionByZero) ==> !no_div0_all(*self),
            res == Err::<i32, EvalError>(EvalError::Overflow) ==> !in_range_all(*self),
        decreases *self,
    {
        match self {
            Expression::Constant(n) => {
                proof {
                    let s = seq![(*n as int, 1nat)];
                    assert(s.drop_last() =~= Seq::<(int, nat)>::empty());
                    assert(s.last() == (*n as int, 1nat));
                    assert(wocc(Seq::<(int, nat)>::empty(), *n as int) == 0);
                    assert(wocc(s, *n as int) == 1);
                }
                Ok(*n)
            },
            Expression::Die(m) => {
                let v = draw_die(*m as i32);
                proof {
                    lemma_uniform_wocc(*m as nat, v as int);
                }
                Ok(v)
            },
            _ => {
                let parts = self.get_operation().unwrap();
                let (op, l, r) = parts;
                let ghost ml = weighted_outcomes(node_left(*self));
                let ghost mr = weighted_outcomes(node_right(*self));
                proof {
                    lemma_weighted_outcomes_node(*self);
                    match self {
                        Expression::Sum(bl, br) => {
                            assert(decreases_to!(*self => **bl));
                            assert(decreases_to!(*self => **br));
                        },
                        Expression::Diff(bl, br) => {
                            assert(decreases_to!(*self => **bl));
                            assert(decreases_to!(*self => **br));
                        },
                        Expression::Multiply(bl, br) => {
                            assert(decreases_to!(*self => **bl));
                            assert(decreases_to!(*self => **br));
                        },
                        Expression::Divide(bl, br) => {
                            assert(decreases_to!(*self => **bl));
                            assert(decreases_to!(*self => **br));
                        },
                        Expression::Advantage(bx) => {
                            assert(decreases_to!(*self => **bx));
                        },
                        Expression::Disadvantage(bx) => {
                            assert(decreases_to!(*self => **bx));
                        },
                        Expression::Compare(bl, br, _) => {
                            assert(decreases_to!(*self => **bl));
                            assert(decreases_to!(*self => **br));
                        },
                        _ => {},
                    }
                }
                let av = match l.roll() {
                    Ok(v) => v,
                    Err(e) => {
                        return Err(e);
                    },
                };
                let bv = match r.roll() {
                    Ok(v) => v,
                    Err(e) => {
                        return Err(e);
                    },
                };
                let res = eval_op(op, av, bv);
                proof {
                    if res is Ok {
                        lemma_wcross_pair(ml, mr, op, av as int, bv as int);
                    } else {
                        assert(wocc(ml, av as int) > 0 && wocc(mr, bv as int) > 0);
                        if res == Err::<i32, EvalError>(EvalError::DivisionByZero) {
                            assert(op is Division && bv == 0);
                            assert(!combo_no_div0(op, ml, mr));
                        } else {
                            assert(!in_i32(apply_bin_op(op, av as int, bv as int)));
                            assert(!combo_in_range(op, ml, mr));
                        }
                    }
                }
                res
            },
        }
    }
}

} // verus!
