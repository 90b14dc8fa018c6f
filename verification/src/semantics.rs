//! The mathematical meaning of an expression: the weighted sequence of all
//! outcome combinations it can produce, built by crossing the child
//! sequences of every inner node under that node's operator.
//!
//! A weighted outcome sequence lists `(value, weight)` pairs; the weight of
//! a value in a sequence is the sum of the weights of its pairs, and the
//! total weight of a sequence is the sum of all weights.  `plot` promises a
//! table with exactly these weights and `roll` promises a value of positive
//! weight.

use vstd::prelude::*;

use crate::expression::Expression;
use crate::operators::{apply_bin_op, BinaryOp};

verus! {

/// The combined weight, in `s`, of the pairs holding the value `v`.
pub open spec fn wocc(s: Seq<(int, nat)>, v: int) -> nat
    decreases s.len(),
{
    if s.len() == 0 {
        0
    } else {
        wocc(s.drop_last(), v) + if s.last().0 == v {
            s.last().1
        } else {
            0nat
        }
    }
}

/// The total weight of a weighted outcome sequence.
pub open spec fn wtotal(s: Seq<(int, nat)>) -> nat
    decreases s.len(),
{
    if s.len() == 0 {
        0
    } else {
        wtotal(s.drop_last()) + s.last().1
    }
}

/// One row of a cross product: `x` combined with every pair of `b` under
/// `op`, each combination weighted by the product of the two weights.
pub open spec fn wrow(x: (int, nat), b: Seq<(int, nat)>, op: BinaryOp) -> Seq<(int, nat)>
    decreases b.len(),
{
    if b.len() == 0 {
        Seq::empty()
    } else {
        wrow(x, b.drop_last(), op).push(
            (apply_bin_op(op, x.0, b.last().0), x.1 * b.last().1),
        )
    }
}

/// The full cross product of two weighted outcome sequences under `op`: one
/// row per pair of `a`, in order.
pub open spec fn wcross(a: Seq<(int, nat)>, b: Seq<(int, nat)>, op: BinaryOp) -> Seq<(int, nat)>
    decreases a.len(),
{
    if a.len() == 0 {
        Seq::empty()
    } else {
        wcross(a.drop_last(), b, op) + wrow(a.last(), b, op)
    }
}

/// The outcome sequence of an `n`-sided die: the values 1 through `n`,
/// each of weight 1.
pub open spec fn uniform_outcomes(n: nat) -> Seq<(int, nat)> {
    Seq::new(n, |i: int| (i + 1, 1nat))
}

/// A die's outcome sequence weighs each of its sides once, so its total
/// weight is its side count.
pub proof fn lemma_uniform_total(n: nat)
    ensures
        wtotal(uniform_outcomes(n)) == n,
    decreases n,
{
    if n > 0 {
        assert(uniform_outcomes(n).drop_last() =~= uniform_outcomes((n - 1) as nat));
        lemma_uniform_total((n - 1) as nat);
    }
}

/// A die's outcome sequence weighs each value from 1 through its side
/// count once and every other value not at all.
pub proof fn lemma_uniform_wocc(n: nat, v: int)
    ensures
        wocc(uniform_outcomes(n), v) == if 1 <= v <= n {
            1nat
        } else {
            0nat
        },
    decreases n,
{
    if n > 0 {
        assert(uniform_outcomes(n).drop_last() =~= uniform_outcomes((n - 1) as nat));
        assert(uniform_outcomes(n).last() == (n as int, 1nat));
        lemma_uniform_wocc((n - 1) as nat, v);
    }
}

/// Every outcome combination of an expression with its weight: one pair of
/// weight 1 per side of a die, a single pair of weight 1 for a constant,
/// and for every inner node the cross product of the child sequences under
/// the node's operator, where `Advantage` and `Disadvantage` cross their
/// single child with itself.
pub open spec fn weighted_outcomes(e: Expression) -> Seq<(int, nat)>
    decreases e,
{
    match e {
        Expression::Die(m) => uniform_outcomes(m as nat),
        Expression::Constant(n) => seq![(n as int, 1nat)],
        Expression::Sum(l, r) => wcross(
            weighted_outcomes(*l),
            weighted_outcomes(*r),
            BinaryOp::Addition,
        ),
        Expression::Diff(l, r) => wcross(
            weighted_outcomes(*l),
            weighted_outcomes(*r),
            BinaryOp::Subtraction,
        ),
        Expression::Multiply(l, r) => wcross(
            weighted_outcomes(*l),
            weighted_outcomes(*r),
            BinaryOp::Multiplication,
        ),
        Expression::Divide(l, r) => wcross(
            weighted_outcomes(*l),
            weighted_outcomes(*r),
            BinaryOp::Division,
        ),
        Expression::Advantage(x) => wcross(
            weighted_outcomes(*x),
            weighted_outcomes(*x),
            BinaryOp::Maximum,
        ),
        Expression::Disadvantage(x) => wcross(
            weighted_outcomes(*x),
            weighted_outcomes(*x),
            BinaryOp::Minimum,
        ),
        Expression::Compare(l, r, c) => wcross(
            weighted_outcomes(*l),
            weighted_outcomes(*r),
            BinaryOp::Relation(c),
        ),
    }
}

/// The operator of an inner node, `None` for a leaf.
pub open spec fn node_op(e: Expression) -> Option<BinaryOp> {
    match e {
        Expression::Die(_) => None,
        Expression::Constant(_) => None,
        Expression::Sum(_, _) => Some(BinaryOp::Addition),
        Expression::Diff(_, _) => Some(BinaryOp::Subtraction),
        Expression::Multiply(_, _) => Some(BinaryOp::Multiplication),
        Expression::Divide(_, _) => Some(BinaryOp::Division),
        Expression::Advantage(_) => Some(BinaryOp::Maximum),
        Expression::Disadvantage(_) => Some(BinaryOp::Minimum),
        Expression::Compare(_, _, c) => Some(BinaryOp::Relation(c)),
    }
}

/// The left operand of an inner node; for the unary node kinds the single
/// child stands on both sides.
pub open spec fn node_left(e: Expression) -> Expression {
    match e {
        Expression::Sum(l, _) => *l,
        Expression::Diff(l, _) => *l,
        Expression::Multiply(l, _) => *l,
        Expression::Divide(l, _) => *l,
        Expression::Advantage(x) => *x,
        Expression::Disadvantage(x) => *x,
        Expression::Compare(l, _, _) => *l,
        _ => e,
    }
}

/// The right operand of an inner node; for the unary node kinds the single
/// child stands on both sides.
pub open spec fn node_right(e: Expression) -> Expression {
    match e {
        Expression::Sum(_, r) => *r,
        Expression::Diff(_, r) => *r,
        Expression::Multiply(_, r) => *r,
        Expression::Divide(_, r) => *r,
        Expression::Advantage(x) => *x,
        Expression::Disadvantage(x) => *x,
        Expression::Compare(_, r, _) => *r,
        _ => e,
    }
}

/// At an inner node the outcome sequence is the cross product of the two
/// operand sequences.
pub proof fn lemma_weighted_outcomes_node(e: Expression)
    requires
        node_op(e) is Some,
    ensures
        weighted_outcomes(e) == wcross(
            weighted_outcomes(node_left(e)),
            weighted_outcomes(node_right(e)),
            node_op(e)->Some_0,
        ),
{
}

/// Whether a value fits the range of a roll result.
pub open spec fn in_i32(v: int) -> bool {
    i32::MIN <= v <= i32::MAX
}

/// Every combination of a value of positive weight in `a` with one in `b`
/// stays inside the range of a roll result under `op`.
pub open spec fn combo_in_range(op: BinaryOp, a: Seq<(int, nat)>, b: Seq<(int, nat)>) -> bool {
    forall|u: int, w: int|
        #![trigger wocc(a, u), wocc(b, w)]
        wocc(a, u) > 0 && wocc(b, w) > 0 ==> in_i32(apply_bin_op(op, u, w))
}

/// A division meets no zero divisor: no combination pairs a left value of
/// positive weight with the right value 0.
pub open spec fn combo_no_div0(op: BinaryOp, a: Seq<(int, nat)>, b: Seq<(int, nat)>) -> bool {
    op is Division ==> forall|u: int, w: int|
        #![trigger wocc(a, u), wocc(b, w)]
        wocc(a, u) > 0 && wocc(b, w) > 0 ==> w != 0
}

/// Every operator application at every inner node of `e` lands inside the
/// range of a roll result, so no arithmetic overflow can occur on outcome
/// values while evaluating `e`.
pub open spec fn in_range_all(e: Expression) -> bool
    decreases e,
{
    match node_op(e) {
        None => true,
        Some(op) => {
            &&& in_range_all(node_left(e))
            &&& in_range_all(node_right(e))
            &&& combo_in_range(
                op,
                weighted_outcomes(node_left(e)),
                weighted_outcomes(node_right(e)),
            )
        },
    }
}

/// No `Divide` node of `e` can meet a zero divisor.
pub open spec fn no_div0_all(e: Expression) -> bool
    decreases e,
{
    match node_op(e) {
        None => true,
        Some(op) => {
            &&& no_div0_all(node_left(e))
            &&& no_div0_all(node_right(e))
            &&& combo_no_div0(
                op,
                weighted_outcomes(node_left(e)),
                weighted_outcomes(node_right(e)),
            )
        },
    }
}

/// Total-weight conservation: at every inner node the total weight of the
/// outcome distribution is the product of the two operand distributions'
/// total weights — for the unary node kinds the square of the child's —
/// while a die's total weight is its side count and a constant's is 1.
pub proof fn lemma_total_weight_conservation(e: Expression)
    ensures
        node_op(e) is Some ==> wtotal(weighted_outcomes(e)) == wtotal(
            weighted_outcomes(node_left(e)),
        ) * wtotal(weighted_outcomes(node_right(e))),
        e matches Expression::Die(m) ==> wtotal(weighted_outcomes(e)) == m,
        e matches Expression::Constant(_) ==> wtotal(weighted_outcomes(e)) == 1,
{
    match node_op(e) {
        Some(op) => {
            lemma_weighted_outcomes_node(e);
            crate::convolution::lemma_wtotal_wcross(
                weighted_outcomes(node_left(e)),
                weighted_outcomes(node_right(e)),
                op,
            );
        },
        None => {
            match e {
                Expression::Die(m) => {
                    lemma_uniform_total(m as nat);
                },
                Expression::Constant(n) => {
                    let s = seq![(n as int, 1nat)];
                    assert(s.drop_last() =~= Seq::<(int, nat)>::empty());
                    assert(wtotal(Seq::<(int, nat)>::empty()) == 0);
                    assert(s.last() == (n as int, 1nat));
                },
                _ => {},
            }
        },
    }
}

/// The total weight at every node of `e` fits the weight type of a plot
/// table.
pub open spec fn totals_fit(e: Expression) -> bool
    decreases e,
{
    match node_op(e) {
        None => wtotal(weighted_outcomes(e)) <= u64::MAX,
        Some(op) => {
            &&& totals_fit(node_left(e))
            &&& totals_fit(node_right(e))
            &&& wtotal(weighted_outcomes(e)) <= u64::MAX
        },
    }
}

} // verus!
