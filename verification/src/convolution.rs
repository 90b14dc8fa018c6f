//! Proofs about crossing weighted outcome sequences: the weight a value
//! carries in a cross product is determined by the weights the operand
//! values carry in the two operands, and total weight multiplies.
//!
//! The central tool is `gsum`, the weighted sum of an arbitrary function
//! over a sequence's values: the weight of `v` in `wcross(a, b, op)` is the
//! `gsum` over `a` of the weight each left value contributes, which in turn
//! is a `gsum` over `b`.  `lemma_gsum_by_counts` shows a `gsum` depends on
//! a sequence only through its weight function, which makes the weight of a
//! cross product independent of how the operands arrange or split their
//! weights — the key to replacing a child's outcome sequence by the
//! grouped table that `plot` computed for it.

use vstd::prelude::*;

use crate::operators::{apply_bin_op, BinaryOp};
use crate::semantics::{wcross, wocc, wrow, wtotal};
use vstd::arithmetic::mul::{lemma_mul_inequality, lemma_mul_is_distributive_add};

verus! {

/// The sum over all pairs of `s` of the pair's weight times `f` at the
/// pair's value.
pub open spec fn gsum(s: Seq<(int, nat)>, f: spec_fn(int) -> nat) -> nat
    decreases s.len(),
{
    if s.len() == 0 {
        0
    } else {
        gsum(s.drop_last(), f) + s.last().1 * f(s.last().0)
    }
}

/// The indicator weight a single left value `u` assigns under `op` to a
/// target value `v`: 1 at right values that combine to `v`, 0 elsewhere.
pub open spec fn hit_fn(op: BinaryOp, u: int, v: int) -> spec_fn(int) -> nat {
    |w: int| if apply_bin_op(op, u, w) == v {
        1nat
    } else {
        0nat
    }
}

/// `s` with every pair holding the value `v0` removed.
pub open spec fn drop_val(s: Seq<(int, nat)>, v0: int) -> Seq<(int, nat)>
    decreases s.len(),
{
    if s.len() == 0 {
        s
    } else if s.last().0 == v0 {
        drop_val(s.drop_last(), v0)
    } else {
        drop_val(s.drop_last(), v0).push(s.last())
    }
}

/// Weights of values in a concatenation add up.
pub proof fn lemma_wocc_concat(a: Seq<(int, nat)>, b: Seq<(int, nat)>, v: int)
    ensures
        wocc(a + b, v) == wocc(a, v) + wocc(b, v),
    decreases b.len(),
{
    if b.len() == 0 {
        assert(a + b =~= a);
    } else {
        assert((a + b).drop_last() =~= a + b.drop_last());
        lemma_wocc_concat(a, b.drop_last(), v);
    }
}

/// Total weights of a concatenation add up.
pub proof fn lemma_wtotal_concat(a: Seq<(int, nat)>, b: Seq<(int, nat)>)
    ensures
        wtotal(a + b) == wtotal(a) + wtotal(b),
    decreases b.len(),
{
    if b.len() == 0 {
        assert(a + b =~= a);
    } else {
        assert((a + b).drop_last() =~= a + b.drop_last());
        lemma_wtotal_concat(a, b.drop_last());
    }
}

/// The weight of `v` in one cross-product row is the row's weight times
/// the indicator sum of its right operand.
pub proof fn lemma_wocc_wrow(x: (int, nat), b: Seq<(int, nat)>, op: BinaryOp, v: int)
    ensures
        wocc(wrow(x, b, op), v) == x.1 * gsum(b, hit_fn(op, x.0, v)),
    decreases b.len(),
{
    if b.len() == 0 {
        assert(x.1 * gsum(b, hit_fn(op, x.0, v)) == 0) by (nonlinear_arith)
            requires
                gsum(b, hit_fn(op, x.0, v)) == 0nat,
        ;
    } else {
        let h = hit_fn(op, x.0, v);
        let rest = wrow(x, b.drop_last(), op);
        let e = (apply_bin_op(op, x.0, b.last().0), x.1 * b.last().1);
        assert(wrow(x, b, op) == rest.push(e));
        assert(rest.push(e).drop_last() =~= rest);
        assert(rest.push(e).last() == e);
        assert(wocc(rest.push(e), v) == wocc(rest, v) + if e.0 == v {
            e.1
        } else {
            0nat
        });
        lemma_wocc_wrow(x, b.drop_last(), op, v);
        assert(gsum(b, h) == gsum(b.drop_last(), h) + b.last().1 * h(b.last().0));
        let p = gsum(b.drop_last(), h);
        let q = b.last().1;
        let hv = h(b.last().0);
        if e.0 == v {
            assert(hv == 1);
            assert(wocc(wrow(x, b, op), v) == x.1 * p + x.1 * q);
            assert(wocc(wrow(x, b, op), v) == x.1 * gsum(b, h)) by (nonlinear_arith)
                requires
                    wocc(wrow(x, b, op), v) == x.1 * p + x.1 * q,
                    gsum(b, h) == p + q * hv,
                    hv == 1nat,
            ;
        } else {
            assert(hv == 0);
            assert(wocc(wrow(x, b, op), v) == x.1 * p);
            assert(wocc(wrow(x, b, op), v) == x.1 * gsum(b, h)) by (nonlinear_arith)
                requires
                    wocc(wrow(x, b, op), v) == x.1 * p,
                    gsum(b, h) == p + q * hv,
                    hv == 0nat,
            ;
        }
    }
}

/// The total weight of one cross-product row is the row's weight times the
/// right operand's total weight.
pub proof fn lemma_wtotal_wrow(x: (int, nat), b: Seq<(int, nat)>, op: BinaryOp)
    ensures
        wtotal(wrow(x, b, op)) == x.1 * wtotal(b),
    decreases b.len(),
{
    if b.len() == 0 {
    } else {
        let rest = wrow(x, b.drop_last(), op);
        let e = (apply_bin_op(op, x.0, b.last().0), x.1 * b.last().1);
        assert(wrow(x, b, op) == rest.push(e));
        assert(rest.push(e).drop_last() =~= rest);
        assert(rest.push(e).last() == e);
        assert(wtotal(rest.push(e)) == wtotal(rest) + e.1);
        lemma_wtotal_wrow(x, b.drop_last(), op);
        assert(wtotal(rest) == x.1 * wtotal(b.drop_last()));
        assert(wtotal(b) == wtotal(b.drop_last()) + b.last().1);
        lemma_mul_is_distributive_add(
            x.1 as int,
            wtotal(b.drop_last()) as int,
            b.last().1 as int,
        );
        assert(x.1 * wtotal(b) == x.1 * wtotal(b.drop_last()) + x.1 * b.last().1);
    }
}

/// The total weight of a cross product is the product of the operands'
/// total weights.
pub proof fn lemma_wtotal_wcross(a: Seq<(int, nat)>, b: Seq<(int, nat)>, op: BinaryOp)
    ensures
        wtotal(wcross(a, b, op)) == wtotal(a) * wtotal(b),
    decreases a.len(),
{
    if a.len() == 0 {
        assert(wtotal(a) * wtotal(b) == 0) by (nonlinear_arith)
            requires
                wtotal(a) == 0nat,
        ;
    } else {
        assert(wcross(a, b, op) == wcross(a.drop_last(), b, op) + wrow(a.last(), b, op));
        lemma_wtotal_wcross(a.drop_last(), b, op);
        lemma_wtotal_concat(wcross(a.drop_last(), b, op), wrow(a.last(), b, op));
        lemma_wtotal_wrow(a.last(), b, op);
        assert(wtotal(a) == wtotal(a.drop_last()) + a.last().1);
        let p = wtotal(a.drop_last());
        let q = a.last().1;
        let t = wtotal(b);
        assert(wtotal(wcross(a, b, op)) == p * t + q * t);
        assert(wtotal(wcross(a, b, op)) == wtotal(a) * t) by (nonlinear_arith)
            requires
                wtotal(wcross(a, b, op)) == p * t + q * t,
                wtotal(a) == p + q,
        ;
    }
}

/// The weight of `v` in a cross product, summed row by row.
pub proof fn lemma_wocc_wcross(a: Seq<(int, nat)>, b: Seq<(int, nat)>, op: BinaryOp, v: int)
    ensures
        wocc(wcross(a, b, op), v) == gsum(a, |u: int| gsum(b, hit_fn(op, u, v))),
    decreases a.len(),
{
    let f = |u: int| gsum(b, hit_fn(op, u, v));
    if a.len() == 0 {
    } else {
        lemma_wocc_wcross(a.drop_last(), b, op, v);
        lemma_wocc_concat(wcross(a.drop_last(), b, op), wrow(a.last(), b, op), v);
        lemma_wocc_wrow(a.last(), b, op, v);
    }
}

/// A sequence in which every value has weight 0 contributes nothing to any
/// weighted sum.
pub proof fn lemma_gsum_zero(s: Seq<(int, nat)>, f: spec_fn(int) -> nat)
    requires
        forall|v: int| wocc(s, v) == 0,
    ensures
        gsum(s, f) == 0,
    decreases s.len(),
{
    if s.len() == 0 {
    } else {
        assert(wocc(s, s.last().0) == 0);
        assert(s.last().1 == 0);
        assert(s.last().1 * f(s.last().0) == 0) by (nonlinear_arith)
            requires
                s.last().1 == 0nat,
        ;
        assert forall|v: int| wocc(s.drop_last(), v) == 0 by {
            assert(wocc(s, v) == 0);
        }
        lemma_gsum_zero(s.drop_last(), f);
    }
}

/// Dropping a value never lengthens a sequence.
pub proof fn lemma_drop_val_len(s: Seq<(int, nat)>, v0: int)
    ensures
        drop_val(s, v0).len() <= s.len(),
    decreases s.len(),
{
    if s.len() == 0 {
    } else {
        lemma_drop_val_len(s.drop_last(), v0);
    }
}

/// Dropping a value zeroes its weight and keeps every other weight.
pub proof fn lemma_drop_val_wocc(s: Seq<(int, nat)>, v0: int, v: int)
    ensures
        wocc(drop_val(s, v0), v) == if v == v0 {
            0nat
        } else {
            wocc(s, v)
        },
    decreases s.len(),
{
    if s.len() == 0 {
    } else {
        lemma_drop_val_wocc(s.drop_last(), v0, v);
        if s.last().0 != v0 {
            let rest = drop_val(s.drop_last(), v0);
            assert(rest.push(s.last()).drop_last() =~= rest);
        }
    }
}

/// A weighted sum splits into the contribution of one value and the sum
/// over the sequence without that value.
pub proof fn lemma_gsum_split(s: Seq<(int, nat)>, f: spec_fn(int) -> nat, v0: int)
    ensures
        gsum(s, f) == gsum(drop_val(s, v0), f) + wocc(s, v0) * f(v0),
    decreases s.len(),
{
    if s.len() == 0 {
        assert(wocc(s, v0) * f(v0) == 0) by (nonlinear_arith)
            requires
                wocc(s, v0) == 0nat,
        ;
    } else {
        lemma_gsum_split(s.drop_last(), f, v0);
        assert(gsum(s, f) == gsum(s.drop_last(), f) + s.last().1 * f(s.last().0));
        if s.last().0 == v0 {
            assert(drop_val(s, v0) == drop_val(s.drop_last(), v0));
            assert(wocc(s, v0) == wocc(s.drop_last(), v0) + s.last().1);
            let p = wocc(s.drop_last(), v0);
            let q = s.last().1;
            assert(gsum(s, f) == gsum(drop_val(s, v0), f) + wocc(s, v0) * f(v0))
                by (nonlinear_arith)
                requires
                    gsum(s, f) == gsum(drop_val(s, v0), f) + p * f(v0) + q * f(v0),
                    wocc(s, v0) == p + q,
            ;
        } else {
            let rest = drop_val(s.drop_last(), v0);
            assert(drop_val(s, v0) == rest.push(s.last()));
            assert(rest.push(s.last()).drop_last() =~= rest);
            assert(rest.push(s.last()).last() == s.last());
            assert(gsum(rest.push(s.last()), f) == gsum(rest, f) + s.last().1 * f(
                s.last().0,
            ));
            assert(wocc(s, v0) == wocc(s.drop_last(), v0));
            assert(wocc(s, v0) * f(v0) == wocc(s.drop_last(), v0) * f(v0));
        }
    }
}

/// A weighted sum depends on a sequence only through the weight it gives
/// each value.
pub proof fn lemma_gsum_by_counts(
    a: Seq<(int, nat)>,
    a2: Seq<(int, nat)>,
    f: spec_fn(int) -> nat,
)
    requires
        forall|v: int| #[trigger] wocc(a, v) == wocc(a2, v),
    ensures
        gsum(a, f) == gsum(a2, f),
    decreases a.len(),
{
    if a.len() == 0 {
        assert forall|v: int| wocc(a2, v) == 0 by {
            assert(wocc(a, v) == wocc(a2, v));
        }
        lemma_gsum_zero(a2, f);
    } else {
        let v0 = a.last().0;
        lemma_gsum_split(a, f, v0);
        lemma_gsum_split(a2, f, v0);
        assert(wocc(a, v0) == wocc(a2, v0));
        assert forall|v: int| #[trigger] wocc(drop_val(a, v0), v) == wocc(
            drop_val(a2, v0),
            v,
        ) by {
            lemma_drop_val_wocc(a, v0, v);
            lemma_drop_val_wocc(a2, v0, v);
            assert(wocc(a, v) == wocc(a2, v));
        }
        lemma_drop_val_len(a.drop_last(), v0);
        lemma_gsum_by_counts(drop_val(a, v0), drop_val(a2, v0), f);
    }
}

/// Two functions that agree on every value give the same weighted sum.
pub proof fn lemma_gsum_fn_ext(s: Seq<(int, nat)>, f: spec_fn(int) -> nat, g: spec_fn(int) -> nat)
    requires
        forall|u: int| #[trigger] f(u) == g(u),
    ensures
        gsum(s, f) == gsum(s, g),
    decreases s.len(),
{
    if s.len() == 0 {
    } else {
        lemma_gsum_fn_ext(s.drop_last(), f, g);
    }
}

/// The weight of every value in a cross product is unchanged when either
/// operand is replaced by a sequence giving every value the same weight.
pub proof fn lemma_wcross_by_counts(
    a: Seq<(int, nat)>,
    a2: Seq<(int, nat)>,
    b: Seq<(int, nat)>,
    b2: Seq<(int, nat)>,
    op: BinaryOp,
    v: int,
)
    requires
        forall|w: int| #[trigger] wocc(a, w) == wocc(a2, w),
        forall|w: int| #[trigger] wocc(b, w) == wocc(b2, w),
    ensures
        wocc(wcross(a, b, op), v) == wocc(wcross(a2, b2, op), v),
{
    lemma_wocc_wcross(a, b, op, v);
    lemma_wocc_wcross(a2, b2, op, v);
    let f = |u: int| gsum(b, hit_fn(op, u, v));
    let f2 = |u: int| gsum(b2, hit_fn(op, u, v));
    assert forall|u: int| #[trigger] f(u) == f2(u) by {
        lemma_gsum_by_counts(b, b2, hit_fn(op, u, v));
    }
    lemma_gsum_fn_ext(a, f, f2);
    lemma_gsum_by_counts(a, a2, f2);
}

/// A weighted sum is at least the contribution of any single value.
pub proof fn lemma_gsum_lower(s: Seq<(int, nat)>, f: spec_fn(int) -> nat, u: int)
    ensures
        gsum(s, f) >= wocc(s, u) * f(u),
    decreases s.len(),
{
    if s.len() == 0 {
        assert(wocc(s, u) * f(u) == 0) by (nonlinear_arith)
            requires
                wocc(s, u) == 0nat,
        ;
    } else {
        lemma_gsum_lower(s.drop_last(), f, u);
        assert(gsum(s, f) == gsum(s.drop_last(), f) + s.last().1 * f(s.last().0));
        if s.last().0 == u {
            assert(wocc(s, u) == wocc(s.drop_last(), u) + s.last().1);
            let p = wocc(s.drop_last(), u);
            let q = s.last().1;
            assert(gsum(s, f) >= wocc(s, u) * f(u)) by (nonlinear_arith)
                requires
                    gsum(s, f) == gsum(s.drop_last(), f) + q * f(u),
                    gsum(s.drop_last(), f) >= p * f(u),
                    wocc(s, u) == p + q,
            ;
        } else {
            assert(wocc(s, u) == wocc(s.drop_last(), u));
            assert(wocc(s, u) * f(u) == wocc(s.drop_last(), u) * f(u));
        }
    }
}

/// A pair of values of positive weight in the operands gives their
/// combination positive weight in the cross product.
pub proof fn lemma_wcross_pair(
    a: Seq<(int, nat)>,
    b: Seq<(int, nat)>,
    op: BinaryOp,
    u: int,
    w: int,
)
    requires
        wocc(a, u) >= 1,
        wocc(b, w) >= 1,
    ensures
        wocc(wcross(a, b, op), apply_bin_op(op, u, w)) >= 1,
{
    let v = apply_bin_op(op, u, w);
    let f = |x: int| gsum(b, hit_fn(op, x, v));
    lemma_wocc_wcross(a, b, op, v);
    lemma_gsum_lower(a, f, u);
    lemma_gsum_lower(b, hit_fn(op, u, v), w);
    assert(hit_fn(op, u, v)(w) == 1);
    lemma_mul_inequality(1, wocc(b, w) as int, 1);
    assert(f(u) >= 1);
    lemma_mul_inequality(1, wocc(a, u) as int, f(u) as int);
}

/// A value's weight is at least the weight of any one pair holding it.
pub proof fn lemma_wocc_at_index(s: Seq<(int, nat)>, i: int)
    requires
        0 <= i < s.len(),
    ensures
        wocc(s, s[i].0) >= s[i].1,
    decreases s.len(),
{
    if i == s.len() - 1 {
    } else {
        assert(s.drop_last()[i] == s[i]);
        lemma_wocc_at_index(s.drop_last(), i);
    }
}

/// The total weight is at least the weight of any one pair.
pub proof fn lemma_wtotal_at(s: Seq<(int, nat)>, i: int)
    requires
        0 <= i < s.len(),
    ensures
        wtotal(s) >= s[i].1,
    decreases s.len(),
{
    if i == s.len() - 1 {
    } else {
        assert(s.drop_last()[i] == s[i]);
        lemma_wtotal_at(s.drop_last(), i);
    }
}

/// Crossing distributes over splitting the left operand.
pub proof fn lemma_wcross_concat(
    a1: Seq<(int, nat)>,
    a2: Seq<(int, nat)>,
    b: Seq<(int, nat)>,
    op: BinaryOp,
)
    ensures
        wcross(a1 + a2, b, op) == wcross(a1, b, op) + wcross(a2, b, op),
    decreases a2.len(),
{
    if a2.len() == 0 {
        assert(a1 + a2 =~= a1);
        assert(wcross(a1, b, op) + wcross(a2, b, op) =~= wcross(a1, b, op));
    } else {
        assert((a1 + a2).drop_last() =~= a1 + a2.drop_last());
        assert((a1 + a2).last() == a2.last());
        lemma_wcross_concat(a1, a2.drop_last(), b, op);
        assert(wcross(a1, b, op) + wcross(a2.drop_last(), b, op) + wrow(a2.last(), b, op)
            =~= wcross(a1, b, op) + (wcross(a2.drop_last(), b, op) + wrow(a2.last(), b, op)));
    }
}

/// Whether all combinations stay in range depends on the operands only
/// through the weight they give each value.
pub proof fn lemma_combo_in_range_counts(
    op: BinaryOp,
    a: Seq<(int, nat)>,
    a2: Seq<(int, nat)>,
    b: Seq<(int, nat)>,
    b2: Seq<(int, nat)>,
)
    requires
        forall|v: int| #[trigger] wocc(a, v) == wocc(a2, v),
        forall|v: int| #[trigger] wocc(b, v) == wocc(b2, v),
    ensures
        crate::semantics::combo_in_range(op, a, b) == crate::semantics::combo_in_range(
            op,
            a2,
            b2,
        ),
{
    if crate::semantics::combo_in_range(op, a, b) {
        assert forall|u: int, w: int|
            wocc(a2, u) > 0 && wocc(b2, w) > 0 implies crate::semantics::in_i32(
            apply_bin_op(op, u, w),
        ) by {
            assert(wocc(a, u) == wocc(a2, u));
            assert(wocc(b, w) == wocc(b2, w));
        }
    }
    if crate::semantics::combo_in_range(op, a2, b2) {
        assert forall|u: int, w: int|
            wocc(a, u) > 0 && wocc(b, w) > 0 implies crate::semantics::in_i32(
            apply_bin_op(op, u, w),
        ) by {
            assert(wocc(a, u) == wocc(a2, u));
            assert(wocc(b, w) == wocc(b2, w));
        }
    }
}

/// Whether a division meets a zero divisor depends on the operands only
/// through the weight they give each value.
pub proof fn lemma_combo_no_div0_counts(
    op: BinaryOp,
    a: Seq<(int, nat)>,
    a2: Seq<(int, nat)>,
    b: Seq<(int, nat)>,
    b2: Seq<(int, nat)>,
)
    requires
        forall|v: int| #[trigger] wocc(a, v) == wocc(a2, v),
        forall|v: int| #[trigger] wocc(b, v) == wocc(b2, v),
    ensures
        crate::semantics::combo_no_div0(op, a, b) == crate::semantics::combo_no_div0(op, a2, b2),
{
    if op is Division {
        if crate::semantics::combo_no_div0(op, a, b) {
            assert forall|u: int, w: int| wocc(a2, u) > 0 && wocc(b2, w) > 0 implies w != 0 by {
                assert(wocc(a, u) == wocc(a2, u));
                assert(wocc(b, w) == wocc(b2, w));
            }
        }
        if crate::semantics::combo_no_div0(op, a2, b2) {
            assert forall|u: int, w: int| wocc(a, u) > 0 && wocc(b, w) > 0 implies w != 0 by {
                assert(wocc(a, u) == wocc(a2, u));
                assert(wocc(b, w) == wocc(b2, w));
            }
        }
    }
}

/// A value of positive weight appears somewhere in the sequence with a
/// positive pair weight.
pub proof fn lemma_wocc_pos_exists(s: Seq<(int, nat)>, v: int)
    requires
        wocc(s, v) >= 1,
    ensures
        exists|i: int| 0 <= i < s.len() && s[i].0 == v && s[i].1 >= 1,
    decreases s.len(),
{
    if s.len() == 0 {
    } else {
        if s.last().0 == v && s.last().1 >= 1 {
            assert(s[s.len() - 1].0 == v && s[s.len() - 1].1 >= 1);
        } else {
            lemma_wocc_pos_exists(s.drop_last(), v);
            let i = choose|i: int|
                0 <= i < s.drop_last().len() && s.drop_last()[i].0 == v && s.drop_last()[i].1
                    >= 1;
            assert(s[i].0 == v && s[i].1 >= 1);
        }
    }
}

} // verus!
