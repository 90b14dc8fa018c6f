//! The exact evaluation mode: `plot` turns an expression into the full
//! distribution of its outcomes by crossing the child tables of every
//! inner node under that node's operator and accumulating the weight of
//! each combined value.

use vstd::prelude::*;

use crate::convolution::{
    lemma_combo_in_range_counts, lemma_combo_no_div0_counts, lemma_wcross_by_counts,
    lemma_wcross_concat, lemma_wocc_at_index, lemma_wocc_pos_exists, lemma_wtotal_at,
    lemma_wtotal_concat, lemma_wtotal_wcross, lemma_wtotal_wrow,
};
use crate::errors::EvalError;
use crate::expression::{wf, Expression};
use crate::operators::{apply_bin_op, eval_op, BinaryOp};
use crate::semantics::{
    combo_in_range, combo_no_div0, in_i32, in_range_all, lemma_uniform_total,
    lemma_weighted_outcomes_node, no_div0_all, node_left, node_right, totals_fit,
    uniform_outcomes, wcross, weighted_outcomes, wocc, wrow, wtotal,
};
use crate::table::{
    add_weight, lemma_lift_wocc, lemma_lift_wtotal, lift, table_wf, tcount, tsum, PlotResult,
};

verus! {

/// The distribution of a single die: one entry of weight 1 per side.
pub(crate) fn die_plot(m: u32) -> (res: PlotResult)
    requires
        1 <= m <= i32::MAX,
    ensures
        res.wf(),
        lift(res.plot@) == uniform_outcomes(m as nat),
{
    let mut t: Vec<(i32, u64)> = Vec::new();
    let mut k: u32 = 0;
    while k < m
        invariant
            0 <= k <= m,
            m <= i32::MAX,
            t@.len() == k,
            forall|idx: int| 0 <= idx < k ==> #[trigger] t@[idx] == (((idx + 1) as i32), 1u64),
        decreases m - k,
    {
        t.push(((k + 1) as i32, 1u64));
        k = k + 1;
    }
    proof {
        assert(lift(t@) =~= uniform_outcomes(m as nat));
        lemma_uniform_total(m as nat);
        lemma_lift_wtotal(t@);
    }
    PlotResult { total: m as u64, plot: t }
}

/// The distribution of a constant: its single value, of weight 1.
pub(crate) fn constant_plot(n: i32) -> (res: PlotResult)
    ensures
        res.wf(),
        lift(res.plot@) == seq![(n as int, 1nat)],
{
    let mut t: Vec<(i32, u64)> = Vec::new();
    t.push((n, 1u64));
    proof {
        assert(t@ =~= seq![(n, 1u64)]);
        assert(t@[0] == (n, 1u64));
        assert(lift(t@) =~= seq![(n as int, 1nat)]);
        assert(lift(t@).drop_last() =~= Seq::<(int, nat)>::empty());
        lemma_lift_wtotal(t@);
        assert(wtotal(Seq::<(int, nat)>::empty()) == 0);
        assert(lift(t@).last() == (n as int, 1nat));
        assert(wtotal(lift(t@)) == 1);
    }
    PlotResult { total: 1u64, plot: t }
}

/// Cross two outcome tables under one operator: every pair of entries is
/// combined with `eval_op` and the product of its weights is added to the
/// combined value's count.  Fails exactly when some combination of carried
/// values leaves the roll result range, divides by zero, or when the
/// combined total weight no longer fits its type.
pub(crate) fn combine(left: &PlotResult, right: &PlotResult, op: BinaryOp) -> (res: Result<
    PlotResult,
    EvalError,
>)
    requires
        left.wf(),
        right.wf(),
    ensures
        (res matches Ok(p) ==> {
            &&& p.wf()
            &&& p.total as nat == wtotal(wcross(lift(left.plot@), lift(right.plot@), op))
            &&& forall|v: int|
                #[trigger] tcount(p.plot@, v) == wocc(
                    wcross(lift(left.plot@), lift(right.plot@), op),
                    v,
                )
        }),
        res is Ok <==> combo_in_range(op, lift(left.plot@), lift(right.plot@)) && combo_no_div0(
            op,
            lift(left.plot@),
            lift(right.plot@),
        ) && wtotal(wcross(lift(left.plot@), lift(right.plot@), op)) <= u64::MAX,
        res == Err::<PlotResult, EvalError>(EvalError::DivisionByZero) ==> !combo_no_div0(
            op,
            lift(left.plot@),
            lift(right.plot@),
        ),
        res == Err::<PlotResult, EvalError>(EvalError::Overflow) ==> !(combo_in_range(
            op,
            lift(left.plot@),
            lift(right.plot@),
        ) && wtotal(wcross(lift(left.plot@), lift(right.plot@), op)) <= u64::MAX),
{
    let ghost a = lift(left.plot@);
    let ghost b = lift(right.plot@);
    let ghost c = wcross(a, b, op);
    proof {
        lemma_lift_wtotal(left.plot@);
        lemma_lift_wtotal(right.plot@);
        lemma_wtotal_wcross(a, b, op);
        assert(wtotal(c) == (left.total as nat) * (right.total as nat));
    }
    let total = match left.total.checked_mul(right.total) {
        Some(t) => t,
        None => {
            return Err(EvalError::Overflow);
        },
    };
    let nl = left.plot.len();
    let nr = right.plot.len();
    let mut acc: Vec<(i32, u64)> = Vec::new();
    let mut i: usize = 0;
    proof {
        assert(a.take(0) =~= Seq::<(int, nat)>::empty());
    }
    while i < nl
        invariant
            0 <= i <= nl,
            nl == left.plot@.len(),
            nr == right.plot@.len(),
            left.wf(),
            right.wf(),
            a == lift(left.plot@),
            b == lift(right.plot@),
            c == wcross(a, b, op),
            total as nat == wtotal(c),
            table_wf(acc@),
            forall|v: int|
                #[trigger] tcount(acc@, v) == wocc(wcross(a.take(i as int), b, op), v),
            tsum(acc@) == wtotal(wcross(a.take(i as int), b, op)),
            forall|i2: int, j2: int|
                0 <= i2 < i && 0 <= j2 < nr ==> in_i32(
                    #[trigger] apply_bin_op(op, a[i2].0, b[j2].0),
                ) && (op is Division ==> b[j2].0 != 0),
        decreases nl - i,
    {
        let (lv, lw) = left.plot[i];
        proof {
            assert(a[i as int] == (lv as int, lw as nat));
            assert(b.take(0) =~= Seq::<(int, nat)>::empty());
            assert(wrow(a[i as int], b.take(0), op) =~= Seq::<(int, nat)>::empty());
            assert(wcross(a.take(i as int), b, op) + Seq::<(int, nat)>::empty() =~= wcross(
                a.take(i as int),
                b,
                op,
            ));
        }
        let mut j: usize = 0;
        while j < nr
            invariant
                0 <= j <= nr,
                0 <= i < nl,
                nl == left.plot@.len(),
                nr == right.plot@.len(),
                left.wf(),
                right.wf(),
                a == lift(left.plot@),
                b == lift(right.plot@),
                c == wcross(a, b, op),
                total as nat == wtotal(c),
                lv == left.plot@[i as int].0,
                lw == left.plot@[i as int].1,
                table_wf(acc@),
                forall|v: int|
                    #[trigger] tcount(acc@, v) == wocc(
                        wcross(a.take(i as int), b, op) + wrow(
                            a[i as int],
                            b.take(j as int),
                            op,
                        ),
                        v,
                    ),
                tsum(acc@) == wtotal(
                    wcross(a.take(i as int), b, op) + wrow(a[i as int], b.take(j as int), op),
                ),
                forall|i2: int, j2: int|
                    0 <= i2 < i && 0 <= j2 < nr ==> in_i32(
                        #[trigger] apply_bin_op(op, a[i2].0, b[j2].0),
                    ) && (op is Division ==> b[j2].0 != 0),
                forall|j2: int|
                    0 <= j2 < j ==> in_i32(#[trigger] apply_bin_op(op, a[i as int].0, b[j2].0))
                        && (op is Division ==> b[j2].0 != 0),
            decreases nr - j,
        {
            let (rv, rw) = right.plot[j];
            proof {
                assert(b[j as int] == (rv as int, rw as nat));
                assert(a[i as int].1 >= 1 && b[j as int].1 >= 1);
                lemma_wocc_at_index(a, i as int);
                lemma_wocc_at_index(b, j as int);
            }
            let v = match eval_op(op, lv, rv) {
                Ok(v) => v,
                Err(e) => {
                    proof {
                        assert(wocc(a, lv as int) > 0 && wocc(b, rv as int) > 0);
                        if e == EvalError::DivisionByZero {
                            assert(op is Division && rv == 0);
                            assert(!combo_no_div0(op, a, b));
                        } else {
                            assert(!in_i32(apply_bin_op(op, lv as int, rv as int)));
                            assert(!combo_in_range(op, a, b));
                        }
                    }
                    return Err(e);
                },
            };
            proof {
                let p = a[i as int].1;
                let q = wtotal(b.take(j as int));
                let r = b[j as int].1;
                let t0 = wtotal(wcross(a.take(i as int), b, op));
                let x1 = wtotal(a.skip(i as int));
                let tb = wtotal(b);
                assert(a.take(i as int) + a.skip(i as int) =~= a);
                lemma_wcross_concat(a.take(i as int), a.skip(i as int), b, op);
                lemma_wtotal_concat(
                    wcross(a.take(i as int), b, op),
                    wcross(a.skip(i as int), b, op),
                );
                lemma_wtotal_wcross(a.skip(i as int), b, op);
                assert(a.skip(i as int)[0] == a[i as int]);
                lemma_wtotal_at(a.skip(i as int), 0);
                assert(b.take(j as int + 1).drop_last() =~= b.take(j as int));
                assert(b.take(j as int + 1).last() == b[j as int]);
                assert(wtotal(b.take(j as int + 1)) == q + r);
                assert(b.take(j as int + 1) + b.skip(j as int + 1) =~= b);
                lemma_wtotal_concat(b.take(j as int + 1), b.skip(j as int + 1));
                assert(tb >= q + r);
                lemma_wtotal_concat(
                    wcross(a.take(i as int), b, op),
                    wrow(a[i as int], b.take(j as int), op),
                );
                lemma_wtotal_wrow(a[i as int], b.take(j as int), op);
                assert(tsum(acc@) == t0 + p * q);
                assert(p * q + p * r <= x1 * tb) by (nonlinear_arith)
                    requires
                        x1 >= p,
                        tb >= q + r,
                        p >= 0nat,
                        q >= 0nat,
                        r >= 0nat,
                ;
                assert(wtotal(c) == t0 + x1 * tb);
                assert(tsum(acc@) + p * r <= wtotal(c));
                assert(p * r == (lw as nat) * (rw as nat));
                assert((lw as nat) * (rw as nat) >= 1) by (nonlinear_arith)
                    requires
                        lw >= 1u64,
                        rw >= 1u64,
                ;
            }
            let w = lw * rw;
            add_weight(&mut acc, v, w);
            proof {
                let e = (apply_bin_op(op, a[i as int].0, b[j as int].0), a[i as int].1 * b[
                    j as int
                ].1);
                assert(b.take(j as int + 1).drop_last() =~= b.take(j as int));
                assert(b.take(j as int + 1).last() == b[j as int]);
                assert(wrow(a[i as int], b.take(j as int + 1), op) == wrow(
                    a[i as int],
                    b.take(j as int),
                    op,
                ).push(e));
                let prev = wcross(a.take(i as int), b, op) + wrow(
                    a[i as int],
                    b.take(j as int),
                    op,
                );
                let cur = wcross(a.take(i as int), b, op) + wrow(
                    a[i as int],
                    b.take(j as int + 1),
                    op,
                );
                assert(cur =~= prev.push(e));
                assert(v as int == e.0);
                assert(w as nat == e.1);
                assert forall|u: int| #[trigger] wocc(cur, u) == wocc(prev, u) + (if u == e.0 {
                    e.1
                } else {
                    0nat
                }) by {
                    assert(prev.push(e).drop_last() =~= prev);
                    assert(prev.push(e).last() == e);
                }
                assert(wtotal(cur) == wtotal(prev) + e.1) by {
                    assert(prev.push(e).drop_last() =~= prev);
                    assert(prev.push(e).last() == e);
                }
                assert forall|j2: int|
                    0 <= j2 < j + 1 implies in_i32(
                    #[trigger] apply_bin_op(op, a[i as int].0, b[j2].0),
                ) && (op is Division ==> b[j2].0 != 0) by {
                    if j2 == j {
                        assert(a[i as int].0 == lv as int && b[j2].0 == rv as int);
                        assert(in_i32(apply_bin_op(op, lv as int, rv as int)));
                        assert(op is Division ==> rv != 0);
                    }
                }
            }
            j = j + 1;
        }
        proof {
            assert(b.take(nr as int) =~= b);
            assert(a.take(i as int + 1).drop_last() =~= a.take(i as int));
            assert(a.take(i as int + 1).last() == a[i as int]);
            assert(wcross(a.take(i as int + 1), b, op) == wcross(a.take(i as int), b, op)
                + wrow(a[i as int], b, op));
            assert forall|i2: int, j2: int|
                0 <= i2 < i + 1 && 0 <= j2 < nr implies in_i32(
                #[trigger] apply_bin_op(op, a[i2].0, b[j2].0),
            ) && (op is Division ==> b[j2].0 != 0) by {
                if i2 == i as int {
                    assert(a[i2] == a[i as int]);
                    assert(0 <= j2 < j);
                    assert(in_i32(apply_bin_op(op, a[i as int].0, b[j2].0)));
                    assert(op is Division ==> b[j2].0 != 0);
                } else {
                    assert(0 <= i2 < i);
                }
            }
        }
        i = i + 1;
    }
    proof {
        assert(a.take(nl as int) =~= a);
        assert forall|u: int, w: int|
            #![trigger wocc(a, u), wocc(b, w)]
            wocc(a, u) > 0 && wocc(b, w) > 0 implies in_i32(apply_bin_op(op, u, w)) && (op
            is Division ==> w != 0) by {
            lemma_wocc_pos_exists(a, u);
            lemma_wocc_pos_exists(b, w);
            let i2 = choose|i2: int| 0 <= i2 < a.len() && a[i2].0 == u && a[i2].1 >= 1;
            let j2 = choose|j2: int| 0 <= j2 < b.len() && b[j2].0 == w && b[j2].1 >= 1;
            assert(in_i32(apply_bin_op(op, a[i2].0, b[j2].0)) && (op is Division ==> b[j2].0
                != 0));
        }
    }
    Ok(PlotResult { total, plot: acc })
}

/// Roll-range containment: any value that `roll` can return — any value
/// of positive weight in the expression's outcome distribution — stands
/// among the keys of the table that `plot` builds for the same
/// expression, and every key of that table carries positive weight in the
/// distribution, so no other value is ever rolled.
pub proof fn lemma_roll_within_plot(e: Expression, p: PlotResult, v: i32)
    requires
        p.wf(),
        forall|u: int| #[trigger] tcount(p.plot@, u) == wocc(weighted_outcomes(e), u),
        wocc(weighted_outcomes(e), v as int) >= 1,
    ensures
        exists|k: int| 0 <= k < p.plot@.len() && (#[trigger] p.plot@[k]).0 == v,
        forall|k: int|
            0 <= k < p.plot@.len() ==> wocc(weighted_outcomes(e), (#[trigger] p.plot@[k]).0 as int)
                >= 1,
{
    assert(tcount(p.plot@, v as int) >= 1);
    crate::table::lemma_tcount_pos_exists(p.plot@, v as int);
    assert forall|k: int|
        0 <= k < p.plot@.len() implies wocc(
        weighted_outcomes(e),
        (#[trigger] p.plot@[k]).0 as int,
    ) >= 1 by {
        crate::table::lemma_tcount_at(p.plot@, k);
        assert(tcount(p.plot@, p.plot@[k].0 as int) == p.plot@[k].1);
        assert(p.plot@[k].1 >= 1);
    }
}

impl Expression {
    /// Create the exact distribution of all possible outcomes of this
    /// expression: each possible value with the number of outcome
    /// combinations producing it, and the total number of combinations.
    /// Fails exactly when some combination overflows the roll result
    /// range, some division meets a zero divisor, or some node's total
    /// weight does not fit an outcome count.
    pub fn plot(&self) -> (res: Result<PlotResult, EvalError>)
        requires
            wf(*self),
        ensures
            (res matches Ok(p) ==> {
                &&& p.wf()
                &&& p.total as nat == wtotal(weighted_outcomes(*self))
                &&& forall|v: int|
                    #[trigger] tcount(p.plot@, v) == wocc(weighted_outcomes(*self), v)
            }),
            res is Ok <==> in_range_all(*self) && no_div0_all(*self) && totals_fit(*self),
            res == Err::<PlotResult, EvalError>(EvalError::DivisionByZero) ==> !no_div0_all(
                *self,
            ),
            res == Err::<PlotResult, EvalError>(EvalError::Overflow) ==> !(in_range_all(*self)
                && totals_fit(*self)),
        decreases *self,
    {
        match self {
            Expression::Die(m) => {
                let p = die_plot(*m);
                proof {
                    lemma_uniform_total(*m as nat);
                    assert forall|v: int| #[trigger] tcount(p.plot@, v) == wocc(
                        weighted_outcomes(*self),
                        v,
                    ) by {
                        lemma_lift_wocc(p.plot@, v);
                    }
                    lemma_lift_wtotal(p.plot@);
                }
                Ok(p)
            },
            Expression::Constant(n) => {
                let p = constant_plot(*n);
                proof {
                    assert forall|v: int| #[trigger] tcount(p.plot@, v) == wocc(
                        weighted_outcomes(*self),
                        v,
                    ) by {
                        lemma_lift_wocc(p.plot@, v);
                    }
                    lemma_lift_wtotal(p.plot@);
                    assert(seq![(*n as int, 1nat)].drop_last() =~= Seq::<(int, nat)>::empty());
                }
                Ok(p)
            },
            _ => {
                let parts = self.get_operation().unwrap();
                let (op, l, r) = parts;
                let ghost ml = weighted_outcomes(node_left(*self));
                let ghost mr = weighted_outcomes(node_right(*self));
                proof {
                    lemma_weighted_outcomes_node(*self);
                    match self {
                        Expression::Sum(bl, br) => {
                            assert(decreases_to!(*self => **bl));
                            assert(decreases_to!(*self => **br));
                        },
                        Expression::Diff(bl, br) => {
                            assert(decreases_to!(*self => **bl));
                            assert(decreases_to!(*self => **br));
                        },
                        Expression::Multiply(bl, br) => {
                            assert(decreases_to!(*self => **bl));
                            assert(decreases_to!(*self => **br));
                        },
                        Expression::Divide(bl, br) => {
                            assert(decreases_to!(*self => **bl));
                            assert(decreases_to!(*self => **br));
                        },
                        Expression::Advantage(bx) => {
                            assert(decreases_to!(*self => **bx));
                        },
                        Expression::Disadvantage(bx) => {
                            assert(decreases_to!(*self => **bx));
                        },
                        Expression::Compare(bl, br, _) => {
                            assert(decreases_to!(*self => **bl));
                            assert(decreases_to!(*self => **br));
                        },
                        _ => {},
                    }
                }
                let lt = match l.plot() {
                    Ok(p) => p,
                    Err(e) => {
                        return Err(e);
                    },
                };
                let rt = match r.plot() {
                    Ok(p) => p,
                    Err(e) => {
                        return Err(e);
                    },
                };
                let res = combine(&lt, &rt, op);
                proof {
                    let la = lift(lt.plot@);
                    let lb = lift(rt.plot@);
                    assert forall|v: int| #[trigger] wocc(la, v) == wocc(ml, v) by {
                        lemma_lift_wocc(lt.plot@, v);
                        assert(tcount(lt.plot@, v) == wocc(ml, v));
                    }
                    assert forall|v: int| #[trigger] wocc(lb, v) == wocc(mr, v) by {
                        lemma_lift_wocc(rt.plot@, v);
                        assert(tcount(rt.plot@, v) == wocc(mr, v));
                    }
                    assert forall|v: int| #[trigger] wocc(wcross(la, lb, op), v) == wocc(
                        wcross(ml, mr, op),
                        v,
                    ) by {
                        lemma_wcross_by_counts(la, ml, lb, mr, op, v);
                    }
                    lemma_wtotal_wcross(la, lb, op);
                    lemma_wtotal_wcross(ml, mr, op);
                    lemma_lift_wtotal(lt.plot@);
                    lemma_lift_wtotal(rt.plot@);
                    assert(wtotal(wcross(la, lb, op)) == wtotal(wcross(ml, mr, op)));
                    lemma_combo_in_range_counts(op, la, ml, lb, mr);
                    lemma_combo_no_div0_counts(op, la, ml, lb, mr);
                }
                res
            },
        }
    }
}

} // verus!
