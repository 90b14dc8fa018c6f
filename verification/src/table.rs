//! The outcome table that `plot` produces: value-weight entries sorted by
//! value, each weight the number of outcome combinations yielding that
//! value, together with the running total of combinations.

use vstd::prelude::*;

use crate::semantics::{wocc, wtotal};

verus! {

/// The combined weight the table gives the value `v`.
pub open spec fn tcount(t: Seq<(i32, u64)>, v: int) -> nat
    decreases t.len(),
{
    if t.len() == 0 {
        0
    } else {
        tcount(t.drop_last(), v) + if t.last().0 == v {
            t.last().1 as nat
        } else {
            0nat
        }
    }
}

/// The sum of all weights in the table.
pub open spec fn tsum(t: Seq<(i32, u64)>) -> nat
    decreases t.len(),
{
    if t.len() == 0 {
        0
    } else {
        tsum(t.drop_last()) + t.last().1 as nat
    }
}

/// A table's entries as a weighted outcome sequence.
pub open spec fn lift(t: Seq<(i32, u64)>) -> Seq<(int, nat)> {
    t.map_values(|p: (i32, u64)| (p.0 as int, p.1 as nat))
}

/// A well-formed table: values strictly increasing, every weight positive.
pub open spec fn table_wf(t: Seq<(i32, u64)>) -> bool {
    &&& forall|i: int, j: int| 0 <= i < j < t.len() ==> (#[trigger] t[i]).0 < (#[trigger] t[j]).0
    &&& forall|i: int| 0 <= i < t.len() ==> (#[trigger] t[i]).1 >= 1
}

/// The exact distribution of an expression's outcomes: `plot` maps each
/// possible roll result to the number of outcome combinations producing
/// it, and `total` counts all combinations.
#[derive(Clone, Debug, PartialEq)]
pub struct PlotResult {
    /// The number of outcome combinations over all entries.
    pub total: u64,
    /// One entry per possible result, sorted by result value, each carrying
    /// the number of combinations that yield it.
    pub plot: Vec<(i32, u64)>,
}

impl PlotResult {
    /// A sound table: well formed and conserving its total.
    pub open spec fn wf(self) -> bool {
        table_wf(self.plot@) && self.total as nat == tsum(self.plot@)
    }

    /// The weight this plot gives the value `v`.
    pub open spec fn weight_of(self, v: int) -> nat {
        tcount(self.plot@, v)
    }
}

/// Lifting a table preserves the weight of every value.
pub proof fn lemma_lift_wocc(t: Seq<(i32, u64)>, v: int)
    ensures
        wocc(lift(t), v) == tcount(t, v),
    decreases t.len(),
{
    if t.len() == 0 {
    } else {
        assert(lift(t).drop_last() =~= lift(t.drop_last()));
        assert(lift(t).last() == (t.last().0 as int, t.last().1 as nat));
        lemma_lift_wocc(t.drop_last(), v);
    }
}

/// Lifting a table preserves its total weight.
pub proof fn lemma_lift_wtotal(t: Seq<(i32, u64)>)
    ensures
        wtotal(lift(t)) == tsum(t),
    decreases t.len(),
{
    if t.len() == 0 {
    } else {
        assert(lift(t).drop_last() =~= lift(t.drop_last()));
        assert(lift(t).last() == (t.last().0 as int, t.last().1 as nat));
        lemma_lift_wtotal(t.drop_last());
    }
}

/// In a table with strictly increasing values, the weight of the value at
/// any index is exactly that entry's weight.
pub proof fn lemma_tcount_at(t: Seq<(i32, u64)>, i: int)
    requires
        forall|k: int, l: int| 0 <= k < l < t.len() ==> (#[trigger] t[k]).0 < (#[trigger] t[l]).0,
        0 <= i < t.len(),
    ensures
        tcount(t, t[i].0 as int) == t[i].1,
    decreases t.len(),
{
    if t.len() == 0 {
    } else if i == t.len() - 1 {
        lemma_tcount_absent(t.drop_last(), t[i].0 as int);
    } else {
        assert(t.drop_last()[i] == t[i]);
        lemma_tcount_at(t.drop_last(), i);
        assert(t.last().0 != t[i].0);
    }
}

/// A value under none of the entries has weight 0.
pub proof fn lemma_tcount_absent(t: Seq<(i32, u64)>, v: int)
    requires
        forall|k: int| 0 <= k < t.len() ==> (#[trigger] t[k]).0 != v,
    ensures
        tcount(t, v) == 0,
    decreases t.len(),
{
    if t.len() == 0 {
    } else {
        assert forall|k: int| 0 <= k < t.drop_last().len() implies (#[trigger] t.drop_last()[
            k
        ]).0 != v by {
            assert(t.drop_last()[k] == t[k]);
        }
        lemma_tcount_absent(t.drop_last(), v);
        assert(t[t.len() - 1].0 != v);
    }
}

/// A value of positive weight in a table appears under one of its
/// entries.
pub proof fn lemma_tcount_pos_exists(t: Seq<(i32, u64)>, v: int)
    requires
        tcount(t, v) >= 1,
    ensures
        exists|k: int| 0 <= k < t.len() && (#[trigger] t[k]).0 == v,
    decreases t.len(),
{
    if t.len() == 0 {
    } else {
        if t.last().0 == v {
            assert(t[t.len() - 1].0 == v);
        } else {
            lemma_tcount_pos_exists(t.drop_last(), v);
            let k = choose|k: int|
                0 <= k < t.drop_last().len() && (#[trigger] t.drop_last()[k]).0 == v;
            assert(t[k].0 == v);
        }
    }
}

/// No value outweighs the whole table.
pub proof fn lemma_tcount_le_tsum(t: Seq<(i32, u64)>, v: int)
    ensures
        tcount(t, v) <= tsum(t),
    decreases t.len(),
{
    if t.len() == 0 {
    } else {
        lemma_tcount_le_tsum(t.drop_last(), v);
    }
}

/// Raising one entry's weight by `w` raises the weight of its value and
/// the table's total by `w` and changes nothing else.
pub proof fn lemma_tcount_update(t: Seq<(i32, u64)>, i: int, w: u64, u: int)
    requires
        0 <= i < t.len(),
    ensures
        tcount(t.update(i, (t[i].0, w)), u) == tcount(t, u) + if t[i].0 == u {
            w as nat
        } else {
            0nat
        } - if t[i].0 == u {
            t[i].1 as nat
        } else {
            0nat
        },
        tsum(t.update(i, (t[i].0, w))) == tsum(t) + w - t[i].1,
    decreases t.len(),
{
    let t2 = t.update(i, (t[i].0, w));
    if i == t.len() - 1 {
        assert(t2.drop_last() =~= t.drop_last());
        assert(t2.last() == (t[i].0, w));
    } else {
        assert(t2.drop_last() =~= t.drop_last().update(i, (t[i].0, w)));
        assert(t2.last() == t.last());
        assert(t.drop_last()[i] == t[i]);
        lemma_tcount_update(t.drop_last(), i, w, u);
    }
}

/// Inserting an entry adds its weight to its value's weight and to the
/// total and changes nothing else.
pub proof fn lemma_tcount_insert(t: Seq<(i32, u64)>, i: int, e: (i32, u64), u: int)
    requires
        0 <= i <= t.len(),
    ensures
        tcount(t.insert(i, e), u) == tcount(t, u) + if e.0 == u {
            e.1 as nat
        } else {
            0nat
        },
        tsum(t.insert(i, e)) == tsum(t) + e.1,
    decreases t.len(),
{
    let t2 = t.insert(i, e);
    if i == t.len() {
        assert(t2 =~= t.push(e));
        assert(t2.drop_last() =~= t);
        assert(t2.last() == e);
    } else {
        assert(t2.drop_last() =~= t.drop_last().insert(i, e));
        assert(t2.last() == t.last());
        lemma_tcount_insert(t.drop_last(), i, e, u);
    }
}

/// Add `w` combinations of the value `v` to a table, keeping it well
/// formed and its weights exact.
pub fn add_weight(t: &mut Vec<(i32, u64)>, v: i32, w: u64)
    requires
        table_wf(old(t)@),
        w >= 1,
        tsum(old(t)@) + w <= u64::MAX,
    ensures
        table_wf(final(t)@),
        forall|u: int|
            #[trigger] tcount(final(t)@, u) == tcount(old(t)@, u) + if u == v as int {
                w as nat
            } else {
                0nat
            },
        tsum(final(t)@) == tsum(old(t)@) + w,
{
    let ghost t0 = t@;
    let mut i: usize = 0;
    while i < t.len() && t[i].0 < v
        invariant
            t@ == t0,
            table_wf(t0),
            0 <= i <= t0.len(),
            forall|k: int| 0 <= k < i ==> (#[trigger] t0[k]).0 < v,
        decreases t0.len() - i,
    {
        i = i + 1;
    }
    if i < t.len() && t[i].0 == v {
        let w0 = t[i].1;
        proof {
            lemma_tcount_at(t0, i as int);
            lemma_tcount_le_tsum(t0, v as int);
        }
        t[i] = (v, w0 + w);
        proof {
            assert(t@ =~= t0.update(i as int, (v, (w0 + w) as u64)));
            assert forall|u: int| #[trigger] tcount(t@, u) == tcount(t0, u) + (if u == v as int {
                w as nat
            } else {
                0nat
            }) by {
                lemma_tcount_update(t0, i as int, (w0 + w) as u64, u);
            }
            lemma_tcount_update(t0, i as int, (w0 + w) as u64, 0);
            assert forall|k: int, l: int|
                0 <= k < l < t@.len() implies (#[trigger] t@[k]).0 < (#[trigger] t@[l]).0 by {
                assert(t@[k].0 == t0[k].0);
                assert(t@[l].0 == t0[l].0);
            }
            assert forall|k: int| 0 <= k < t@.len() implies (#[trigger] t@[k]).1 >= 1 by {
                if k != i {
                    assert(t@[k] == t0[k]);
                }
            }
        }
    } else {
        proof {
            assert forall|k: int| 0 <= k < t0.len() implies (#[trigger] t0[k]).0 != v by {
                if k >= i {
                    if k > i {
                        assert(t0[i as int].0 < t0[k].0);
                    }
                }
            }
            lemma_tcount_absent(t0, v as int);
        }
        t.insert(i, (v, w));
        proof {
            assert forall|u: int| #[trigger] tcount(t@, u) == tcount(t0, u) + (if u == v as int {
                w as nat
            } else {
                0nat
            }) by {
                lemma_tcount_insert(t0, i as int, (v, w), u);
            }
            lemma_tcount_insert(t0, i as int, (v, w), 0);
            assert forall|k: int, l: int|
                0 <= k < l < t@.len() implies (#[trigger] t@[k]).0 < (#[trigger] t@[l]).0 by {
                if l < i {
                    assert(t@[k] == t0[k] && t@[l] == t0[l]);
                } else if k < i && l == i {
                    assert(t@[k] == t0[k]);
                } else if k < i && l > i {
                    assert(t@[k] == t0[k] && t@[l] == t0[l - 1]);
                    assert(t0[k].0 < v);
                    assert(t0[i as int].0 > v || i == t0.len());
                } else if k == i {
                    assert(t@[l] == t0[l - 1]);
                    assert(t0[l - 1].0 >= t0[i as int].0);
                    assert(t0[i as int].0 > v);
                } else {
                    assert(t@[k] == t0[k - 1] && t@[l] == t0[l - 1]);
                }
            }
            assert forall|k: int| 0 <= k < t@.len() implies (#[trigger] t@[k]).1 >= 1 by {
                if k < i {
                    assert(t@[k] == t0[k]);
                } else if k > i {
                    assert(t@[k] == t0[k - 1]);
                }
            }
        }
    }
}

} // verus!
