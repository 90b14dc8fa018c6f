//! A constant value, rollable and plottable on its own.

use vstd::prelude::*;

use crate::plot::constant_plot;
use crate::table::{lift, table_wf};

verus! {

/// A roll expression that always comes up the same.
#[derive(Clone, Copy, Debug, PartialEq, Eq, Structural)]
pub struct Constant {
    pub num: i32,
}

impl Constant {
    /// Roll the constant: always its value.
    pub fn roll(&self) -> (r: i32)
        ensures
            r == self.num,
    {
        self.num
    }

    /// The constant's distribution: its single value, of weight 1.
    pub fn plot(&self) -> (t: Vec<(i32, u64)>)
        ensures
            table_wf(t@),
            lift(t@) == seq![(self.num as int, 1nat)],
    {
        let p = constant_plot(self.num);
        p.plot
    }
}

} // verus!
