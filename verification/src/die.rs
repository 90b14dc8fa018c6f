//! A single die, rollable and plottable on its own.

use vstd::prelude::*;

use crate::plot::die_plot;
use crate::roll::draw_die;
use crate::semantics::uniform_outcomes;
use crate::table::{lift, table_wf};

verus! {

/// A die with a fixed number of sides.
#[derive(Clone, Copy, Debug, PartialEq, Eq, Structural)]
pub struct Die {
    max: u32,
}

impl Die {
    /// The number of sides of this die.
    pub closed spec fn sides(self) -> u32 {
        self.max
    }

    /// Make a die with the given number of sides.
    pub fn new(max: u32) -> (d: Die)
        ensures
            d.sides() == max,
    {
        Die { max }
    }

    /// Roll the die once: a uniform draw from 1 through its side count.
    pub fn roll(&self) -> (r: i32)
        requires
            1 <= self.sides() <= i32::MAX,
        ensures
            1 <= r <= self.sides(),
    {
        draw_die(self.max as i32)
    }

    /// The die's distribution: every side has an equal chance, so the
    /// table holds one entry of weight 1 per side.
    pub fn plot(&self) -> (t: Vec<(i32, u64)>)
        requires
            1 <= self.sides() <= i32::MAX,
        ensures
            table_wf(t@),
            lift(t@) == uniform_outcomes(self.sides() as nat),
    {
        let p = die_plot(self.max);
        p.plot
    }
}

} // verus!
