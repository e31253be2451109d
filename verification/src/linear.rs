//! The linear rasterizer: a horizontal strip whose column `x` shows the
//! gradient at `x / width`, and the stepped variant that lays the discrete
//! stops out as equal-width swatches.

use vstd::prelude::*;

use crate::color::LchColor;
use crate::gradient::{
    lemma_eval_ends, spec_eval, spec_step_count, spec_stop, step_count, Gradient,
};

verus! {

/// Samples one row of a continuous linear gradient: entry `x` is the
/// gradient at `x / width`, so the strip starts exactly on the first control
/// point and approaches the last one at the right edge.
pub fn linear_gradient_continuous(g: &Gradient, width: u32) -> (cols: Vec<LchColor>)
    requires
        g.wf(),
        1 <= width,
    ensures
        cols@.len() == width,
        forall|x: int| 0 <= x < width ==> cols@[x] == spec_eval(g@, x, width as int),
        cols@[0] == g@[0],
        forall|x: int| 0 <= x < width ==> cols@[x].wf(),
{
    let mut cols: Vec<LchColor> = Vec::new();
    for x in 0..width
        invariant
            g.wf(),
            1 <= width,
            cols@.len() == x,
            forall|j: int| 0 <= j < x ==> cols@[j] == spec_eval(g@, j, width as int),
            forall|j: int| 0 <= j < x ==> cols@[j].wf(),
    {
        cols.push(g.eval(x as u64, width as u64));
    }
    proof {
        lemma_eval_ends(g@, width as int);
    }
    cols
}

/// Samples the stop sequence of a stepped linear gradient: the step-count
/// policy decides how many stops there are, and stop `i` is the gradient at
/// `i / (steps - 1)`.
pub fn linear_gradient_stepped(g: &Gradient, requested: usize) -> (stops: Vec<LchColor>)
    requires
        g.wf(),
        (g@.len() - 1) * requested + 1 <= usize::MAX,
        g@.len() + requested <= usize::MAX,
        1 <= spec_step_count(g@.len() as int, requested as int) <= 0x1_0000_0001,
    ensures
        stops@.len() == spec_step_count(g@.len() as int, requested as int),
        forall|i: int| 0 <= i < stops@.len() ==> stops@[i] == spec_stop(g@, i, stops@.len() as int),
        forall|i: int| 0 <= i < stops@.len() ==> stops@[i].wf(),
{
    let steps = step_count(g.len(), requested);
    g.stops(steps)
}

/// The swatch a column of a stepped strip falls in: swatches are
/// `swatch_width` columns wide and laid out left to right.
pub fn swatch_index(x: u32, swatch_width: u32) -> (s: u32)
    requires
        1 <= swatch_width,
    ensures
        s == x as int / swatch_width as int,
{
    x / swatch_width
}

} // verus!
