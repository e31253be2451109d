//! The overlay compositor: "atop" alpha blending of a translucent overlay
//! color over an opaque gradient pixel, in linear-light fixed point.
//!
//! Channels and alpha run over `[0, 1_000_000]` for `[0, 1]`.  Composited
//! atop an opaque destination, each result channel is `over * alpha + base *
//! (1 - alpha)` rounded to the nearest millionth, and the result keeps the
//! destination's full coverage.

use vstd::prelude::*;
use vstd::arithmetic::div_mod::{
    lemma_basic_div, lemma_div_is_ordered, lemma_div_multiples_vanish_fancy, lemma_div_pos_is_pos,
};
use vstd::arithmetic::mul::lemma_mul_inequality;

use crate::radial::UNIT;

verus! {

/// A linear-light color: red, green and blue in millionths of full
/// intensity.
#[derive(Clone, Copy, Debug, PartialEq, Eq, Structural)]
pub struct LinRgb {
    pub red: i64,
    pub green: i64,
    pub blue: i64,
}

impl LinRgb {
    /// Every channel stays inside `[0, 1]` in millionths.
    pub open spec fn wf(self) -> bool {
        &&& 0 <= self.red <= UNIT
        &&& 0 <= self.green <= UNIT
        &&& 0 <= self.blue <= UNIT
    }

    /// Builds a linear-light color from its three fixed-point channels.
    pub fn new(red: i64, green: i64, blue: i64) -> (r: LinRgb)
        requires
            0 <= red <= UNIT,
            0 <= green <= UNIT,
            0 <= blue <= UNIT,
        ensures
            r == (LinRgb { red, green, blue }),
            r.wf(),
    {
        LinRgb { red, green, blue }
    }
}

/// One channel of the overlay composited atop an opaque base: `over`
/// weighted by the overlay alpha plus `base` weighted by the remainder,
/// rounded to the nearest millionth.
pub open spec fn spec_atop_channel(over: int, alpha: int, base: int) -> int {
    (2 * (over * alpha + base * (1_000_000 - alpha)) + 1_000_000) / 2_000_000
}

/// A composited channel lies between zero and full intensity.
pub proof fn lemma_atop_channel_bounds(over: int, alpha: int, base: int)
    requires
        0 <= over <= 1_000_000,
        0 <= alpha <= 1_000_000,
        0 <= base <= 1_000_000,
    ensures
        0 <= spec_atop_channel(over, alpha, base) <= 1_000_000,
{
    let weighted = over * alpha + base * (1_000_000 - alpha);
    lemma_mul_inequality(over, 1_000_000, alpha);
    lemma_mul_inequality(base, 1_000_000, 1_000_000 - alpha);
    assert(1_000_000 * alpha + 1_000_000 * (1_000_000 - alpha) == 2_000_000 * 1_000_000
        + 1_000_000 - 1_000_000 - 1_000_000 * 1_000_000) by (nonlinear_arith);
    assert(over * alpha >= 0) by (nonlinear_arith)
        requires
            over >= 0,
            alpha >= 0,
    ;
    assert(base * (1_000_000 - alpha) >= 0) by (nonlinear_arith)
        requires
            base >= 0,
            alpha <= 1_000_000,
    ;
    lemma_div_pos_is_pos(2 * weighted + 1_000_000, 2_000_000);
    lemma_div_is_ordered(
        2 * weighted + 1_000_000,
        2_000_000int * 1_000_000 + 1_000_000,
        2_000_000,
    );
    lemma_div_multiples_vanish_fancy(1_000_000, 1_000_000, 2_000_000);
}

/// An overlay at full alpha replaces the base channel, and at zero alpha
/// leaves it untouched.
pub proof fn lemma_atop_channel_ends(over: int, base: int)
    requires
        0 <= over <= 1_000_000,
        0 <= base <= 1_000_000,
    ensures
        spec_atop_channel(over, 1_000_000, base) == over,
        spec_atop_channel(over, 0, base) == base,
{
    assert(over * 1_000_000 + base * (1_000_000 - 1_000_000) == 1_000_000 * over)
        by (nonlinear_arith);
    assert(2 * (1_000_000 * over) + 1_000_000 == 2_000_000 * over + 1_000_000)
        by (nonlinear_arith);
    lemma_div_multiples_vanish_fancy(over, 1_000_000, 2_000_000);
    assert(over * 0 + base * (1_000_000 - 0) == 1_000_000 * base) by (nonlinear_arith);
    assert(2 * (1_000_000 * base) + 1_000_000 == 2_000_000 * base + 1_000_000)
        by (nonlinear_arith);
    lemma_div_multiples_vanish_fancy(base, 1_000_000, 2_000_000);
}

/// One channel of the atop blend.
fn atop_channel(over: i64, alpha: i64, base: i64) -> (r: i64)
    requires
        0 <= over <= UNIT,
        0 <= alpha <= UNIT,
        0 <= base <= UNIT,
    ensures
        r == spec_atop_channel(over as int, alpha as int, base as int),
        0 <= r <= UNIT,
{
    proof {
        assert(0 <= (over as int) * (alpha as int) <= 0xE8_D4A5_1000) by (nonlinear_arith)
            requires
                0 <= over <= 1_000_000,
                0 <= alpha <= 1_000_000,
        ;
        assert(0 <= (base as int) * (1_000_000 - alpha as int) <= 0xE8_D4A5_1000)
            by (nonlinear_arith)
            requires
                0 <= base <= 1_000_000,
                0 <= alpha <= 1_000_000,
        ;
        lemma_atop_channel_bounds(over as int, alpha as int, base as int);
    }
    let weighted: u64 = (over as u64) * (alpha as u64) + (base as u64) * ((UNIT - alpha) as u64);
    let q: u64 = (2 * weighted + 1_000_000) / 2_000_000;
    q as i64
}

/// Composites the overlay color, at the given alpha, atop an opaque base
/// color.  The result's coverage is the base's: it stays fully opaque.
pub fn overlay_atop(over: LinRgb, alpha: i64, base: LinRgb) -> (r: LinRgb)
    requires
        over.wf(),
        base.wf(),
        0 <= alpha <= UNIT,
    ensures
        r.red == spec_atop_channel(over.red as int, alpha as int, base.red as int),
        r.green == spec_atop_channel(over.green as int, alpha as int, base.green as int),
        r.blue == spec_atop_channel(over.blue as int, alpha as int, base.blue as int),
        r.wf(),
{
    LinRgb {
        red: atop_channel(over.red, alpha, base.red),
        green: atop_channel(over.green, alpha, base.green),
        blue: atop_channel(over.blue, alpha, base.blue),
    }
}

} // verus!
