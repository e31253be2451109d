//! The fixed-point perceptual color model.
//!
//! A color is a cylindrical perceptual triple (lightness, chroma, hue angle)
//! held in thousandths: lightness runs over `[0, 100_000]` for `[0, 100]`,
//! chroma is nonnegative, and the hue covers a full turn as `[0, 360_000)`
//! thousandths of a degree.  Interpolation between two colors is exact
//! rational arithmetic rounded to the nearest thousandth, with the hue taking
//! the shorter of the two arcs around the circle.

use vstd::prelude::*;
use vstd::arithmetic::div_mod::{
    lemma_basic_div, lemma_div_is_ordered, lemma_div_multiples_vanish_fancy, lemma_div_pos_is_pos,
};
use vstd::arithmetic::mul::lemma_mul_inequality;

verus! {

/// Thousandths of a degree in one full hue turn.
pub const HUE_TURN: i64 = 360_000;

/// Largest lightness value: 100 in thousandths.
pub const LIGHT_MAX: i64 = 100_000;

/// Largest chroma value this model carries: 1000 in thousandths.
pub const CHROMA_MAX: i64 = 1_000_000;

/// A perceptual color in thousandths: `l` is lightness, `c` chroma and `h`
/// the hue angle.
#[derive(Clone, Copy, Debug, PartialEq, Eq, Structural)]
pub struct LchColor {
    pub l: i64,
    pub c: i64,
    pub h: i64,
}

impl LchColor {
    /// The ranges every color of this model keeps.
    pub open spec fn wf(self) -> bool {
        &&& 0 <= self.l <= LIGHT_MAX
        &&& 0 <= self.c <= CHROMA_MAX
        &&& 0 <= self.h < HUE_TURN
    }

    /// Builds a color from its three fixed-point channels.
    pub fn new(l: i64, c: i64, h: i64) -> (r: LchColor)
        requires
            0 <= l <= LIGHT_MAX,
            0 <= c <= CHROMA_MAX,
            0 <= h < HUE_TURN,
        ensures
            r == (LchColor { l, c, h }),
            r.wf(),
    {
        LchColor { l, c, h }
    }
}

/// A gamma-encoded 8-bit sRGB color, the form stops are echoed and stored
/// in.
#[derive(Clone, Copy, Debug, PartialEq, Eq, Structural)]
pub struct Rgb8 {
    pub red: u8,
    pub green: u8,
    pub blue: u8,
}

impl Rgb8 {
    /// Builds an 8-bit sRGB color from its three channels.
    pub fn new(red: u8, green: u8, blue: u8) -> (r: Rgb8)
        ensures
            r == (Rgb8 { red, green, blue }),
    {
        Rgb8 { red, green, blue }
    }
}

/// The signed hue difference from `h0` to `h1` along the shorter arc,
/// in `(-HUE_TURN/2, HUE_TURN/2]`.
pub open spec fn spec_hue_delta(h0: int, h1: int) -> int {
    let raw = if h1 >= h0 {
        h1 - h0
    } else {
        h1 - h0 + HUE_TURN
    };
    if raw > HUE_TURN / 2 {
        raw - HUE_TURN
    } else {
        raw
    }
}

/// `d` scaled by the fraction `num / den` and rounded to the nearest integer,
/// halves away from zero.
pub open spec fn spec_scale_frac(d: int, num: int, den: int) -> int {
    if d >= 0 {
        (2 * d * num + den) / (2 * den)
    } else {
        -((2 * (-d) * num + den) / (2 * den))
    }
}

/// Linear interpolation of one channel from `a` toward `b` by `num / den`.
pub open spec fn spec_lerp(a: int, b: int, num: int, den: int) -> int {
    a + spec_scale_frac(b - a, num, den)
}

/// Hue interpolation from `h0` toward `h1` by `num / den`: the shorter-arc
/// difference is scaled, then the result is brought back into one turn.
pub open spec fn spec_hue_lerp(h0: int, h1: int, num: int, den: int) -> int {
    let v = h0 + spec_scale_frac(spec_hue_delta(h0, h1), num, den);
    if v < 0 {
        v + HUE_TURN
    } else if v >= HUE_TURN {
        v - HUE_TURN
    } else {
        v
    }
}

/// The color `num / den` of the way from `a` to `b`: lightness, chroma and
/// hue are interpolated independently.
pub open spec fn spec_mix(a: LchColor, b: LchColor, num: int, den: int) -> LchColor {
    LchColor {
        l: spec_lerp(a.l as int, b.l as int, num, den) as i64,
        c: spec_lerp(a.c as int, b.c as int, num, den) as i64,
        h: spec_hue_lerp(a.h as int, b.h as int, num, den) as i64,
    }
}

/// A scaled nonnegative difference never overshoots: the rounded value of
/// `d * num / den` stays within `[0, d]` when `num <= den`.
pub proof fn lemma_scale_frac_bounds(d: int, num: int, den: int)
    requires
        0 <= d,
        0 <= num <= den,
        1 <= den,
    ensures
        0 <= (2 * d * num + den) / (2 * den) <= d,
{
    lemma_div_pos_is_pos(2 * d * num + den, 2 * den);
    lemma_mul_inequality(num, den, 2 * d);
    assert(2 * d * num == (2 * d) * num);
    assert((2 * d) * den + den == (2 * den) * d + den) by (nonlinear_arith);
    lemma_div_is_ordered(2 * d * num + den, (2 * den) * d + den, 2 * den);
    lemma_div_multiples_vanish_fancy(d, den, 2 * den);
}

/// Scaling by `0 / den` gives zero, and by `den / den` gives `d` back.
pub proof fn lemma_scale_frac_ends(d: int, den: int)
    requires
        1 <= den,
    ensures
        spec_scale_frac(d, 0, den) == 0,
        spec_scale_frac(d, den, den) == d,
{
    let m = if d >= 0 {
        d
    } else {
        -d
    };
    assert(2 * m * 0 == 0);
    lemma_basic_div(den, 2 * den);
    assert(2 * m * den + den == (2 * den) * m + den) by (nonlinear_arith);
    lemma_div_multiples_vanish_fancy(m, den, 2 * den);
}

/// Interpolated channels stay between their endpoints.
pub proof fn lemma_lerp_bounds(a: int, b: int, num: int, den: int)
    requires
        0 <= num <= den,
        1 <= den,
    ensures
        a <= b ==> a <= spec_lerp(a, b, num, den) <= b,
        b <= a ==> b <= spec_lerp(a, b, num, den) <= a,
{
    if a <= b {
        lemma_scale_frac_bounds(b - a, num, den);
    } else {
        lemma_scale_frac_bounds(a - b, num, den);
    }
}

/// Hue interpolation takes the shorter arc: the difference applied to `h0`
/// is at most half a turn in magnitude, and walking that difference from
/// `h0` lands exactly on `h1` (modulo a full turn).
pub proof fn lemma_hue_delta_shorter_arc(h0: int, h1: int)
    requires
        0 <= h0 < HUE_TURN,
        0 <= h1 < HUE_TURN,
    ensures
        -(HUE_TURN / 2) < spec_hue_delta(h0, h1) <= HUE_TURN / 2,
        (h0 + spec_hue_delta(h0, h1) - h1) % (HUE_TURN as int) == 0,
        spec_hue_lerp(h0, h1, 1, 1) == h1,
{
    let d = spec_hue_delta(h0, h1);
    assert(h0 + d - h1 == 0 || h0 + d - h1 == HUE_TURN || h0 + d - h1 == -HUE_TURN);
    lemma_scale_frac_ends(d, 1);
}

/// The angular distance between two hues, the shorter way around the
/// circle: at most half a turn.
pub open spec fn spec_hue_dist(a: int, b: int) -> int {
    let d = if a >= b {
        a - b
    } else {
        b - a
    };
    if d > HUE_TURN / 2 {
        HUE_TURN - d
    } else {
        d
    }
}

/// Every interpolated hue lies on the shorter arc between its endpoints:
/// its distances to the two endpoint hues add up to exactly the endpoint
/// distance, so the interpolation never strays onto the longer arc.
pub proof fn lemma_hue_lerp_on_shorter_arc(h0: int, h1: int, num: int, den: int)
    requires
        0 <= h0 < HUE_TURN,
        0 <= h1 < HUE_TURN,
        0 <= num <= den,
        1 <= den,
    ensures
        spec_hue_dist(h0, spec_hue_lerp(h0, h1, num, den)) + spec_hue_dist(
            spec_hue_lerp(h0, h1, num, den),
            h1,
        ) == spec_hue_dist(h0, h1),
{
    let d = spec_hue_delta(h0, h1);
    if d >= 0 {
        lemma_scale_frac_bounds(d, num, den);
    } else {
        lemma_scale_frac_bounds(-d, num, den);
    }
}

/// Interpolation between two well-formed colors yields a well-formed color,
/// and its fields are the mathematical interpolants (no truncation occurs).
pub proof fn lemma_mix_wf(a: LchColor, b: LchColor, num: int, den: int)
    requires
        a.wf(),
        b.wf(),
        0 <= num <= den,
        1 <= den,
    ensures
        spec_mix(a, b, num, den).wf(),
        spec_mix(a, b, num, den).l == spec_lerp(a.l as int, b.l as int, num, den),
        spec_mix(a, b, num, den).c == spec_lerp(a.c as int, b.c as int, num, den),
        spec_mix(a, b, num, den).h == spec_hue_lerp(a.h as int, b.h as int, num, den),
{
    lemma_lerp_bounds(a.l as int, b.l as int, num, den);
    lemma_lerp_bounds(a.c as int, b.c as int, num, den);
    let d = spec_hue_delta(a.h as int, b.h as int);
    if d >= 0 {
        lemma_scale_frac_bounds(d, num, den);
    } else {
        lemma_scale_frac_bounds(-d, num, den);
    }
}

/// Mixing a color with itself changes nothing.
pub proof fn lemma_mix_same(a: LchColor, num: int, den: int)
    requires
        a.wf(),
        0 <= num <= den,
        1 <= den,
    ensures
        spec_mix(a, a, num, den) == a,
{
    lemma_mix_wf(a, a, num, den);
    lemma_scale_frac_bounds(0, num, den);
}

/// Mixing by `0 / den` gives the first color, and by `den / den` the second.
pub proof fn lemma_mix_ends(a: LchColor, b: LchColor, den: int)
    requires
        a.wf(),
        b.wf(),
        1 <= den,
    ensures
        spec_mix(a, b, 0, den) == a,
        spec_mix(a, b, den, den) == b,
{
    lemma_mix_wf(a, b, 0, den);
    lemma_mix_wf(a, b, den, den);
    lemma_scale_frac_ends(b.l - a.l, den);
    lemma_scale_frac_ends(b.c - a.c, den);
    lemma_scale_frac_ends(spec_hue_delta(a.h as int, b.h as int), den);
    lemma_hue_delta_shorter_arc(a.h as int, b.h as int);
    lemma_scale_frac_ends(spec_hue_delta(a.h as int, b.h as int), 1);
    assert(spec_mix(a, b, 0, den).h == a.h);
    assert(spec_mix(a, b, den, den).h == b.h);
}

/// `d` scaled by `num / den`, rounded to the nearest integer.
///
/// Differences of well-formed channels fit the stated bound: they are at most
/// `2 * CHROMA_MAX` in magnitude.
fn scale_frac(d: i64, num: u64, den: u64) -> (r: i64)
    requires
        -2_000_000 <= d <= 2_000_000,
        1 <= den <= 0x1_0000_0000,
        num <= den,
    ensures
        r == spec_scale_frac(d as int, num as int, den as int),
        d >= 0 ==> 0 <= r <= d,
        d < 0 ==> d <= r <= 0,
{
    let two_den: u64 = 2 * den;
    if d >= 0 {
        proof {
            lemma_mul_inequality(2 * d as int, 4_000_000, num as int);
            lemma_mul_inequality(num as int, 0x1_0000_0000, 4_000_000);
            lemma_scale_frac_bounds(d as int, num as int, den as int);
        }
        let m: u64 = 2 * (d as u64) * num + den;
        let q: u64 = m / two_den;
        q as i64
    } else {
        let neg: u64 = (-d) as u64;
        proof {
            lemma_mul_inequality(2 * neg as int, 4_000_000, num as int);
            lemma_mul_inequality(num as int, 0x1_0000_0000, 4_000_000);
            lemma_scale_frac_bounds(neg as int, num as int, den as int);
        }
        let m: u64 = 2 * neg * num + den;
        let q: u64 = m / two_den;
        -(q as i64)
    }
}

/// The color `num / den` of the way from `a` to `b`.
pub fn mix(a: LchColor, b: LchColor, num: u64, den: u64) -> (r: LchColor)
    requires
        a.wf(),
        b.wf(),
        1 <= den <= 0x1_0000_0000,
        num <= den,
    ensures
        r == spec_mix(a, b, num as int, den as int),
        r.wf(),
{
    proof {
        lemma_mix_wf(a, b, num as int, den as int);
    }
    let l = a.l + scale_frac(b.l - a.l, num, den);
    let c = a.c + scale_frac(b.c - a.c, num, den);
    let delta = hue_delta(a.h, b.h);
    let v = a.h + scale_frac(delta, num, den);
    let h = if v < 0 {
        v + HUE_TURN
    } else if v >= HUE_TURN {
        v - HUE_TURN
    } else {
        v
    };
    LchColor { l, c, h }
}

/// The signed hue difference from `h0` to `h1` along the shorter arc.
fn hue_delta(h0: i64, h1: i64) -> (r: i64)
    requires
        0 <= h0 < HUE_TURN,
        0 <= h1 < HUE_TURN,
    ensures
        r == spec_hue_delta(h0 as int, h1 as int),
{
    let raw = if h1 >= h0 {
        h1 - h0
    } else {
        h1 - h0 + HUE_TURN
    };
    if raw > HUE_TURN / 2 {
        raw - HUE_TURN
    } else {
        raw
    }
}

} // verus!

