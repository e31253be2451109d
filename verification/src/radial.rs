//! The radial rasterizer: every pixel of a square image is mapped by its
//! angle around the image center to a gradient parameter, masked by an
//! annulus (or a full disc for overlay renders), and — for stepped renders —
//! snapped to the nearest discrete stop.
//!
//! Distances are compared exactly: with the center at `(size/2 - 1,
//! size/2 - 1)`, four times the squared distance of pixel `(x, y)` from the
//! center is an integer, and the masks compare it against the squared radii
//! with common denominators cleared.  The angle of a pixel is handed in by
//! the caller as a fixed-point fraction of a full turn, in millionths.

use vstd::prelude::*;
use vstd::arithmetic::div_mod::{
    lemma_basic_div, lemma_div_multiples_vanish_fancy, lemma_multiply_divide_lt,
};

use crate::color::{lemma_scale_frac_bounds, LchColor};
use crate::gradient::{lemma_eval_ends, spec_eval, spec_step_count, spec_stop, step_count, Gradient};

verus! {

/// Millionths of a full turn: the denominator of every angle parameter.
pub const ANGLE_TURN: i64 = 1_000_000;

/// Largest inner-radius factor after clamping: strictly less than one half,
/// in thousandths.
pub const RADIUS_INNER_MAX: i64 = 499;

/// Millionths: the denominator of the overlay falloff factor and of overlay
/// alpha values.
pub const UNIT: i64 = 1_000_000;

/// Twice the offset of pixel coordinate `p` from the image center `size/2 -
/// 1` (doubled so that it stays an integer for odd sizes).
pub open spec fn spec_offset2(size: int, p: int) -> int {
    2 * p - (size - 2)
}

/// Four times the squared distance of pixel `(x, y)` from the image center.
pub open spec fn spec_dist4(size: int, x: int, y: int) -> int {
    spec_offset2(size, x) * spec_offset2(size, x) + spec_offset2(size, y) * spec_offset2(size, y)
}

/// Whether `(x, y)` lies inside the outer circle of diameter `size`
/// (boundary included): `d^2 <= (size/2)^2`, both sides scaled by four.
pub open spec fn spec_in_outer(size: int, x: int, y: int) -> bool {
    spec_dist4(size, x, y) <= size * size
}

/// Whether `(x, y)` lies in the annulus between the inner radius
/// `size * ri / 1000` and the outer circle, both boundaries included.
pub open spec fn spec_in_annulus(size: int, x: int, y: int, ri: int) -> bool {
    &&& 1_000_000 * spec_dist4(size, x, y) >= 4 * (ri * ri) * (size * size)
    &&& spec_in_outer(size, x, y)
}

/// The inner-radius factor forced back into its working range: factors of
/// one half or more collapse to 0.49 so the annulus can never invert, and
/// negative factors to zero.
pub open spec fn spec_clamp_radius(r: int) -> int {
    if r >= 500 {
        490
    } else if r < 0 {
        0
    } else {
        r
    }
}

/// A raw angle fraction brought into `[0, 1]` turns: a negative fraction
/// (from the lower half-plane) gains a full turn, then the caller's offset
/// is added and anything beyond a full turn wraps around.
pub open spec fn spec_wrap_angle(a: int, offset: int) -> int {
    let b = if a < 0 {
        a + 1_000_000
    } else {
        a
    };
    let c = b + offset;
    if c > 1_000_000 {
        c % 1_000_000
    } else {
        c
    }
}

/// The nearest-stop index for the angle fraction `a` against `segs + 1`
/// stops: `a * segs` rounded to the nearest integer, halves rounding up.
pub open spec fn spec_round_index(a: int, segs: int) -> int {
    (2 * a * segs + 1_000_000) / 2_000_000
}

/// The continuous radial pixel rule: inside the annulus, the gradient at
/// the wrapped angle; outside, nothing (a transparent pixel).
pub open spec fn spec_radial_cont_pixel(
    pts: Seq<LchColor>,
    size: int,
    ri: int,
    off: int,
    a: int,
    x: int,
    y: int,
) -> Option<LchColor> {
    if spec_in_annulus(size, x, y, ri) {
        Option::Some(spec_eval(pts, spec_wrap_angle(a, off), 1_000_000))
    } else {
        Option::None
    }
}

/// The stepped radial pixel rule: inside the annulus, the index of the
/// nearest of the `count` stops; outside, nothing.
pub open spec fn spec_radial_step_pixel(
    size: int,
    ri: int,
    off: int,
    count: int,
    a: int,
    x: int,
    y: int,
) -> Option<usize> {
    if spec_in_annulus(size, x, y, ri) {
        Option::Some(spec_round_index(spec_wrap_angle(a, off), count - 1) as usize)
    } else {
        Option::None
    }
}

/// The overlay alpha at squared-distance `d4` (times four) from the center:
/// full strength `factor` at the center, falling linearly to zero at the
/// disc edge, rounded to the nearest millionth.
pub open spec fn spec_overlay_alpha(size: int, d4: int, factor: int) -> int {
    (2 * (size * size - d4) * factor + size * size) / (2 * (size * size))
}

/// The overlay radial pixel rule: inside the full disc, the gradient color
/// at the wrapped angle together with the overlay alpha for that pixel;
/// outside, nothing.
pub open spec fn spec_radial_overlay_pixel(
    pts: Seq<LchColor>,
    size: int,
    off: int,
    factor: int,
    a: int,
    x: int,
    y: int,
) -> Option<(LchColor, i64)> {
    if spec_in_outer(size, x, y) {
        Option::Some(
            (
                spec_eval(pts, spec_wrap_angle(a, off), 1_000_000),
                spec_overlay_alpha(size, spec_dist4(size, x, y), factor) as i64,
            ),
        )
    } else {
        Option::None
    }
}

/// Forces the inner-radius factor into its working range.
pub fn clamp_radius(r: i64) -> (c: i64)
    ensures
        c == spec_clamp_radius(r as int),
        0 <= c <= RADIUS_INNER_MAX,
{
    if r >= 500 {
        490
    } else if r < 0 {
        0
    } else {
        r
    }
}

/// Twice the offset of pixel coordinate `p` from the image center.
pub fn center_offset_doubled(size: u32, p: u32) -> (r: i64)
    ensures
        r == spec_offset2(size as int, p as int),
{
    2 * (p as i64) - (size as i64 - 2)
}

/// Four times the squared distance of pixel `(x, y)` from the image center.
fn dist4(size: u32, x: u32, y: u32) -> (d: i128)
    requires
        x < size,
        y < size,
    ensures
        d == spec_dist4(size as int, x as int, y as int),
        0 <= d <= 0x2_0000_0000_0000_0000,
{
    let dx2: i64 = center_offset_doubled(size, x);
    let dy2: i64 = center_offset_doubled(size, y);
    proof {
        assert(dx2 * dx2 <= 0x1_0000_0000_0000_0000 && dx2 * dx2 >= 0) by (nonlinear_arith)
            requires
                -0x1_0000_0000 <= dx2 <= 0x1_0000_0000,
        ;
        assert(dy2 * dy2 <= 0x1_0000_0000_0000_0000 && dy2 * dy2 >= 0) by (nonlinear_arith)
            requires
                -0x1_0000_0000 <= dy2 <= 0x1_0000_0000,
        ;
    }
    (dx2 as i128) * (dx2 as i128) + (dy2 as i128) * (dy2 as i128)
}

/// Whether pixel `(x, y)` lies in the annulus between the inner radius and
/// the outer circle.
pub fn in_annulus(size: u32, x: u32, y: u32, radius_inner: i64) -> (b: bool)
    requires
        x < size,
        y < size,
        0 <= radius_inner <= RADIUS_INNER_MAX,
    ensures
        b == spec_in_annulus(size as int, x as int, y as int, radius_inner as int),
{
    let d4: i128 = dist4(size, x, y);
    proof {
        assert(0 <= (size as int) * (size as int) <= 0x1_0000_0000_0000_0000)
            by (nonlinear_arith)
            requires
                0 <= size < 0x1_0000_0000,
        ;
        assert(0 <= (radius_inner as int) * (radius_inner as int) <= 249_001)
            by (nonlinear_arith)
            requires
                0 <= radius_inner <= 499,
        ;
        assert((4 * ((radius_inner as int) * (radius_inner as int))) * ((size as int) * (
        size as int)) <= 0xF_3A84_0000_0000_0000_0000) by (nonlinear_arith)
            requires
                0 <= (radius_inner as int) * (radius_inner as int) <= 249_001,
                0 <= (size as int) * (size as int) <= 0x1_0000_0000_0000_0000,
        ;
        assert(0 <= (4 * ((radius_inner as int) * (radius_inner as int))) * ((size as int) * (
        size as int))) by (nonlinear_arith)
            requires
                0 <= (radius_inner as int) * (radius_inner as int),
                0 <= (size as int) * (size as int),
        ;
    }
    let s2: i128 = (size as i128) * (size as i128);
    let rr: i128 = (radius_inner as i128) * (radius_inner as i128);
    let inner_ok = 1_000_000 * d4 >= 4 * rr * s2;
    inner_ok && d4 <= s2
}

/// Whether pixel `(x, y)` lies in the full disc (boundary included).
pub fn in_disc(size: u32, x: u32, y: u32) -> (b: bool)
    requires
        x < size,
        y < size,
    ensures
        b == spec_in_outer(size as int, x as int, y as int),
{
    let d4: i128 = dist4(size, x, y);
    proof {
        assert(0 <= (size as int) * (size as int) <= 0x1_0000_0000_0000_0000)
            by (nonlinear_arith)
            requires
                0 <= size < 0x1_0000_0000,
        ;
    }
    d4 <= (size as i128) * (size as i128)
}

/// Brings a raw angle fraction into `[0, 1]` turns, offset applied.
pub fn wrap_angle(a: i64, offset: i64) -> (r: i64)
    requires
        -1_000_000 <= a <= 1_000_000,
        0 <= offset <= 1_000_000,
    ensures
        r == spec_wrap_angle(a as int, offset as int),
        0 <= r <= 1_000_000,
{
    let b: i64 = if a < 0 {
        a + 1_000_000
    } else {
        a
    };
    let c: i64 = b + offset;
    if c > 1_000_000 {
        ((c as u64) % 1_000_000u64) as i64
    } else {
        c
    }
}

/// The nearest-stop index for the wrapped angle fraction `a` against
/// `segs + 1` stops.
pub fn round_index(a: i64, segs: u64) -> (idx: usize)
    requires
        0 <= a <= 1_000_000,
        1 <= segs <= 0x1_0000_0000,
        segs <= usize::MAX,
    ensures
        idx == spec_round_index(a as int, segs as int),
        idx <= segs,
{
    proof {
        assert(2 * (a as int) * (segs as int) == 2 * (segs as int) * (a as int))
            by (nonlinear_arith);
        assert(0 <= 2 * (a as int) * (segs as int) <= 0x7A12_0000_0000_0000) by (nonlinear_arith)
            requires
                0 <= a <= 1_000_000,
                0 <= segs <= 0x1_0000_0000,
        ;
        lemma_scale_frac_bounds(segs as int, a as int, 1_000_000);
    }
    let m: u64 = 2 * (a as u64) * segs + 1_000_000;
    let q: u64 = m / 2_000_000;
    q as usize
}

/// The overlay alpha at `(x, y)`, from its squared distance to the center.
fn overlay_alpha(size: u32, d4: i128, factor: i64) -> (al: i64)
    requires
        1 <= size,
        0 <= d4 <= (size as int) * (size as int),
        0 <= factor <= UNIT,
    ensures
        al == spec_overlay_alpha(size as int, d4 as int, factor as int),
        0 <= al <= factor,
{
    proof {
        assert(1 <= (size as int) * (size as int) <= 0x1_0000_0000_0000_0000)
            by (nonlinear_arith)
            requires
                1 <= size < 0x1_0000_0000,
        ;
    }
    let s2: i128 = (size as i128) * (size as i128);
    let diff: u128 = (s2 - d4) as u128;
    proof {
        assert(2 * ((s2 - d4) as int) * (factor as int) == 2 * (factor as int) * ((s2 - d4) as int))
            by (nonlinear_arith);
        assert(0 <= 2 * ((s2 - d4) as int) * (factor as int) <= 0x1e_8480_0000_0000_0000_0000)
            by (nonlinear_arith)
            requires
                0 <= (s2 - d4) as int <= 0x1_0000_0000_0000_0000,
                0 <= factor <= 1_000_000,
        ;
        lemma_scale_frac_bounds(factor as int, s2 as int - d4 as int, s2 as int);
    }
    let m: u128 = 2 * diff * (factor as u128) + (s2 as u128);
    let q: u128 = m / (2 * (s2 as u128));
    q as i64
}

/// The overlay alpha is exactly the falloff factor at the center of the
/// disc and exactly zero at its outer edge.
pub proof fn lemma_overlay_alpha_ends(size: int, factor: int)
    requires
        1 <= size,
        0 <= factor,
    ensures
        spec_overlay_alpha(size, 0, factor) == factor,
        spec_overlay_alpha(size, size * size, factor) == 0,
{
    let s2 = size * size;
    assert(1 <= size * size) by (nonlinear_arith)
        requires
            1 <= size,
    ;
    assert(2 * (s2 - 0) * factor + s2 == (2 * s2) * factor + s2) by (nonlinear_arith);
    lemma_div_multiples_vanish_fancy(factor, s2, 2 * s2);
    assert(2 * (s2 - s2) * factor == 0) by (nonlinear_arith);
    lemma_basic_div(s2, 2 * s2);
}

/// Paints a continuous radial gradient: pixel `i` of the row-major square
/// image is the gradient at that pixel's angle if the pixel lies in the
/// annulus, and transparent otherwise.  `angles[i]` is the pixel's raw
/// angle in millionths of a turn, as `atan2` gives it.
pub fn radial_gradient_continuous(
    g: &Gradient,
    size: u32,
    radius_inner: i64,
    angle_offset: i64,
    angles: &Vec<i64>,
) -> (pix: Vec<Option<LchColor>>)
    requires
        g.wf(),
        0 <= radius_inner <= RADIUS_INNER_MAX,
        0 <= angle_offset <= ANGLE_TURN,
        size * size <= usize::MAX,
        angles@.len() == size * size,
        forall|i: int| 0 <= i < angles@.len() ==> -ANGLE_TURN <= #[trigger] angles@[i] <= ANGLE_TURN,
    ensures
        pix@.len() == size * size,
        forall|i: int|
            0 <= i < pix@.len() ==> pix@[i] == spec_radial_cont_pixel(
                g@,
                size as int,
                radius_inner as int,
                angle_offset as int,
                angles@[i] as int,
                i % (size as int),
                i / (size as int),
            ),
{
    let n: usize = (size as usize) * (size as usize);
    let mut pix: Vec<Option<LchColor>> = Vec::new();
    for i in 0..n
        invariant
            g.wf(),
            0 <= radius_inner <= RADIUS_INNER_MAX,
            0 <= angle_offset <= ANGLE_TURN,
            n == size * size,
            angles@.len() == n,
            forall|j: int| 0 <= j < n ==> -ANGLE_TURN <= #[trigger] angles@[j] <= ANGLE_TURN,
            pix@.len() == i,
            forall|j: int|
                0 <= j < i ==> pix@[j] == spec_radial_cont_pixel(
                    g@,
                    size as int,
                    radius_inner as int,
                    angle_offset as int,
                    angles@[j] as int,
                    j % (size as int),
                    j / (size as int),
                ),
    {
        proof {
            assert(size >= 1) by (nonlinear_arith)
                requires
                    i < n,
                    n == (size as int) * (size as int),
                    0 <= i,
            ;
            lemma_multiply_divide_lt(i as int, size as int, size as int);
        }
        let x: u32 = (i % (size as usize)) as u32;
        let y: u32 = (i / (size as usize)) as u32;
        let out = if in_annulus(size, x, y, radius_inner) {
            let t = wrap_angle(angles[i], angle_offset);
            Option::Some(g.eval(t as u64, 1_000_000))
        } else {
            Option::None
        };
        pix.push(out);
    }
    pix
}

/// Samples the closed stop sequence of a stepped radial render: the policy's
/// step count plus one trailing stop that closes the loop.  For a radial
/// gradient (first control point repeated at the end) the trailing stop
/// equals the first, so the angular quantization has no seam.
pub fn radial_stops(g: &Gradient, requested: usize) -> (stops: Vec<LchColor>)
    requires
        g.wf(),
        (g@.len() - 1) * requested + 1 <= usize::MAX - 1,
        g@.len() + requested <= usize::MAX - 1,
        spec_step_count(g@.len() as int, requested as int) + 1 <= 0x1_0000_0001,
    ensures
        stops@.len() == spec_step_count(g@.len() as int, requested as int) + 1,
        forall|i: int|
            0 <= i < stops@.len() ==> stops@[i] == spec_stop(g@, i, stops@.len() as int),
        forall|i: int| 0 <= i < stops@.len() ==> stops@[i].wf(),
        g@[g@.len() - 1] == g@[0] ==> stops@[stops@.len() - 1] == stops@[0],
{
    let steps = step_count(g.len(), requested);
    let stops = g.stops(steps + 1);
    proof {
        lemma_eval_ends(g@, steps as int);
    }
    stops
}

/// Paints a stepped radial gradient over a closed stop sequence of `count`
/// stops: pixel `i` is the index of the stop nearest to that pixel's angle
/// if the pixel lies in the annulus, and transparent otherwise.
pub fn radial_gradient_stepped(
    size: u32,
    radius_inner: i64,
    angle_offset: i64,
    count: usize,
    angles: &Vec<i64>,
) -> (pix: Vec<Option<usize>>)
    requires
        2 <= count <= 0x1_0000_0001,
        0 <= radius_inner <= RADIUS_INNER_MAX,
        0 <= angle_offset <= ANGLE_TURN,
        size * size <= usize::MAX,
        angles@.len() == size * size,
        forall|i: int| 0 <= i < angles@.len() ==> -ANGLE_TURN <= #[trigger] angles@[i] <= ANGLE_TURN,
    ensures
        pix@.len() == size * size,
        forall|i: int|
            0 <= i < pix@.len() ==> pix@[i] == spec_radial_step_pixel(
                size as int,
                radius_inner as int,
                angle_offset as int,
                count as int,
                angles@[i] as int,
                i % (size as int),
                i / (size as int),
            ),
        forall|i: int|
            0 <= i < pix@.len() ==> (#[trigger] pix@[i] matches Option::Some(s) ==> s < count),
{
    let n: usize = (size as usize) * (size as usize);
    let segs: u64 = (count - 1) as u64;
    let mut pix: Vec<Option<usize>> = Vec::new();
    for i in 0..n
        invariant
            2 <= count <= 0x1_0000_0001,
            segs == count - 1,
            0 <= radius_inner <= RADIUS_INNER_MAX,
            0 <= angle_offset <= ANGLE_TURN,
            n == size * size,
            angles@.len() == n,
            forall|j: int| 0 <= j < n ==> -ANGLE_TURN <= #[trigger] angles@[j] <= ANGLE_TURN,
            pix@.len() == i,
            forall|j: int|
                0 <= j < i ==> pix@[j] == spec_radial_step_pixel(
                    size as int,
                    radius_inner as int,
                    angle_offset as int,
                    count as int,
                    angles@[j] as int,
                    j % (size as int),
                    j / (size as int),
                ),
            forall|j: int|
                0 <= j < i ==> (#[trigger] pix@[j] matches Option::Some(s) ==> s < count),
    {
        proof {
            assert(size >= 1) by (nonlinear_arith)
                requires
                    i < n,
                    n == (size as int) * (size as int),
                    0 <= i,
            ;
            lemma_multiply_divide_lt(i as int, size as int, size as int);
        }
        let x: u32 = (i % (size as usize)) as u32;
        let y: u32 = (i / (size as usize)) as u32;
        let out = if in_annulus(size, x, y, radius_inner) {
            let t = wrap_angle(angles[i], angle_offset);
            Option::Some(round_index(t, segs))
        } else {
            Option::None
        };
        pix.push(out);
    }
    pix
}

/// Paints a continuous radial gradient with a center overlay: pixel `i` of
/// the full disc carries the gradient color at that pixel's angle and the
/// overlay alpha for its distance from the center; pixels outside the disc
/// are transparent.
pub fn radial_gradient_with_overlay(
    g: &Gradient,
    size: u32,
    angle_offset: i64,
    overlay_factor: i64,
    angles: &Vec<i64>,
) -> (pix: Vec<Option<(LchColor, i64)>>)
    requires
        g.wf(),
        0 <= angle_offset <= ANGLE_TURN,
        0 <= overlay_factor <= UNIT,
        size * size <= usize::MAX,
        angles@.len() == size * size,
        forall|i: int| 0 <= i < angles@.len() ==> -ANGLE_TURN <= #[trigger] angles@[i] <= ANGLE_TURN,
    ensures
        pix@.len() == size * size,
        forall|i: int|
            0 <= i < pix@.len() ==> pix@[i] == spec_radial_overlay_pixel(
                g@,
                size as int,
                angle_offset as int,
                overlay_factor as int,
                angles@[i] as int,
                i % (size as int),
                i / (size as int),
            ),
{
    let n: usize = (size as usize) * (size as usize);
    let mut pix: Vec<Option<(LchColor, i64)>> = Vec::new();
    for i in 0..n
        invariant
            g.wf(),
            0 <= angle_offset <= ANGLE_TURN,
            0 <= overlay_factor <= UNIT,
            n == size * size,
            angles@.len() == n,
            forall|j: int| 0 <= j < n ==> -ANGLE_TURN <= #[trigger] angles@[j] <= ANGLE_TURN,
            pix@.len() == i,
            forall|j: int|
                0 <= j < i ==> pix@[j] == spec_radial_overlay_pixel(
                    g@,
                    size as int,
                    angle_offset as int,
                    overlay_factor as int,
                    angles@[j] as int,
                    j % (size as int),
                    j / (size as int),
                ),
    {
        proof {
            assert(size >= 1) by (nonlinear_arith)
                requires
                    i < n,
                    n == (size as int) * (size as int),
                    0 <= i,
            ;
            lemma_multiply_divide_lt(i as int, size as int, size as int);
        }
        let x: u32 = (i % (size as usize)) as u32;
        let y: u32 = (i / (size as usize)) as u32;
        let out = if in_disc(size, x, y) {
            let t = wrap_angle(angles[i], angle_offset);
            let color = g.eval(t as u64, 1_000_000);
            let d4 = dist4(size, x, y);
            let al = overlay_alpha(size, d4, overlay_factor);
            Option::Some((color, al))
        } else {
            Option::None
        };
        pix.push(out);
    }
    pix
}

} // verus!
