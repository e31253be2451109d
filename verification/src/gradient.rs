//! The gradient sampler: a read-only sequence of perceptual control points
//! evaluated anywhere in `[0, 1]` by piecewise linear interpolation, the
//! step-count policy, and discrete stop sequences.

use vstd::prelude::*;
use vstd::arithmetic::div_mod::{lemma_fundamental_div_mod, lemma_multiply_divide_lt};

use crate::color::{lemma_mix_ends, lemma_mix_same, spec_mix, LchColor};

verus! {

/// The shape a gradient is rendered in.  A radial gradient is cyclic: its
/// control-point sequence is closed by repeating the first color at the end.
#[derive(Clone, Copy, Debug, PartialEq, Eq, Structural)]
pub enum Geometry {
    Linear,
    Radial,
}

/// An ordered, read-only sequence of perceptual control points, evaluated at
/// any parameter `t` in `[0, 1]` by piecewise linear interpolation over the
/// `len - 1` equal sub-intervals between consecutive points.
pub struct Gradient {
    points: Vec<LchColor>,
}

impl View for Gradient {
    type V = Seq<LchColor>;

    closed spec fn view(&self) -> Seq<LchColor> {
        self.points@
    }
}

/// The number of discrete stops derived from the number of control points
/// (`len`, counted after any closing duplication) and the caller-requested
/// step count.
///
/// A two-color gradient is special-cased: a single requested step is read as
/// "one step of interpolation" rather than "two colors", and larger requests
/// count the endpoints on top of the requested steps.
pub open spec fn spec_step_count(len: int, requested: int) -> int {
    if len == 2 {
        if requested > 1 {
            len + requested
        } else if requested == 1 {
            len * requested + 1
        } else {
            len
        }
    } else {
        (len - 1) * requested + 1
    }
}

/// Derives how many stops a stepped render paints.
pub fn step_count(len: usize, requested: usize) -> (steps: usize)
    requires
        2 <= len,
        (len - 1) * requested + 1 <= usize::MAX,
        len + requested <= usize::MAX,
    ensures
        steps == spec_step_count(len as int, requested as int),
{
    if len == 2 {
        if requested > 1 {
            len + requested
        } else if requested == 1 {
            len * requested + 1
        } else {
            len
        }
    } else {
        assert((len - 1) * requested + 1 == (len as int - 1) * requested + 1) by (nonlinear_arith);
        (len - 1) * requested + 1
    }
}

/// The value of a gradient over `pts` at the rational parameter `num / den`.
///
/// The parameter range is split into `pts.len() - 1` equal sub-intervals;
/// the parameter picks the sub-interval it falls in (the last one at `t = 1`)
/// and the two points around it are interpolated by the position inside it.
pub open spec fn spec_eval(pts: Seq<LchColor>, num: int, den: int) -> LchColor {
    let segs = pts.len() - 1;
    let pos = num * segs;
    let seg = if pos / den >= segs {
        segs - 1
    } else {
        pos / den
    };
    spec_mix(pts[seg], pts[seg + 1], pos - seg * den, den)
}

impl Gradient {
    /// Every point is well-formed and there are between 2 and 33 of them
    /// (up to 32 from the caller, plus at most one closing duplicate).
    pub open spec fn wf(self) -> bool {
        &&& 2 <= self@.len() <= 33
        &&& forall|i: int| 0 <= i < self@.len() ==> self@[i].wf()
    }

    /// Builds a gradient over the caller's control points.  A radial gradient
    /// closes the loop by appending the first color again; the caller's list
    /// itself is never reshaped.
    pub fn new(points: Vec<LchColor>, kind: Geometry) -> (g: Gradient)
        requires
            2 <= points@.len() <= 32,
            forall|i: int| 0 <= i < points@.len() ==> points@[i].wf(),
        ensures
            g.wf(),
            kind == Geometry::Linear ==> g@ == points@,
            kind == Geometry::Radial ==> g@ == points@.push(points@[0]),
            g@[0] == points@[0],
            kind == Geometry::Radial ==> g@[g@.len() - 1] == g@[0],
    {
        match kind {
            Geometry::Linear => Gradient { points },
            Geometry::Radial => {
                let first = points[0];
                let mut closed = points;
                closed.push(first);
                Gradient { points: closed }
            },
        }
    }

    /// How many control points the gradient holds, closing duplicate
    /// included.
    pub fn len(&self) -> (n: usize)
        ensures
            n == self@.len(),
    {
        self.points.len()
    }

    /// The control point at `i`.
    pub fn point(&self, i: usize) -> (c: LchColor)
        requires
            i < self@.len(),
        ensures
            c == self@[i as int],
    {
        self.points[i]
    }

    /// Evaluates the gradient at the parameter `num / den`.
    pub fn eval(&self, num: u64, den: u64) -> (r: LchColor)
        requires
            self.wf(),
            1 <= den <= 0x1_0000_0000,
            num <= den,
        ensures
            r == spec_eval(self@, num as int, den as int),
            r.wf(),
    {
        let segs: u64 = (self.points.len() - 1) as u64;
        proof {
            assert(num * segs <= 0x1_0000_0000 * 32) by (nonlinear_arith)
                requires
                    0 <= num <= 0x1_0000_0000,
                    0 <= segs <= 32,
            ;
        }
        let pos: u64 = num * segs;
        let q: u64 = pos / den;
        let seg: u64 = if q >= segs {
            segs - 1
        } else {
            q
        };
        proof {
            lemma_fundamental_div_mod(pos as int, den as int);
            if q < segs {
                assert(seg * den <= pos) by (nonlinear_arith)
                    requires
                        seg == pos as int / den as int,
                        den > 0,
                        pos >= 0,
                        den * seg + pos as int % den as int == pos,
                        pos as int % den as int >= 0,
                ;
            } else {
                assert(num == den) by {
                    if num < den {
                        assert(pos < den * segs) by (nonlinear_arith)
                            requires
                                pos == num * segs,
                                num < den,
                                segs > 0,
                        ;
                        lemma_multiply_divide_lt(pos as int, den as int, segs as int);
                    }
                }
                assert(pos == den * segs);
                assert(pos - (segs - 1) * den == den) by (nonlinear_arith)
                    requires
                        pos == den * segs,
                ;
            }
        }
        let local: u64 = pos - seg * den;
        assert(local <= den) by {
            if seg < q {
            } else {
                assert(seg * den == den * seg) by (nonlinear_arith);
            }
        };
        let a = self.points[seg as usize];
        let b = self.points[(seg + 1) as usize];
        crate::color::mix(a, b, local, den)
    }

    /// The ordered sequence of `count` evenly spaced stops: stop `i` is the
    /// gradient at `i / (count - 1)`, both endpoints included.  A single
    /// requested stop is the gradient's start.
    pub fn stops(&self, count: usize) -> (r: Vec<LchColor>)
        requires
            self.wf(),
            1 <= count <= 0x1_0000_0001,
        ensures
            r@.len() == count,
            forall|i: int| 0 <= i < count ==> r@[i] == spec_stop(self@, i, count as int),
            forall|i: int| 0 <= i < count ==> r@[i].wf(),
    {
        let mut r: Vec<LchColor> = Vec::new();
        if count == 1 {
            r.push(self.eval(0, 1));
            return r;
        }
        let den: u64 = (count - 1) as u64;
        for i in 0..count
            invariant
                self.wf(),
                2 <= count <= 0x1_0000_0001,
                den == count - 1,
                r@.len() == i,
                forall|j: int| 0 <= j < i ==> r@[j] == spec_stop(self@, j, count as int),
                forall|j: int| 0 <= j < i ==> r@[j].wf(),
        {
            r.push(self.eval(i as u64, den));
        }
        r
    }
}

/// Stop `i` of `count`: the gradient at `i / (count - 1)`, or its start when
/// only one stop is asked for.
pub open spec fn spec_stop(pts: Seq<LchColor>, i: int, count: int) -> LchColor {
    if count == 1 {
        spec_eval(pts, 0, 1)
    } else {
        spec_eval(pts, i, count - 1)
    }
}

/// A gradient starts at its first control point and ends at its last: the
/// parameter 0 gives `pts[0]` and the parameter 1 gives `pts[len - 1]`.
pub proof fn lemma_eval_ends(pts: Seq<LchColor>, den: int)
    requires
        2 <= pts.len() <= 33,
        forall|i: int| 0 <= i < pts.len() ==> pts[i].wf(),
        1 <= den,
    ensures
        spec_eval(pts, 0, den) == pts[0],
        spec_eval(pts, den, den) == pts[pts.len() - 1],
{
    let segs = pts.len() - 1;
    assert(0 * segs == 0);
    vstd::arithmetic::div_mod::lemma_basic_div(0, den);
    assert((0 * segs) / den == 0);
    assert(0 * segs - 0 * den == 0);
    assert(spec_eval(pts, 0, den) == spec_mix(pts[0], pts[1], 0, den));
    lemma_mix_ends(pts[0], pts[1], den);
    let pos = den * segs;
    assert(den * segs == segs * den) by (nonlinear_arith);
    assert(pos / den >= segs) by (nonlinear_arith)
        requires
            pos == den * segs,
            den >= 1,
            segs >= 1,
    ;
    assert(pos - (segs - 1) * den == den) by (nonlinear_arith)
        requires
            pos == den * segs,
    ;
    lemma_mix_ends(pts[segs - 1], pts[segs], den);
}

/// Every sample of a gradient whose control points are all one color is that
/// color.
pub proof fn lemma_eval_constant(pts: Seq<LchColor>, c: LchColor, num: int, den: int)
    requires
        2 <= pts.len() <= 33,
        forall|i: int| 0 <= i < pts.len() ==> pts[i] == c,
        c.wf(),
        1 <= den,
        0 <= num <= den,
    ensures
        spec_eval(pts, num, den) == c,
{
    let segs = pts.len() - 1;
    let pos = num * segs;
    assert(0 <= pos <= den * segs) by (nonlinear_arith)
        requires
            pos == num * segs,
            0 <= num <= den,
            segs >= 1,
    ;
    let seg = if pos / den >= segs {
        segs - 1
    } else {
        pos / den
    };
    lemma_fundamental_div_mod(pos, den);
    if pos / den >= segs {
        assert(pos - seg * den <= den) by (nonlinear_arith)
            requires
                pos <= den * segs,
                seg == segs - 1,
        ;
        assert(pos - seg * den >= 0) by (nonlinear_arith)
            requires
                pos / den >= segs,
                seg == segs - 1,
                den >= 1,
                den * (pos / den) + pos % den == pos,
                pos % den >= 0,
        ;
    } else {
        assert(pos - seg * den >= 0 && pos - seg * den < den) by (nonlinear_arith)
            requires
                seg == pos / den,
                den >= 1,
                den * (pos / den) + pos % den == pos,
                0 <= pos % den < den,
        ;
    }
    lemma_mix_same(c, pos - seg * den, den);
}

} // verus!
