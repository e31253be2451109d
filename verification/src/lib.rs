//! Verified core of a gradient and palette renderer.
//!
//! Colors are carried in a fixed-point perceptual representation (lightness,
//! chroma, hue in thousandths of a unit), gradients are sampled by exact
//! rational arithmetic, and the geometric decisions of the linear and radial
//! rasterizers are made over plain integers.  Everything that needs floating
//! point — the perceptual-to-sRGB conversions, `atan2`, the file encoder —
//! lives outside this crate and exchanges plain values with it.

use vstd::prelude::*;

pub mod blend;
pub mod color;
pub mod err;
pub mod fmt;
pub mod gradient;
pub mod linear;
pub mod parse;
pub mod radial;

pub use blend::{overlay_atop, LinRgb};
pub use color::{LchColor, Rgb8};
pub use err::CliError;
pub use fmt::hex_line;
pub use gradient::{step_count, Geometry, Gradient};
pub use linear::{linear_gradient_continuous, linear_gradient_stepped, swatch_index};
pub use parse::{parse_hsv, parse_lch, parse_rgb8, parse_rgb_unit, HsvColor, ParseError, RgbUnit};
pub use radial::{
    center_offset_doubled, clamp_radius, radial_gradient_continuous, radial_gradient_stepped,
    radial_gradient_with_overlay, radial_stops,
};

use crate::fmt::{push_decimal, push_millis, spec_decimal};

verus! {

/// Which of the five renders one invocation performs.
#[derive(Clone, Copy, Debug, PartialEq, Eq, Structural)]
pub enum Work {
    LinGradCont,
    LinGradStep,
    RadGradCont,
    RadGradContOverlay,
    RadGradStep,
}

/// One render request: the control points, geometry, dimensions and flags a
/// caller hands in, already validated and converted to fixed point.
pub struct Config {
    /// Added to every pixel's angle, in millionths of a turn.
    pub angle_offset: i64,
    /// The caller's control points, before any closing duplication.
    pub grad_vec: Vec<LchColor>,
    /// A linear strip rather than a radial disc.
    pub linear: bool,
    /// Inner-radius factor in thousandths of the image size, already
    /// clamped.
    pub radius_inner: i64,
    /// Skip the output file entirely.
    pub no_file: bool,
    /// The overlay color, in linear light.
    pub overlay: LinRgb,
    /// The overlay falloff factor, in millionths.
    pub overlay_factor: i64,
    /// The output file name, when the caller gave one.
    pub output_file: Option<String>,
    /// Echo the stop sequence of a stepped render.
    pub print_grad: bool,
    /// Diameter of a radial image in pixels.
    pub size: u32,
    /// The caller-requested step count.
    pub steps: usize,
    /// Width and height of one linear swatch.
    pub swatch_size: (u32, u32),
}

impl Config {
    /// The ranges a validated request keeps: enough control points, every
    /// fixed-point parameter inside its scale, and swatches of nonzero size.
    pub open spec fn wf(self) -> bool {
        &&& 2 <= self.grad_vec@.len() <= 32
        &&& forall|i: int| 0 <= i < self.grad_vec@.len() ==> self.grad_vec@[i].wf()
        &&& 0 <= self.angle_offset <= radial::ANGLE_TURN
        &&& 0 <= self.radius_inner <= radial::RADIUS_INNER_MAX
        &&& self.overlay.wf()
        &&& 0 <= self.overlay_factor <= radial::UNIT
        &&& self.swatch_size.0 >= 1
        &&& self.swatch_size.1 >= 1
    }
}

/// Decides which render a request asks for: the geometry flag picks the
/// strip or the disc, an explicit step count makes the render stepped, and
/// an explicit overlay color turns a continuous radial render into an
/// overlay render.
pub fn select_work(linear: bool, steps_given: bool, overlay_given: bool) -> (w: Work)
    ensures
        linear && steps_given ==> w == Work::LinGradStep,
        linear && !steps_given ==> w == Work::LinGradCont,
        !linear && steps_given ==> w == Work::RadGradStep,
        !linear && !steps_given && overlay_given ==> w == Work::RadGradContOverlay,
        !linear && !steps_given && !overlay_given ==> w == Work::RadGradCont,
{
    if linear {
        if steps_given {
            Work::LinGradStep
        } else {
            Work::LinGradCont
        }
    } else {
        if steps_given {
            Work::RadGradStep
        } else if overlay_given {
            Work::RadGradContOverlay
        } else {
            Work::RadGradCont
        }
    }
}

/// Relies on `std::time::SystemTime::now` and `duration_since(UNIX_EPOCH)`:
/// the clock reading as whole seconds and the sub-second milliseconds,
/// which are less than 1000 by `Duration::subsec_millis`'s contract.
#[verifier::external_body]
fn now_unix() -> (r: Result<(u64, u32), std::time::SystemTimeError>)
    ensures
        r matches Ok(t) ==> t.1 < 1000,
{
    match std::time::SystemTime::now().duration_since(std::time::UNIX_EPOCH) {
        Ok(d) => Ok((d.as_secs(), d.subsec_millis())),
        Err(e) => Err(e),
    }
}

/// Relies on `String::from_utf8`: ASCII bytes are valid UTF-8 and decode to
/// the characters with the same code points.
#[verifier::external_body]
fn ascii_string(bytes: Vec<u8>) -> (r: String)
    requires
        forall|i: int| 0 <= i < bytes@.len() ==> bytes@[i] < 128,
    ensures
        r@ == bytes@.map_values(|b: u8| b as char),
{
    match String::from_utf8(bytes) {
        Ok(s) => s,
        Err(_) => String::new(),
    }
}

/// Every digit of a rendered decimal number is an ASCII digit.
proof fn lemma_decimal_digits(n: nat)
    ensures
        forall|i: int|
            0 <= i < spec_decimal(n).len() ==> 48 <= #[trigger] spec_decimal(n)[i] <= 57,
        spec_decimal(n).len() >= 1,
    decreases n,
{
    if n >= 10 {
        lemma_decimal_digits(n / 10);
    }
}

/// Generates a file name from the clock: the Unix seconds in decimal,
/// followed by the milliseconds zero-padded to three digits.  Whatever the
/// clock says, the name is at least four characters and all of them are
/// decimal digits; when the clock cannot be read the error is passed on.
pub fn generate_filename() -> (r: Result<String, CliError>)
    ensures
        r matches Ok(name) ==> name@.len() >= 4,
        r matches Ok(name) ==> forall|i: int|
            0 <= i < name@.len() ==> 48 <= (#[trigger] name@[i]) as int <= 57,
{
    match now_unix() {
        Err(e) => Err(CliError::from(e)),
        Ok((secs, millis)) => {
            let mut bytes: Vec<u8> = Vec::new();
            push_decimal(&mut bytes, secs);
            push_millis(&mut bytes, millis);
            proof {
                lemma_decimal_digits(secs as nat);
                assert(forall|i: int| 0 <= i < bytes@.len() ==> 48 <= #[trigger] bytes@[i] <= 57);
            }
            let name = ascii_string(bytes);
            Ok(name)
        },
    }
}

} // verus!
