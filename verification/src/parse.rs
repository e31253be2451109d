//! The color model adapter's front half: parsing and validating color
//! literals.  A literal is three comma-separated decimal fields, as in
//! `228,68,21` or `1.0,0.6,0.0`; fields are read to thousandths (further
//! fractional digits are ignored) and checked against the ranges their
//! encoding declares.  Out-of-range or malformed literals are rejected, not
//! repaired.

use vstd::prelude::*;
use vstd::slice::slice_subrange;

use crate::color::{LchColor, Rgb8};

verus! {

/// Why a color literal was rejected.
#[derive(Clone, Copy, Debug, PartialEq, Eq, Structural)]
pub enum ParseError {
    /// The literal does not have the shape `number,number,number`.
    Malformed,
    /// A field's value lies outside the range its encoding declares.
    OutOfRange,
}

/// An RGB color with unit-interval channels, held in thousandths.
#[derive(Clone, Copy, Debug, PartialEq, Eq, Structural)]
pub struct RgbUnit {
    pub red: i64,
    pub green: i64,
    pub blue: i64,
}

/// An HSV color: hue in thousandths of a degree, saturation and value in
/// thousandths of a percent.
#[derive(Clone, Copy, Debug, PartialEq, Eq, Structural)]
pub struct HsvColor {
    pub h: i64,
    pub s: i64,
    pub v: i64,
}

/// The index of the first occurrence of `b` in `s`, or `s.len()` if there
/// is none.
pub open spec fn spec_find(s: Seq<u8>, b: u8) -> int
    decreases s.len(),
{
    if s.len() == 0 {
        0
    } else if s[0] == b {
        0
    } else {
        1 + spec_find(s.drop_first(), b)
    }
}

/// Whether every byte of `s` is an ASCII decimal digit.
pub open spec fn spec_all_digits(s: Seq<u8>) -> bool {
    forall|i: int| 0 <= i < s.len() ==> 48 <= #[trigger] s[i] <= 57
}

/// The value of a digit string read as a decimal number.
pub open spec fn spec_digits_val(s: Seq<u8>) -> int
    decreases s.len(),
{
    if s.len() == 0 {
        0
    } else {
        spec_digits_val(s.drop_last()) * 10 + (s.last() - 48)
    }
}

/// Fractional digit `i` of a fraction field, zero past its end.
pub open spec fn spec_frac_digit(s: Seq<u8>, i: int) -> int {
    if i < s.len() {
        s[i] - 48
    } else {
        0
    }
}

/// A fraction field read to thousandths: its first three digits.
pub open spec fn spec_frac_milli(s: Seq<u8>) -> int {
    spec_frac_digit(s, 0) * 100 + spec_frac_digit(s, 1) * 10 + spec_frac_digit(s, 2)
}

/// An integer field parsed against the bound `max`: rejected as malformed
/// unless it is one or more digits, as out of range beyond `max`.
pub open spec fn spec_parse_int(s: Seq<u8>, max: int) -> Result<int, ParseError> {
    if s.len() == 0 || !spec_all_digits(s) {
        Result::Err(ParseError::Malformed)
    } else if spec_digits_val(s) > max {
        Result::Err(ParseError::OutOfRange)
    } else {
        Result::Ok(spec_digits_val(s))
    }
}

/// A decimal field read to thousandths against the bound `max` (itself in
/// thousandths): digits, optionally a point followed by more digits.
pub open spec fn spec_parse_milli(s: Seq<u8>, max: int) -> Result<int, ParseError> {
    let dot = spec_find(s, 46);
    let ip = s.take(dot);
    let fp = s.skip(dot + 1);
    if ip.len() == 0 || !spec_all_digits(ip) {
        Result::Err(ParseError::Malformed)
    } else if dot < s.len() && (fp.len() == 0 || !spec_all_digits(fp)) {
        Result::Err(ParseError::Malformed)
    } else if dot == s.len() {
        if spec_digits_val(ip) * 1000 > max {
            Result::Err(ParseError::OutOfRange)
        } else {
            Result::Ok(spec_digits_val(ip) * 1000)
        }
    } else {
        if spec_digits_val(ip) * 1000 + spec_frac_milli(fp) > max {
            Result::Err(ParseError::OutOfRange)
        } else {
            Result::Ok(spec_digits_val(ip) * 1000 + spec_frac_milli(fp))
        }
    }
}

/// The three comma-separated fields of a literal: nothing unless there are
/// at least two commas; anything after a third comma is ignored.
pub open spec fn spec_split3(s: Seq<u8>) -> Option<(Seq<u8>, Seq<u8>, Seq<u8>)> {
    let i = spec_find(s, 44);
    if i == s.len() {
        Option::None
    } else {
        let rest = s.skip(i + 1);
        let j = spec_find(rest, 44);
        if j == rest.len() {
            Option::None
        } else {
            let tail = rest.skip(j + 1);
            Option::Some((s.take(i), rest.take(j), tail.take(spec_find(tail, 44))))
        }
    }
}

/// An 8-bit RGB literal: three integer fields, each in `[0, 255]`.
pub open spec fn spec_parse_rgb8(s: Seq<u8>) -> Result<Rgb8, ParseError> {
    match spec_split3(s) {
        Option::None => Result::Err(ParseError::Malformed),
        Option::Some((a, b, c)) => match spec_parse_int(a, 255) {
            Result::Err(e) => Result::Err(e),
            Result::Ok(red) => match spec_parse_int(b, 255) {
                Result::Err(e) => Result::Err(e),
                Result::Ok(green) => match spec_parse_int(c, 255) {
                    Result::Err(e) => Result::Err(e),
                    Result::Ok(blue) => Result::Ok(
                        Rgb8 { red: red as u8, green: green as u8, blue: blue as u8 },
                    ),
                },
            },
        },
    }
}

/// A unit-interval RGB literal: three decimal fields, each in `[0, 1]`.
pub open spec fn spec_parse_rgb_unit(s: Seq<u8>) -> Result<RgbUnit, ParseError> {
    match spec_split3(s) {
        Option::None => Result::Err(ParseError::Malformed),
        Option::Some((a, b, c)) => match spec_parse_milli(a, 1000) {
            Result::Err(e) => Result::Err(e),
            Result::Ok(red) => match spec_parse_milli(b, 1000) {
                Result::Err(e) => Result::Err(e),
                Result::Ok(green) => match spec_parse_milli(c, 1000) {
                    Result::Err(e) => Result::Err(e),
                    Result::Ok(blue) => Result::Ok(
                        RgbUnit { red: red as i64, green: green as i64, blue: blue as i64 },
                    ),
                },
            },
        },
    }
}

/// An HSV literal: hue in `[0, 360)` degrees, saturation and value in
/// `[0, 100]` percent.
pub open spec fn spec_parse_hsv(s: Seq<u8>) -> Result<HsvColor, ParseError> {
    match spec_split3(s) {
        Option::None => Result::Err(ParseError::Malformed),
        Option::Some((a, b, c)) => match spec_parse_milli(a, 359_999) {
            Result::Err(e) => Result::Err(e),
            Result::Ok(h) => match spec_parse_milli(b, 100_000) {
                Result::Err(e) => Result::Err(e),
                Result::Ok(sat) => match spec_parse_milli(c, 100_000) {
                    Result::Err(e) => Result::Err(e),
                    Result::Ok(v) => Result::Ok(
                        HsvColor { h: h as i64, s: sat as i64, v: v as i64 },
                    ),
                },
            },
        },
    }
}

/// An LCh literal: lightness and chroma in `[0, 100]`, hue in `[0, 360)`
/// degrees.
pub open spec fn spec_parse_lch(s: Seq<u8>) -> Result<LchColor, ParseError> {
    match spec_split3(s) {
        Option::None => Result::Err(ParseError::Malformed),
        Option::Some((a, b, c)) => match spec_parse_milli(a, 100_000) {
            Result::Err(e) => Result::Err(e),
            Result::Ok(l) => match spec_parse_milli(b, 100_000) {
                Result::Err(e) => Result::Err(e),
                Result::Ok(ch) => match spec_parse_milli(c, 359_999) {
                    Result::Err(e) => Result::Err(e),
                    Result::Ok(h) => Result::Ok(
                        LchColor { l: l as i64, c: ch as i64, h: h as i64 },
                    ),
                },
            },
        },
    }
}

/// The first occurrence of a byte lies inside the sequence or just past its
/// end.
proof fn lemma_find_bound(s: Seq<u8>, b: u8)
    ensures
        0 <= spec_find(s, b) <= s.len(),
    decreases s.len(),
{
    if s.len() > 0 && s[0] != b {
        lemma_find_bound(s.drop_first(), b);
    }
}

/// A digit string's value never shrinks: it is nonnegative and at least the
/// value of any of its prefixes.
proof fn lemma_digits_val_nonneg(s: Seq<u8>)
    requires
        spec_all_digits(s),
    ensures
        spec_digits_val(s) >= 0,
    decreases s.len(),
{
    if s.len() > 0 {
        lemma_digits_val_nonneg(s.drop_last());
    }
}

/// The value of the whole digit string is at least the value of its first
/// `k` digits.
proof fn lemma_digits_val_prefix(s: Seq<u8>, k: int)
    requires
        spec_all_digits(s),
        0 <= k <= s.len(),
    ensures
        spec_digits_val(s.take(k)) <= spec_digits_val(s),
    decreases s.len() - k,
{
    if k == s.len() {
        assert(s.take(k) =~= s);
    } else {
        assert(s.take(k + 1).drop_last() =~= s.take(k));
        assert(spec_all_digits(s.take(k)));
        lemma_digits_val_nonneg(s.take(k));
        assert(spec_digits_val(s.take(k + 1)) == spec_digits_val(s.take(k)) * 10 + (s[k] - 48));
        lemma_digits_val_prefix(s, k + 1);
    }
}

/// The index of the first occurrence of `b` in `s`, or `s.len()`.
fn find_byte(s: &[u8], b: u8) -> (i: usize)
    ensures
        i == spec_find(s@, b),
        i <= s@.len(),
    decreases s@.len(),
{
    if s.len() == 0 {
        0
    } else if s[0] == b {
        0
    } else {
        let rest = slice_subrange(s, 1, s.len());
        proof {
            assert(rest@ =~= s@.drop_first());
        }
        1 + find_byte(rest, b)
    }
}

/// Parses an integer field against the bound `max`.
fn parse_int_field(s: &[u8], max: i64) -> (r: Result<i64, ParseError>)
    requires
        0 <= max <= 1_000_000,
    ensures
        r matches Ok(v) ==> spec_parse_int(s@, max as int) == Result::<int, ParseError>::Ok(
            v as int,
        ),
        r matches Err(e) ==> spec_parse_int(s@, max as int) == Result::<int, ParseError>::Err(e),
{
    let n = s.len();
    if n == 0 {
        return Err(ParseError::Malformed);
    }
    for k in 0..n
        invariant
            n == s@.len(),
            forall|j: int| 0 <= j < k ==> 48 <= #[trigger] s@[j] <= 57,
    {
        let d = s[k];
        if d < 48 || d > 57 {
            return Err(ParseError::Malformed);
        }
    }
    let mut val: i64 = 0;
    for k in 0..n
        invariant
            n == s@.len(),
            spec_all_digits(s@),
            0 <= max <= 1_000_000,
            0 <= val <= max,
            val == spec_digits_val(s@.take(k as int)),
    {
        proof {
            assert(s@.take(k + 1).drop_last() =~= s@.take(k as int));
        }
        let next = val * 10 + (s[k] - 48) as i64;
        if next > max {
            proof {
                lemma_digits_val_prefix(s@, k + 1);
            }
            return Err(ParseError::OutOfRange);
        }
        val = next;
    }
    proof {
        assert(s@.take(n as int) =~= s@);
    }
    Ok(val)
}

/// Parses a decimal field to thousandths against the bound `max`.
fn parse_milli_field(s: &[u8], max: i64) -> (r: Result<i64, ParseError>)
    requires
        0 <= max <= 1_000_000,
    ensures
        r matches Ok(v) ==> spec_parse_milli(s@, max as int) == Result::<int, ParseError>::Ok(
            v as int,
        ),
        r matches Err(e) ==> spec_parse_milli(s@, max as int) == Result::<int, ParseError>::Err(e),
{
    let n = s.len();
    let dot = find_byte(s, 46);
    let ip = slice_subrange(s, 0, dot);
    proof {
        assert(ip@ =~= s@.take(dot as int));
    }
    let ilen = ip.len();
    if ilen == 0 {
        return Err(ParseError::Malformed);
    }
    for k in 0..ilen
        invariant
            ilen == ip@.len(),
            ip@ == s@.take(dot as int),
            dot == spec_find(s@, 46),
            dot <= s@.len(),
            forall|j: int| 0 <= j < k ==> 48 <= #[trigger] ip@[j] <= 57,
    {
        let d = ip[k];
        if d < 48 || d > 57 {
            return Err(ParseError::Malformed);
        }
    }
    let ghost fpg = s@.skip(dot + 1);
    let mut frac: i64 = 0;
    if dot < n {
        let fp = slice_subrange(s, dot + 1, n);
        proof {
            assert(fp@ =~= fpg);
        }
        let m = fp.len();
        if m == 0 {
            return Err(ParseError::Malformed);
        }
        for k in 0..m
            invariant
                m == fp@.len(),
                fp@ == s@.skip(dot + 1),
                dot == spec_find(s@, 46),
                dot < s@.len(),
                forall|j: int| 0 <= j < k ==> 48 <= #[trigger] fp@[j] <= 57,
        {
            let d = fp[k];
            if d < 48 || d > 57 {
                return Err(ParseError::Malformed);
            }
        }
        let d0 = (fp[0] - 48) as i64;
        let d1 = if m > 1 {
            (fp[1] - 48) as i64
        } else {
            0
        };
        let d2 = if m > 2 {
            (fp[2] - 48) as i64
        } else {
            0
        };
        frac = d0 * 100 + d1 * 10 + d2;
        assert(frac == spec_frac_milli(fpg));
    }
    let mut val: i64 = 0;
    for k in 0..ilen
        invariant
            ilen == ip@.len(),
            ip@ == s@.take(dot as int),
            dot == spec_find(s@, 46),
            dot <= s@.len(),
            spec_all_digits(ip@),
            0 <= max <= 1_000_000,
            0 <= val <= max,
            val == spec_digits_val(ip@.take(k as int)),
            dot < s@.len() ==> fpg == s@.skip(dot + 1) && fpg.len() > 0 && spec_all_digits(fpg)
                && 0 <= frac && frac == spec_frac_milli(fpg),
            dot == s@.len() ==> frac == 0,
    {
        proof {
            assert(ip@.take(k + 1).drop_last() =~= ip@.take(k as int));
        }
        let next = val * 10 + (ip[k] - 48) as i64;
        if next > max {
            proof {
                lemma_digits_val_prefix(ip@, k + 1);
            }
            return Err(ParseError::OutOfRange);
        }
        val = next;
    }
    proof {
        assert(ip@.take(ilen as int) =~= ip@);
    }
    let value = val * 1000 + frac;
    if value > max {
        return Err(ParseError::OutOfRange);
    }
    Ok(value)
}

/// Splits a literal at its first two commas; anything after a third comma
/// is ignored.
fn split3<'a>(s: &'a [u8]) -> (r: Option<(&'a [u8], &'a [u8], &'a [u8])>)
    ensures
        r matches Some(f) ==> spec_split3(s@) == Option::Some((f.0@, f.1@, f.2@)),
        r is None ==> spec_split3(s@) is None,
{
    let n = s.len();
    let i = find_byte(s, 44);
    if i == n {
        return None;
    }
    let rest = slice_subrange(s, i + 1, n);
    proof {
        assert(rest@ =~= s@.skip(i + 1));
    }
    let j = find_byte(rest, 44);
    if j == rest.len() {
        return None;
    }
    let tail = slice_subrange(rest, j + 1, rest.len());
    proof {
        assert(tail@ =~= rest@.skip(j + 1));
    }
    let k = find_byte(tail, 44);
    let first = slice_subrange(s, 0, i);
    let second = slice_subrange(rest, 0, j);
    let third = slice_subrange(tail, 0, k);
    proof {
        assert(first@ =~= s@.take(i as int));
        assert(second@ =~= rest@.take(j as int));
        assert(third@ =~= tail@.take(k as int));
    }
    Some((first, second, third))
}

/// Parses an 8-bit RGB literal such as `228,68,21`.
pub fn parse_rgb8(s: &[u8]) -> (r: Result<Rgb8, ParseError>)
    ensures
        r == spec_parse_rgb8(s@),
{
    let (a, b, c) = match split3(s) {
        None => {
            return Err(ParseError::Malformed);
        },
        Some(f) => f,
    };
    let red = match parse_int_field(a, 255) {
        Err(e) => {
            return Err(e);
        },
        Ok(v) => v,
    };
    let green = match parse_int_field(b, 255) {
        Err(e) => {
            return Err(e);
        },
        Ok(v) => v,
    };
    let blue = match parse_int_field(c, 255) {
        Err(e) => {
            return Err(e);
        },
        Ok(v) => v,
    };
    Ok(Rgb8 { red: red as u8, green: green as u8, blue: blue as u8 })
}

/// Parses a unit-interval RGB literal such as `1.0,0.6,0.0`, to
/// thousandths.
pub fn parse_rgb_unit(s: &[u8]) -> (r: Result<RgbUnit, ParseError>)
    ensures
        r == spec_parse_rgb_unit(s@),
        r matches Ok(c) ==> 0 <= c.red <= 1000 && 0 <= c.green <= 1000 && 0 <= c.blue <= 1000,
{
    let (a, b, c) = match split3(s) {
        None => {
            return Err(ParseError::Malformed);
        },
        Some(f) => f,
    };
    let red = match parse_milli_field(a, 1000) {
        Err(e) => {
            return Err(e);
        },
        Ok(v) => v,
    };
    let green = match parse_milli_field(b, 1000) {
        Err(e) => {
            return Err(e);
        },
        Ok(v) => v,
    };
    let blue = match parse_milli_field(c, 1000) {
        Err(e) => {
            return Err(e);
        },
        Ok(v) => v,
    };
    proof {
        lemma_parse_milli_range(a@, 1000);
        lemma_parse_milli_range(b@, 1000);
        lemma_parse_milli_range(c@, 1000);
    }
    Ok(RgbUnit { red, green, blue })
}

/// Parses an HSV literal such as `0,80,60`: hue in degrees, saturation and
/// value in percent, to thousandths.
pub fn parse_hsv(s: &[u8]) -> (r: Result<HsvColor, ParseError>)
    ensures
        r == spec_parse_hsv(s@),
        r matches Ok(c) ==> 0 <= c.h < 360_000 && 0 <= c.s <= 100_000 && 0 <= c.v <= 100_000,
{
    let (a, b, c) = match split3(s) {
        None => {
            return Err(ParseError::Malformed);
        },
        Some(f) => f,
    };
    let h = match parse_milli_field(a, 359_999) {
        Err(e) => {
            return Err(e);
        },
        Ok(v) => v,
    };
    let sat = match parse_milli_field(b, 100_000) {
        Err(e) => {
            return Err(e);
        },
        Ok(v) => v,
    };
    let v = match parse_milli_field(c, 100_000) {
        Err(e) => {
            return Err(e);
        },
        Ok(v) => v,
    };
    proof {
        lemma_parse_milli_range(a@, 359_999);
        lemma_parse_milli_range(b@, 100_000);
        lemma_parse_milli_range(c@, 100_000);
    }
    Ok(HsvColor { h, s: sat, v })
}

/// Parses an LCh literal such as `100.0,75.0,0.0`: the parsed color is
/// well-formed as it stands.
pub fn parse_lch(s: &[u8]) -> (r: Result<LchColor, ParseError>)
    ensures
        r == spec_parse_lch(s@),
        r matches Ok(c) ==> c.wf(),
{
    let (a, b, c) = match split3(s) {
        None => {
            return Err(ParseError::Malformed);
        },
        Some(f) => f,
    };
    let l = match parse_milli_field(a, 100_000) {
        Err(e) => {
            return Err(e);
        },
        Ok(v) => v,
    };
    let ch = match parse_milli_field(b, 100_000) {
        Err(e) => {
            return Err(e);
        },
        Ok(v) => v,
    };
    let h = match parse_milli_field(c, 359_999) {
        Err(e) => {
            return Err(e);
        },
        Ok(v) => v,
    };
    proof {
        lemma_parse_milli_range(a@, 100_000);
        lemma_parse_milli_range(b@, 100_000);
        lemma_parse_milli_range(c@, 359_999);
    }
    Ok(LchColor { l, c: ch, h })
}

/// A successfully parsed decimal field lies inside its bound.
proof fn lemma_parse_milli_range(s: Seq<u8>, max: int)
    requires
        0 <= max,
    ensures
        spec_parse_milli(s, max) matches Ok(v) ==> 0 <= v <= max,
{
    let dot = spec_find(s, 46);
    let ip = s.take(dot);
    let fp = s.skip(dot + 1);
    if spec_parse_milli(s, max) is Ok {
        lemma_find_bound(s, 46);
        lemma_digits_val_nonneg(ip);
        let v = spec_parse_milli(s, max)->Ok_0;
        if dot < s.len() {
            assert(spec_frac_digit(fp, 0) >= 0);
            assert(spec_frac_digit(fp, 1) >= 0);
            assert(spec_frac_digit(fp, 2) >= 0);
            assert(v == spec_digits_val(ip) * 1000 + spec_frac_milli(fp));
            assert(0 <= v <= max);
        } else {
            assert(v == spec_digits_val(ip) * 1000);
            assert(0 <= v <= max);
        }
    }
}

} // verus!
