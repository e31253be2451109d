use palette::{FromColor, Lch, LinSrgb, Srgb};

use palgrad::{
    parse_hsv, parse_lch, parse_rgb8, parse_rgb_unit, Geometry, Gradient, LchColor, ParseError,
    Rgb8,
};

#[test]
fn parses_rgb8_literal() {
    assert_eq!(parse_rgb8(b"228,68,21"), Ok(Rgb8::new(228, 68, 21)));
    assert_eq!(parse_rgb8(b"0,0,0"), Ok(Rgb8::new(0, 0, 0)));
    assert_eq!(parse_rgb8(b"255,255,255"), Ok(Rgb8::new(255, 255, 255)));
}

#[test]
fn rejects_rgb8_out_of_range() {
    assert_eq!(parse_rgb8(b"256,0,0"), Err(ParseError::OutOfRange));
    assert_eq!(parse_rgb8(b"0,999,0"), Err(ParseError::OutOfRange));
}

#[test]
fn rejects_malformed_rgb8() {
    assert_eq!(parse_rgb8(b"a,0,0"), Err(ParseError::Malformed));
    assert_eq!(parse_rgb8(b"1,2"), Err(ParseError::Malformed));
    assert_eq!(parse_rgb8(b""), Err(ParseError::Malformed));
    assert_eq!(parse_rgb8(b"1,,3"), Err(ParseError::Malformed));
}

#[test]
fn parses_unit_rgb_literal_to_thousandths() {
    let c = parse_rgb_unit(b"1.0,0.6,0.0").unwrap();
    assert_eq!((c.red, c.green, c.blue), (1000, 600, 0));
    let c = parse_rgb_unit(b"0.05,1,0.999").unwrap();
    assert_eq!((c.red, c.green, c.blue), (50, 1000, 999));
}

#[test]
fn rejects_unit_rgb_above_one() {
    assert_eq!(parse_rgb_unit(b"1.5,0,0"), Err(ParseError::OutOfRange));
    assert_eq!(parse_rgb_unit(b"0,1.001,0"), Err(ParseError::OutOfRange));
}

#[test]
fn parses_hsv_literal() {
    let c = parse_hsv(b"0,80,60").unwrap();
    assert_eq!((c.h, c.s, c.v), (0, 80_000, 60_000));
    let c = parse_hsv(b"359.999,100,0").unwrap();
    assert_eq!((c.h, c.s, c.v), (359_999, 100_000, 0));
}

#[test]
fn rejects_hsv_hue_of_full_turn() {
    assert_eq!(parse_hsv(b"360,0,0"), Err(ParseError::OutOfRange));
    assert_eq!(parse_hsv(b"0,101,0"), Err(ParseError::OutOfRange));
}

#[test]
fn parses_lch_literal_into_valid_color() {
    assert_eq!(
        parse_lch(b"100.0,75.0,0.0"),
        Ok(LchColor::new(100_000, 75_000, 0))
    );
    assert_eq!(
        parse_lch(b"20.0,25.0,200.0"),
        Ok(LchColor::new(20_000, 25_000, 200_000))
    );
    assert_eq!(parse_lch(b"100.5,0,0"), Err(ParseError::OutOfRange));
}

fn lch_fixed_from_rgb8(r: u8, g: u8, b: u8) -> LchColor {
    let lin: LinSrgb<f32> = Srgb::new(r, g, b).into_format::<f32>().into_linear();
    let lch = Lch::from_color(lin);
    LchColor::new(
        (lch.l * 1000.0).round() as i64,
        (lch.chroma * 1000.0).round().max(0.0) as i64,
        ((lch.hue.into_positive_degrees() * 1000.0).round() as i64).rem_euclid(360_000),
    )
}

fn rgb8_from_lch_fixed(c: LchColor) -> (u8, u8, u8) {
    let lch = Lch::new(
        c.l as f32 / 1000.0,
        c.c as f32 / 1000.0,
        c.h as f32 / 1000.0,
    );
    let lin: LinSrgb<f32> = LinSrgb::from_color(lch);
    let srgb: Srgb<f32> = Srgb::from_linear(lin);
    let srgb8: Srgb<u8> = srgb.into_format();
    (srgb8.red, srgb8.green, srgb8.blue)
}

#[test]
fn rgb_round_trip_through_perceptual_space() {
    // An 8-bit RGB literal converted to the perceptual space, run through a
    // continuous gradient of one duplicated control point, and converted
    // back, lands within one step per channel.
    for (r, g, b) in [
        (228u8, 68u8, 21u8),
        (0, 0, 0),
        (255, 255, 255),
        (46, 137, 209),
        (120, 120, 120),
    ] {
        let c = lch_fixed_from_rgb8(r, g, b);
        let grad = Gradient::new(vec![c, c], Geometry::Linear);
        let sampled = grad.eval(1, 2);
        assert_eq!(sampled, c);
        let (r2, g2, b2) = rgb8_from_lch_fixed(sampled);
        assert!((r2 as i32 - r as i32).abs() <= 1, "red {r} became {r2}");
        assert!((g2 as i32 - g as i32).abs() <= 1, "green {g} became {g2}");
        assert!((b2 as i32 - b as i32).abs() <= 1, "blue {b} became {b2}");
    }
}

#[test]
fn rejects_malformed_decimal_fields() {
    assert_eq!(parse_rgb_unit(b"1.,0,0"), Err(ParseError::Malformed));
    assert_eq!(parse_rgb_unit(b".5,0,0"), Err(ParseError::Malformed));
    assert_eq!(parse_rgb_unit(b"0.5.5,0,0"), Err(ParseError::Malformed));
    assert_eq!(parse_rgb_unit(b"0,0,"), Err(ParseError::Malformed));
}

#[test]
fn decimal_fields_read_to_thousandths() {
    // Fractional digits beyond the third are ignored.
    let c = parse_rgb_unit(b"0.9999,0,0").unwrap();
    assert_eq!(c.red, 999);
    assert_eq!(parse_rgb_unit(b"1.2345,0,0"), Err(ParseError::OutOfRange));
}
