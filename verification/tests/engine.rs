use palgrad::{
    clamp_radius, generate_filename, hex_line, linear_gradient_continuous,
    linear_gradient_stepped, overlay_atop, radial_gradient_continuous, radial_gradient_stepped,
    radial_gradient_with_overlay, radial_stops, select_work, step_count, swatch_index, Geometry,
    Gradient, LchColor, LinRgb, Rgb8, Work,
};

fn gray(l: i64) -> LchColor {
    LchColor::new(l, 0, 0)
}

#[test]
fn step_count_two_colors_zero_requested() {
    assert_eq!(step_count(2, 0), 2);
}

#[test]
fn step_count_two_colors_one_requested() {
    assert_eq!(step_count(2, 1), 3);
}

#[test]
fn step_count_two_colors_five_requested() {
    assert_eq!(step_count(2, 5), 7);
}

#[test]
fn step_count_four_colors_three_requested() {
    assert_eq!(step_count(4, 3), 10);
}

#[test]
fn hue_interpolates_across_wrap_boundary() {
    // Hues of 10 and 350 degrees: the shorter arc runs through 0/360,
    // never through 180.
    let a = LchColor::new(50_000, 50_000, 10_000);
    let b = LchColor::new(50_000, 50_000, 350_000);
    let g = Gradient::new(vec![a, b], Geometry::Linear);
    assert_eq!(g.eval(1, 2).h, 0);
    assert_eq!(g.eval(1, 4).h, 5_000);
    assert_eq!(g.eval(3, 4).h, 355_000);
    for num in 0..=8 {
        let h = g.eval(num, 8).h;
        assert!(h <= 10_000 || h >= 350_000, "hue {h} left the short arc");
    }
}

#[test]
fn eval_hits_both_endpoints_exactly() {
    let a = LchColor::new(12_000, 34_000, 56_000);
    let b = LchColor::new(78_000, 90_000, 123_000);
    let g = Gradient::new(vec![a, b], Geometry::Linear);
    assert_eq!(g.eval(0, 7), a);
    assert_eq!(g.eval(7, 7), b);
}

#[test]
fn eval_of_duplicated_point_is_constant() {
    let c = LchColor::new(61_803, 39_887, 271_828);
    let g = Gradient::new(vec![c, c], Geometry::Linear);
    for num in 0..=10 {
        assert_eq!(g.eval(num, 10), c);
    }
}

#[test]
fn linear_continuous_starts_on_first_point() {
    let a = gray(0);
    let b = gray(100_000);
    let g = Gradient::new(vec![a, b], Geometry::Linear);
    let cols = linear_gradient_continuous(&g, 1000);
    assert_eq!(cols.len(), 1000);
    assert_eq!(cols[0], a);
    // The last column approaches the gradient's limit at t -> 1.
    assert_eq!(cols[999].l, 99_900);
}

#[test]
fn linear_stepped_follows_policy_and_spacing() {
    let a = gray(0);
    let b = gray(100_000);
    let g = Gradient::new(vec![a, b], Geometry::Linear);
    let stops = linear_gradient_stepped(&g, 5);
    assert_eq!(stops.len(), 7);
    assert_eq!(stops[0].l, 0);
    assert_eq!(stops[3].l, 50_000);
    assert_eq!(stops[6].l, 100_000);
}

#[test]
fn radial_gradient_closes_the_loop() {
    let a = LchColor::new(10_000, 20_000, 30_000);
    let b = LchColor::new(40_000, 50_000, 60_000);
    let g = Gradient::new(vec![a, b], Geometry::Radial);
    assert_eq!(g.len(), 3);
    assert_eq!(g.point(2), a);
    let stops = radial_stops(&g, 4);
    // Three control points after closing: 2 * 4 + 1 steps, plus the
    // trailing stop that closes the loop.
    assert_eq!(stops.len(), 10);
    assert_eq!(stops[9], stops[0]);
    assert_eq!(stops[0], a);
}

#[test]
fn radial_continuous_masks_annulus_boundaries() {
    let a = gray(10_000);
    let b = gray(90_000);
    let g = Gradient::new(vec![a, b], Geometry::Radial);
    // A 2x2 image: pixel (1,0) sits exactly on the outer boundary
    // (d^2 == (size/2)^2) and is included; (1,1) lies outside.
    let angles = vec![0i64; 4];
    let pix = radial_gradient_continuous(&g, 2, 0, 0, &angles);
    assert_eq!(pix.len(), 4);
    assert_eq!(pix[0], Some(a));
    assert_eq!(pix[1], Some(a));
    assert_eq!(pix[3], None);
}

#[test]
fn radial_continuous_excludes_inner_disc() {
    let a = gray(10_000);
    let b = gray(90_000);
    let g = Gradient::new(vec![a, b], Geometry::Radial);
    let size: u32 = 100;
    let angles = vec![0i64; (size * size) as usize];
    let pix = radial_gradient_continuous(&g, size, 499, 0, &angles);
    // The exact center is inside the inner radius: transparent.
    assert_eq!(pix[(49 * size + 49) as usize], None);
    // The rightmost point of the middle row sits on the outer edge.
    assert_eq!(pix[(49 * size + 99) as usize], Some(a));
}

#[test]
fn stepped_radial_selects_nearest_stop() {
    // A normalized angle parameter of exactly 0.5 against three stops
    // resolves to round(0.5 * 2) = 1, the middle stop.
    let angles = vec![500_000i64; 4];
    let pix = radial_gradient_stepped(2, 0, 0, 3, &angles);
    assert_eq!(pix[0], Some(1));
    assert_eq!(pix[1], Some(1));
    assert_eq!(pix[3], None);
}

#[test]
fn overlay_alpha_full_at_center_zero_at_edge() {
    let a = gray(10_000);
    let b = gray(90_000);
    let g = Gradient::new(vec![a, b], Geometry::Radial);
    let angles = vec![0i64; 4];
    let pix = radial_gradient_with_overlay(&g, 2, 0, 900_000, &angles);
    // Pixel (0,0) is the exact center (d^2 == 0): alpha is the factor.
    assert_eq!(pix[0], Some((a, 900_000)));
    // Pixel (1,0) sits on the disc edge (d^2 == (size/2)^2): alpha is 0.
    assert_eq!(pix[1], Some((a, 0)));
    // Pixel (1,1) lies outside the disc.
    assert_eq!(pix[3], None);
}

#[test]
fn atop_blends_by_alpha() {
    let over = LinRgb::new(1_000_000, 0, 500_000);
    let base = LinRgb::new(0, 1_000_000, 500_000);
    let half = overlay_atop(over, 500_000, base);
    assert_eq!(half.red, 500_000);
    assert_eq!(half.green, 500_000);
    assert_eq!(half.blue, 500_000);
    assert_eq!(overlay_atop(over, 1_000_000, base), over);
    assert_eq!(overlay_atop(over, 0, base), base);
}

#[test]
fn inner_radius_clamps_to_working_range() {
    // 0.6 behaves identically to 0.49, and -0.2 identically to 0.0.
    assert_eq!(clamp_radius(600), 490);
    assert_eq!(clamp_radius(490), 490);
    assert_eq!(clamp_radius(-200), 0);
    assert_eq!(clamp_radius(0), 0);
    assert_eq!(clamp_radius(499), 499);
    assert_eq!(clamp_radius(500), 490);
    let a = gray(10_000);
    let b = gray(90_000);
    let g = Gradient::new(vec![a, b], Geometry::Radial);
    let angles = vec![0i64; 36];
    let wide = radial_gradient_continuous(&g, 6, clamp_radius(600), 0, &angles);
    let capped = radial_gradient_continuous(&g, 6, clamp_radius(490), 0, &angles);
    assert_eq!(wide, capped);
}

#[test]
fn hex_line_renders_lowercase_comma_separated() {
    let colors = vec![Rgb8::new(228, 68, 21), Rgb8::new(0, 255, 16)];
    assert_eq!(hex_line(&colors), b"e44415,00ff10\n".to_vec());
    assert_eq!(hex_line(&vec![]), Vec::<u8>::new());
    assert_eq!(hex_line(&vec![Rgb8::new(10, 0, 160)]), b"0a00a0\n".to_vec());
}

#[test]
fn generated_filename_is_all_digits() {
    let name = match generate_filename() {
        Ok(n) => n,
        Err(_) => panic!("the clock could not be read"),
    };
    assert!(name.len() >= 4);
    assert!(name.bytes().all(|b| b.is_ascii_digit()));
}

#[test]
fn work_selection_matches_flags() {
    assert_eq!(select_work(true, true, false), Work::LinGradStep);
    assert_eq!(select_work(true, false, true), Work::LinGradCont);
    assert_eq!(select_work(false, true, true), Work::RadGradStep);
    assert_eq!(select_work(false, false, true), Work::RadGradContOverlay);
    assert_eq!(select_work(false, false, false), Work::RadGradCont);
}

#[test]
fn swatch_index_walks_equal_blocks() {
    assert_eq!(swatch_index(0, 40), 0);
    assert_eq!(swatch_index(39, 40), 0);
    assert_eq!(swatch_index(40, 40), 1);
    assert_eq!(swatch_index(279, 40), 6);
}

#[test]
fn angle_offset_shifts_the_gradient() {
    let a = gray(10_000);
    let b = gray(90_000);
    let g = Gradient::new(vec![a, b], Geometry::Radial);
    // A quarter-turn pixel angle plus a quarter-turn offset lands halfway
    // around the closed loop, on the second control point.
    let quarter = vec![250_000i64; 4];
    let pix = radial_gradient_continuous(&g, 2, 0, 250_000, &quarter);
    assert_eq!(pix[0], Some(b));
    // A negative raw angle first gains a full turn; with the offset it
    // reaches exactly one turn, the closing point of the loop.
    let negative = vec![-250_000i64; 4];
    let pix = radial_gradient_continuous(&g, 2, 0, 250_000, &negative);
    assert_eq!(pix[0], Some(a));
}
