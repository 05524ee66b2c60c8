use rats::color::Color;

#[test]
fn saturated_clamps_each_channel() {
    let c = Color::new(-5, 70000, 30000);
    assert_eq!(c.saturated(), Color::new(0, 65536, 30000));
}

#[test]
fn gamma_correction_takes_square_roots() {
    // sqrt(0.25) = 0.5 exactly in fixed point
    let c = Color::new(16384, 16384, 16384);
    assert_eq!(Color::gamma_correction(&c), Color::new(32768, 32768, 32768));
    // sqrt(1) = 1
    assert_eq!(Color::gamma_correction(&Color::white()), Color::white());
    assert_eq!(Color::gamma_correction(&Color::black()), Color::black());
}

#[test]
fn brightness_weighs_the_channels() {
    // 0.299*1 + 0.587*0.5 + 0.114*0.25 in fixed point, rounded once
    let c = Color::new(65536, 32768, 16384);
    assert_eq!(c.brightness(), 40697);
    assert_eq!(Color::black().brightness(), 0);
    assert_eq!(Color::white().brightness(), 65536);
}

#[test]
fn named_colors_have_their_channels() {
    assert_eq!(Color::black(), Color::new(0, 0, 0));
    assert_eq!(Color::white(), Color::new(65536, 65536, 65536));
    assert_eq!(Color::pink(), Color::new(65536, 0, 65536));
}

#[test]
fn hdr_input_still_quantizes_to_valid_channels() {
    // a channel of 5.0 clamps and lands on the top byte value
    let c = Color::new(327680, 32768, 0);
    assert_eq!(c.to_rgb8(), (255, 128, 0));
}

#[test]
fn brightness_of_clamped_color_stays_in_unit_range() {
    let hdr = Color::new(327680, -100, 500000);
    let s = hdr.saturated();
    let b1 = s.brightness();
    assert!(0 <= b1 && b1 <= 65536);
    let g = Color::gamma_correction(&s);
    let b2 = g.brightness();
    assert!(0 <= b2 && b2 <= 65536);
}
