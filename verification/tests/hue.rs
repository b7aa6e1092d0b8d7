use mandel::binary64::Binary64;
use mandel::hue::{band_of, Band, HUE_CEILING, HUE_FLOOR, THREE};
use std::f64::consts::PI;

fn bits(x: f64) -> Binary64 {
    Binary64::from_bits(x.to_bits())
}

/// The band as the comparisons of the hardware give it.
fn band_in_hardware(t: f64) -> Option<Band> {
    if !(-1e-5 < t && 3.0 + 1e-5 > t) {
        None
    } else if t < 1.0 {
        Some(Band::RedGreen)
    } else if t < 2.0 {
        Some(Band::GreenBlue)
    } else {
        Some(Band::BlueRed)
    }
}

#[test]
fn hue_limits_are_the_bits_of_the_tolerances() {
    assert_eq!(HUE_FLOOR, (-1e-5f64).to_bits());
    assert_eq!(HUE_CEILING, (3.0f64 + 1e-5).to_bits());
    assert_eq!(THREE, 3.0f64.to_bits());
}

#[test]
fn bands_of_the_wheel() {
    assert_eq!(band_of(bits(0.0)), Some(Band::RedGreen));
    assert_eq!(band_of(bits(0.5)), Some(Band::RedGreen));
    assert_eq!(band_of(bits(1.5)), Some(Band::GreenBlue));
    assert_eq!(band_of(bits(2.5)), Some(Band::BlueRed));
    assert_eq!(band_of(bits(3.0)), Some(Band::BlueRed));
}

#[test]
fn boundary_belongs_to_the_band_that_begins_there() {
    assert_eq!(band_of(bits(1.0 - f64::EPSILON / 2.0)), Some(Band::RedGreen));
    assert_eq!(band_of(bits(1.0)), Some(Band::GreenBlue));
    assert_eq!(band_of(bits(2.0 - f64::EPSILON)), Some(Band::GreenBlue));
    assert_eq!(band_of(bits(2.0)), Some(Band::BlueRed));
}

#[test]
fn colours_meet_at_the_boundaries() {
    // the formula of the band that ends and of the band that begins
    let red_green = |t: f64| (1.0 - t, t, 0.0);
    let green_blue = |t: f64| (0.0, 2.0 - t, t - 1.0);
    let blue_red = |t: f64| (t - 2.0, 0.0, 3.0 - t);
    assert_eq!(red_green(1.0), green_blue(1.0));
    assert_eq!(green_blue(2.0), blue_red(2.0));
    assert_eq!(blue_red(3.0), red_green(0.0));
    let just_below = 1.0 - f64::EPSILON / 2.0;
    assert_eq!(band_of(bits(just_below)), Some(Band::RedGreen));
    let (r, g, b) = red_green(just_below);
    assert!(r <= f64::EPSILON && 1.0 - g <= f64::EPSILON && b == 0.0);
}

#[test]
fn tolerance_around_the_wheel() {
    assert_eq!(band_of(bits(-0.0)), Some(Band::RedGreen));
    assert_eq!(band_of(bits(-9e-6)), Some(Band::RedGreen));
    assert_eq!(band_of(bits(-1e-5)), None);
    assert_eq!(band_of(bits(-1.1e-5)), None);
    assert_eq!(band_of(bits(3.000009)), Some(Band::BlueRed));
    assert_eq!(band_of(bits(3.0 + 1e-5)), None);
    assert_eq!(band_of(bits(3.1)), None);
    assert_eq!(band_of(Binary64::from_bits(HUE_FLOOR - 1)), Some(Band::RedGreen));
    assert_eq!(band_of(Binary64::from_bits(HUE_CEILING - 1)), Some(Band::BlueRed));
}

#[test]
fn what_is_not_a_hue() {
    assert_eq!(band_of(bits(f64::NAN)), None);
    assert_eq!(band_of(bits(f64::INFINITY)), None);
    assert_eq!(band_of(bits(f64::NEG_INFINITY)), None);
    assert_eq!(band_of(bits(-1.0)), None);
    assert_eq!(band_of(bits(4.0)), None);
}

#[test]
fn band_agrees_with_the_hardware() {
    let mut t = -0.001;
    while t < 3.001 {
        assert_eq!(band_of(bits(t)), band_in_hardware(t), "{:?}", t);
        t += 0.000_37;
    }
    let mut state: u64 = 0x1234_5678_9abc_def1;
    for _ in 0..2000 {
        state = state.wrapping_mul(6364136223846793005).wrapping_add(1442695040888963407);
        let t = f64::from_bits(state);
        assert_eq!(band_of(bits(t)), band_in_hardware(t), "{:?}", t);
    }
}

#[test]
fn angles_of_every_direction_are_hues() {
    for k in 0..720 {
        let angle = (k as f64 / 2.0).to_radians();
        let arg = angle.sin().atan2(angle.cos());
        let t = (arg + PI) / (PI * 2.0 / 3.0);
        assert!(band_of(bits(t)).is_some(), "{:?}", t);
    }
}
