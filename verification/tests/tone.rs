use mandel::binary64::Binary64;
use mandel::tone::{is_above_one, settle, Colour, MAX_HALVINGS};

fn bits(x: f64) -> Binary64 {
    Binary64::from_bits(x.to_bits())
}

fn number(x: Binary64) -> f64 {
    f64::from_bits(x.to_bits())
}

fn colour(r: f64, g: f64, b: f64) -> Colour {
    Colour { red: bits(r), green: bits(g), blue: bits(b) }
}

fn channels(c: Colour) -> (f64, f64, f64) {
    (number(c.red), number(c.green), number(c.blue))
}

/// The tone mapping in hardware arithmetic, with the number of halvings.
fn settle_in_hardware(mut c: (f64, f64, f64)) -> ((f64, f64, f64), u64) {
    let mut halvings = 0;
    while c.0 > 1.0 || c.1 > 1.0 || c.2 > 1.0 {
        c.0 /= 2.0;
        c.1 /= 2.0;
        c.2 /= 2.0;
        halvings += 1;
    }
    (c, halvings)
}

#[test]
fn above_one_agrees_with_the_hardware() {
    for x in [
        0.0,
        1.0,
        1.0 + f64::EPSILON,
        1.0 - f64::EPSILON,
        -2.0,
        2.0,
        f64::MAX,
        f64::INFINITY,
        f64::NEG_INFINITY,
        f64::NAN,
        f64::MIN_POSITIVE,
    ] {
        assert_eq!(is_above_one(bits(x)), x > 1.0, "{:?}", x);
    }
}

#[test]
fn colour_in_range_is_left_alone() {
    for c in [(0.0, 0.0, 0.0), (1.0, 1.0, 1.0), (0.25, 0.5, 1.0), (-3.0, 0.5, 0.0)] {
        assert_eq!(settle(colour(c.0, c.1, c.2)), Some(colour(c.0, c.1, c.2)));
    }
}

#[test]
fn colour_out_of_range_is_halved_until_it_fits() {
    assert_eq!(settle(colour(4.0, 1.0, 0.5)), Some(colour(1.0, 0.25, 0.125)));
    assert_eq!(settle(colour(1.5, 0.0, 3.0)), Some(colour(0.375, 0.0, 0.75)));
    assert_eq!(settle(colour(0.2, 2.0, 0.1)), Some(colour(0.1, 1.0, 0.05)));
    assert_eq!(
        settle(colour(1.0 + f64::EPSILON, 1.0, 1.0)),
        Some(colour(0.5 + f64::EPSILON / 2.0, 0.5, 0.5))
    );
}

#[test]
fn settled_colour_keeps_the_ratio_between_channels() {
    for c in [(4.0, 1.0, 0.5), (3.7, 1.3, 0.0021), (100.0, 7.0, 13.0), (1.0e10, 3.0, 0.7)] {
        let (r, g, b) = channels(settle(colour(c.0, c.1, c.2)).unwrap());
        assert!(r <= 1.0 && g <= 1.0 && b <= 1.0);
        assert_eq!(r / g, c.0 / c.1);
        assert_eq!(g / b, c.1 / c.2);
        assert_eq!(r * c.1, g * c.0);
        // a power of two, the same for all channels
        assert_eq!(c.0 / r, c.1 / g);
        assert_eq!((c.0 / r).log2().fract(), 0.0);
    }
}

#[test]
fn settled_colour_never_grows() {
    let (r, g, b) = channels(settle(colour(5.0, -6.0, 0.3)).unwrap());
    assert_eq!((r, g, b), (0.625, -0.75, 0.0375));
}

#[test]
fn settling_agrees_with_the_hardware() {
    let mut state: u64 = 0x9e37_79b9_7f4a_7c15;
    let mut next = || {
        state = state.wrapping_mul(6364136223846793005).wrapping_add(1442695040888963407);
        f64::from_bits(state)
    };
    let mut checked = 0;
    for _ in 0..3000 {
        let c = (next(), next(), next());
        if c.0 == f64::INFINITY || c.1 == f64::INFINITY || c.2 == f64::INFINITY {
            continue;
        }
        let (expected, halvings) = settle_in_hardware(c);
        assert!(halvings <= MAX_HALVINGS);
        let got = channels(settle(colour(c.0, c.1, c.2)).unwrap());
        for (e, g) in [(expected.0, got.0), (expected.1, got.1), (expected.2, got.2)] {
            if e.is_nan() {
                assert!(g.is_nan());
            } else {
                assert_eq!(e.to_bits(), g.to_bits());
            }
        }
        checked += 1;
    }
    assert!(checked > 2900);
}

#[test]
fn settling_the_averages_of_a_sweep() {
    // channels as the averaging leaves them: a few units at most
    for c in [(1.3, 0.4, 0.0), (2.0, 2.0, 2.0), (3.9, 0.1, 1.0), (0.9999, 1.0001, 0.0)] {
        let (expected, halvings) = settle_in_hardware(c);
        assert!(halvings <= 2);
        assert_eq!(channels(settle(colour(c.0, c.1, c.2)).unwrap()), expected);
    }
}

#[test]
fn largest_number_takes_the_most_halvings() {
    let (expected, halvings) = settle_in_hardware((f64::MAX, 1.0, 0.0));
    assert_eq!(halvings, MAX_HALVINGS);
    let got = channels(settle(colour(f64::MAX, 1.0, 0.0)).unwrap());
    assert_eq!(got, expected);
    assert_eq!(got.0, 1.0 - f64::EPSILON / 2.0);
    assert_eq!(got.1, 2.0f64.powi(-1024));
}

#[test]
fn infinite_channel_cannot_be_settled() {
    assert_eq!(settle(colour(f64::INFINITY, 0.0, 0.0)), None);
    assert_eq!(settle(colour(0.5, f64::INFINITY, 2.0)), None);
    assert_eq!(settle(colour(0.5, 0.5, f64::INFINITY)), None);
}

#[test]
fn channels_below_the_range_do_not_count() {
    assert_eq!(
        settle(colour(f64::NEG_INFINITY, 0.5, 1.0)),
        Some(colour(f64::NEG_INFINITY, 0.5, 1.0))
    );
    let settled = settle(colour(f64::NAN, 2.0, 0.5)).unwrap();
    assert!(number(settled.red).is_nan());
    assert_eq!(number(settled.green), 1.0);
    assert_eq!(number(settled.blue), 0.25);
}
