use image::Rgb;
use mandel::binary64::Binary64;
use mandel::hue::{band_of, Band};
use mandel::naming::output_file_name;
use mandel::picture::{render, Raster};
use mandel::pixel::pixel_from_levels;
use mandel::plane::axis_span;
use mandel::sweep::Sweep;
use mandel::tone::{settle, Colour};
use mandel::trajectory::{endpoints, has_escaped, EscapeRun, MAX_ITERS};
use num::Complex;
use std::f64::consts::PI;

fn bits(x: f64) -> Binary64 {
    Binary64::from_bits(x.to_bits())
}

fn number(x: Binary64) -> f64 {
    f64::from_bits(x.to_bits())
}

fn normalize(pos: u32, max: u32) -> f64 {
    let span = axis_span(pos, max).unwrap();
    span.num as f64 / span.den as f64 - 1.0
}

fn trajectory(c: Complex<f64>, max_iters: u64, pow: f64) -> Vec<Complex<f64>> {
    let mut z = Complex::new(0.0, 0.0);
    let mut out = vec![];
    let mut run = EscapeRun::new(max_iters);
    while run.step(has_escaped(bits(z.norm_sqr()))) {
        z = z.powf(pow) + c;
        out.push(z);
    }
    assert_eq!(run.len() as usize, out.len());
    out
}

/// One pixel, with the arithmetic done here and every decision taken by the
/// library.
fn shade(h: u32, w: u32, size: u32, sweep: &Sweep, max_iters: u64) -> Rgb<u8> {
    let c = Complex::new(normalize(w, size) - 0.4, normalize(h, size));
    let mut overall = (0.0, 0.0, 0.0);
    for i in sweep.first()..=sweep.last() {
        let at = sweep.position(i).unwrap();
        let pow = 2.0 * 1.5f64.powf(at.num as f64 / at.den as f64);
        let points = trajectory(c, max_iters, pow);
        assert!(points.len() as u64 <= max_iters);
        let (first, last) = endpoints(points.len()).unwrap();
        let value = points[first] - points[last];
        let t = (value.arg() + PI) / (PI * 2.0 / 3.0);
        let color = match band_of(bits(t)).unwrap() {
            Band::RedGreen => (1.0 - t, t, 0.0),
            Band::GreenBlue => (0.0, 2.0 - t, t - 1.0),
            Band::BlueRed => (t - 2.0, 0.0, 3.0 - t),
        };
        let intensity = points.len() as f64 / max_iters as f64;
        let sum = color.0.powi(3) + color.1.powi(3) + color.2.powi(3);
        overall.0 += color.0 * intensity / sum;
        overall.1 += color.1 * intensity / sum;
        overall.2 += color.2 * intensity / sum;
    }
    let count = sweep.count() as f64;
    let averaged =
        Colour { red: bits(overall.0 / count), green: bits(overall.1 / count), blue: bits(overall.2 / count) };
    let settled = settle(averaged).unwrap();
    for channel in [settled.red, settled.green, settled.blue] {
        assert!(number(channel).is_finite());
        assert!(number(channel) <= 1.0);
    }
    let level = |x: Binary64| (number(x) * 255.0).round() as i64;
    pixel_from_levels(level(settled.red), level(settled.green), level(settled.blue))
}

fn draw(size: u32, samples: u64) -> Raster {
    let sweep = Sweep::new(samples).unwrap();
    render(size, |h, w| shade(h, w, size, &sweep, MAX_ITERS)).unwrap()
}

#[test]
fn small_picture_is_drawn_without_failure() {
    let raster = draw(16, 1);
    assert_eq!(raster.side(), 16);
    assert!(raster.pixel(8, 8).is_some());
    assert!(raster.pixel(15, 15).is_some());
    assert!(raster.pixel(16, 16).is_none());
    assert_eq!(output_file_name(16, 1), "mandel-16-1.png");
    let img = image::RgbImage::from_raw(16, 16, raster.into_bytes()).unwrap();
    assert_eq!(img.dimensions(), (16, 16));
}

#[test]
fn centre_of_the_small_picture_has_a_colour() {
    let sweep = Sweep::new(1).unwrap();
    assert_eq!(normalize(8, 16), 0.0);
    let direct = shade(8, 8, 16, &sweep, MAX_ITERS);
    let raster = draw(16, 1);
    assert_eq!(raster.pixel(8, 8), Some((direct.0[0], direct.0[1], direct.0[2])));
}

#[test]
fn drawing_twice_gives_the_same_bytes() {
    assert_eq!(draw(16, 1).into_bytes(), draw(16, 1).into_bytes());
    assert_eq!(draw(9, 2).into_bytes(), draw(9, 2).into_bytes());
}

#[test]
fn picture_has_three_bytes_for_every_pixel() {
    for (size, samples) in [(1u32, 0u64), (3, 1), (8, 2), (16, 1)] {
        let raster = draw(size, samples);
        assert_eq!(raster.side(), size);
        assert_eq!(raster.into_bytes().len(), 3 * (size * size) as usize);
    }
}

#[test]
fn sweep_without_samples_draws_the_classical_set() {
    let raster = draw(8, 0);
    assert_eq!(raster.side(), 8);
    // the single exponent is two
    let sweep = Sweep::new(0).unwrap();
    let at = sweep.position(0).unwrap();
    assert_eq!(2.0 * 1.5f64.powf(at.num as f64 / at.den as f64), 2.0);
    // and the orbit of a point of the set fills the budget
    let inside = trajectory(Complex::new(-0.4, 0.0), MAX_ITERS, 2.0);
    assert_eq!(inside.len() as u64, MAX_ITERS);
}

#[test]
fn trajectories_start_at_the_constant_and_respect_the_cap() {
    let c = Complex::new(0.3, 0.5);
    for cap in [1u64, 2, 7, 100] {
        let points = trajectory(c, cap, 2.0);
        assert!(!points.is_empty());
        assert!(points.len() as u64 <= cap);
        assert_eq!(points[0], c);
    }
    assert!(trajectory(c, 0, 2.0).is_empty());
}

#[test]
fn coordinates_run_from_minus_one_to_one() {
    for size in [1u32, 2, 16, 1000, u32::MAX] {
        assert_eq!(normalize(0, size), -1.0);
        assert_eq!(normalize(size, size), 1.0);
    }
}

#[test]
fn coordinates_are_those_of_the_direct_formula() {
    for size in [1u32, 3, 7, 16, 1000, 4097] {
        for pos in 0..size {
            let direct = pos as f64 * 2.0 / size as f64 - 1.0;
            assert_eq!(normalize(pos, size).to_bits(), direct.to_bits());
            assert!(-1.0 <= direct && direct < 1.0);
        }
    }
    assert_eq!(normalize(8, 16), 0.0);
    assert_eq!(normalize(4, 16), -0.5);
    assert_eq!(normalize(12, 16), 0.5);
}
