//! Verified core of a renderer for a generalised Mandelbrot fractal.
//!
//! Every pixel of the picture is coloured from a sweep of real exponents around
//! two: for each exponent the recurrence `z <- z^p + c` is run until it escapes
//! or a cap is reached, and the trajectory is turned into a hue and a weight.
//! The weighted hues are averaged, brought into range and written as bytes.
//!
//! This crate holds what that pipeline decides: where a pixel lies in the
//! plane, which exponents the sweep visits, when a trajectory stops and how
//! long it can be, which band of the hue wheel a hue falls in, how an
//! over-bright colour is brought back into range, how a channel level becomes
//! a byte, how the pixels make up the picture, and what the picture is called
//! on disk. Numbers that the pipeline computes in double precision come in as
//! their bits, see [`binary64`]; the arithmetic on them is the caller's.
pub mod binary64;
pub mod hue;
pub mod naming;
pub mod picture;
pub mod pixel;
pub mod plane;
pub mod ratio;
pub mod sweep;
pub mod tone;
pub mod trajectory;
