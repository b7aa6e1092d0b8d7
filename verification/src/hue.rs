//! The hue wheel: which of its three bands a hue parameter falls in.
//!
//! The wheel runs from red over green and blue back to red as its parameter
//! goes from zero to three. A parameter outside that range, by more than a
//! small tolerance, is no hue at all.
use crate::binary64::{
    lemma_scale_order, lemma_small_integers, scale, unit_exponent, Binary64, ONE, TWO,
};
use vstd::arithmetic::power2::{lemma2_to64_rest, lemma_pow2_adds, pow2};
use vstd::prelude::*;

verus! {

/// The bits of `-1e-5`: hue parameters must be above it.
pub const HUE_FLOOR: u64 = 0xbee4_f8b5_88e3_68f1;

/// The bits of `3.0 + 1e-5`: hue parameters must be below it.
pub const HUE_CEILING: u64 = 0x4008_0005_3e2d_6239;

/// The bits of `3.0`, the end of the wheel.
pub const THREE: u64 = 0x4008_0000_0000_0000;

/// One third of the hue wheel.
#[derive(Clone, Copy, Debug, PartialEq, Eq, Structural)]
pub enum Band {
    /// From red to green: parameters below one.
    RedGreen,
    /// From green to blue: parameters from one to below two.
    GreenBlue,
    /// From blue back to red: parameters from two on.
    BlueRed,
}

/// Whether `t` is a hue parameter: strictly between the floor and the
/// ceiling, which no NaN is.
pub open spec fn in_hue_range(t: Binary64) -> bool {
    (Binary64 { bits: HUE_FLOOR }).lt(t) && t.lt(Binary64 { bits: HUE_CEILING })
}

/// The band of the hue parameter `t`. A boundary belongs to the band that
/// begins there.
pub open spec fn band_at(t: Binary64) -> Band {
    if t.lt(Binary64 { bits: ONE }) {
        Band::RedGreen
    } else if t.lt(Binary64 { bits: TWO }) {
        Band::GreenBlue
    } else {
        Band::BlueRed
    }
}

/// The band that the hue parameter `t` falls in, or `None` if `t` is out of
/// range or not a number.
pub fn band_of(t: Binary64) -> (r: Option<Band>)
    ensures
        r is Some <==> in_hue_range(t),
        r is Some ==> r.unwrap() == band_at(t),
{
    if !(Binary64::from_bits(HUE_FLOOR).less_than(t) && t.less_than(
        Binary64::from_bits(HUE_CEILING),
    )) {
        None
    } else if t.less_than(Binary64::from_bits(ONE)) {
        Some(Band::RedGreen)
    } else if t.less_than(Binary64::from_bits(TWO)) {
        Some(Band::GreenBlue)
    } else {
        Some(Band::BlueRed)
    }
}

/// The bands by the value of the parameter: below one, from one to below
/// two, and from two on.
pub proof fn lemma_bands_by_value(t: Binary64)
    requires
        !t.is_nan(),
    ensures
        band_at(t) == Band::RedGreen <==> t.scaled() < pow2(unit_exponent()),
        band_at(t) == Band::GreenBlue <==> pow2(unit_exponent()) <= t.scaled() < 2 * pow2(
            unit_exponent(),
        ),
        band_at(t) == Band::BlueRed <==> 2 * pow2(unit_exponent()) <= t.scaled(),
{
    lemma_small_integers();
}

/// Every parameter from zero to three is in range: the wheel itself never
/// fails the range test.
pub proof fn lemma_wheel_is_in_range(t: Binary64)
    requires
        !t.is_nan(),
        0 <= t.scaled() <= 3 * pow2(unit_exponent()),
    ensures
        in_hue_range(t),
{
    let floor = Binary64 { bits: HUE_FLOOR };
    let ceiling = Binary64 { bits: HUE_CEILING };
    let three = Binary64 { bits: THREE };
    lemma_scale_order(0, floor.magnitude());
    assert(floor.scaled() < 0);
    lemma_scale_order(THREE as nat, HUE_CEILING as nat);
    assert(three.magnitude() == THREE);
    assert(ceiling.magnitude() == HUE_CEILING);
    assert(three.scaled() == 3 * pow2(unit_exponent())) by {
        lemma2_to64_rest();
        lemma_pow2_adds(51, 1023);
        assert(THREE as nat / 0x0010_0000_0000_0000 == 1024);
        assert(THREE as nat % 0x0010_0000_0000_0000 == 0x8_0000_0000_0000);
        assert(scale(THREE as nat) == 0x18_0000_0000_0000 * pow2(1023));
        assert(0x18_0000_0000_0000 * pow2(1023) == 3 * (pow2(51) * pow2(1023))) by (nonlinear_arith)
            requires
                pow2(51) == 0x8_0000_0000_0000,
        ;
    }
}

} // verus!
