//! From channel levels to the bytes of a pixel.
use image::Rgb;
use vstd::prelude::*;

verus! {

/// The largest value a colour channel can take.
pub const CHANNEL_MAX: u8 = 255;

/// The pixel type of the `image` crate: an array of channel values.
#[verifier::external_type_specification]
#[verifier::external_body]
#[verifier::reject_recursive_types(T)]
pub struct ExRgb<T>(Rgb<T>);

/// The red, green and blue bytes that a pixel holds, in that order.
pub uninterp spec fn rgb_channels(p: Rgb<u8>) -> Seq<u8>;

/// The channel level `v` brought into the range of a byte.
pub open spec fn clamp_level(v: int) -> int {
    if v < 0 {
        0
    } else if v > 255 {
        255
    } else {
        v
    }
}

/// Converts a rounded channel level to a byte, saturating at both ends.
pub fn level_to_byte(v: i64) -> (b: u8)
    ensures
        b as int == clamp_level(v as int),
{
    if v < 0 {
        0
    } else if v > CHANNEL_MAX as i64 {
        CHANNEL_MAX
    } else {
        v as u8
    }
}

/// Builds a pixel with the tuple constructor `image::Rgb`, which stores the
/// array it is given: the pixel holds exactly the three bytes, red first.
#[verifier::external_body]
fn rgb_from_bytes(r: u8, g: u8, b: u8) -> (p: Rgb<u8>)
    ensures
        rgb_channels(p) == seq![r, g, b],
{
    Rgb([r, g, b])
}

/// Whether the pixel `p` holds the three levels `r`, `g` and `b`, each
/// saturated to a byte, and nothing else.
pub open spec fn holds_levels(p: Rgb<u8>, r: int, g: int, b: int) -> bool {
    &&& rgb_channels(p).len() == 3
    &&& rgb_channels(p)[0] == clamp_level(r)
    &&& rgb_channels(p)[1] == clamp_level(g)
    &&& rgb_channels(p)[2] == clamp_level(b)
}

/// The pixel whose channels are the three rounded levels, each saturated to a
/// byte.
pub fn pixel_from_levels(r: i64, g: i64, b: i64) -> (p: Rgb<u8>)
    ensures
        holds_levels(p, r as int, g as int, b as int),
{
    rgb_from_bytes(level_to_byte(r), level_to_byte(g), level_to_byte(b))
}

/// Whatever the level, the byte it becomes lies between 0 and 255, and a
/// level in that range is kept.
pub proof fn lemma_level_becomes_a_byte(v: int)
    ensures
        0 <= clamp_level(v) <= CHANNEL_MAX,
        0 <= v <= CHANNEL_MAX ==> clamp_level(v) == v,
{
}

/// Levels decide the pixel: two pixels made from the same levels hold the
/// same bytes.
pub proof fn lemma_levels_decide_the_pixel(p: Rgb<u8>, q: Rgb<u8>, r: int, g: int, b: int)
    requires
        holds_levels(p, r, g, b),
        holds_levels(q, r, g, b),
    ensures
        rgb_channels(p) == rgb_channels(q),
{
    assert(rgb_channels(p) =~= rgb_channels(q));
}

} // verus!
