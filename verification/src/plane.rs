//! From pixels to the plane: where a pixel lies along an axis.
//!
//! An axis of the picture covers the coordinates from minus one up to, but
//! not reaching, one. The pixel `pos` of `size` has the coordinate
//! `2 * pos / size - 1`.
use crate::ratio::Ratio;
use vstd::prelude::*;

verus! {

/// Numerator of the distance of the pixel `pos` from the start of its axis,
/// as a fraction of half the side.
pub open spec fn span_num(pos: nat) -> int {
    2 * (pos as int)
}

/// The coordinate of the pixel `pos` of `size`, times `size`: the distance
/// from the start of the axis less half the side, which is one.
pub open spec fn coordinate_num(pos: nat, size: nat) -> int {
    span_num(pos) - size
}

/// How far the pixel `pos` lies from the start of its axis, as a fraction of
/// half the side: `2 * pos / size`. The coordinate of the pixel is one less.
/// A picture of no pixels has no axis, and the result is `None`.
pub fn axis_span(pos: u32, size: u32) -> (r: Option<Ratio>)
    ensures
        r is Some <==> size > 0,
        r is Some ==> r.unwrap().num == span_num(pos as nat),
        r is Some ==> r.unwrap().den == size,
{
    if size == 0 {
        None
    } else {
        Some(Ratio { num: 2 * (pos as i64), den: size as i64 })
    }
}

/// The first pixel of an axis has the coordinate minus one, and the place
/// just behind the last pixel has the coordinate one: the coordinate, times
/// the size, is the size with a minus sign there and the size here.
pub proof fn lemma_axis_ends(size: nat)
    requires
        size > 0,
    ensures
        span_num(0) == 0,
        coordinate_num(0, size) == -(size as int),
        span_num(size) == 2 * size,
        coordinate_num(size, size) == size,
{
}

/// The pixels of an axis lie in order, from minus one up to but not reaching
/// one, and the middle of an axis with an even number of pixels is zero.
pub proof fn lemma_axis_is_ordered(pos: nat, next: nat, size: nat)
    requires
        pos < next < size,
    ensures
        -(size as int) <= coordinate_num(pos, size) < coordinate_num(next, size) < size,
        size == 2 * pos ==> coordinate_num(pos, size) == 0,
{
}

} // verus!
