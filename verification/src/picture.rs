//! The picture: a square grid of pixels, each drawn once by a shader.
use crate::pixel::rgb_channels;
use image::{ImageBuffer, Rgb};
use vstd::prelude::*;

verus! {

/// The number of channel bytes in one pixel.
pub const CHANNELS: usize = 3;

/// Whether the channel bytes of a picture of the given width and height are
/// no more than a vector can hold, which is `isize::MAX` bytes.
pub open spec fn fits_in_memory(width: nat, height: nat) -> bool {
    CHANNELS * width * height <= isize::MAX
}

/// Where the pixel in column `x` of row `y` begins among the channel bytes of
/// a picture of the given width: rows follow one another, and in a row the
/// pixels.
pub open spec fn pixel_offset(width: nat, x: int, y: int) -> int {
    (y * width + x) * CHANNELS
}

/// The channel bytes of the pixel in column `x` of row `y`.
pub open spec fn pixel_in(bytes: Seq<u8>, width: nat, x: int, y: int) -> Seq<u8> {
    bytes.subrange(pixel_offset(width, x, y), pixel_offset(width, x, y) + CHANNELS)
}

/// Whether `channels` are the bytes of a pixel that `shade` may return for the
/// column `x` and the row `y`.
pub open spec fn is_shade_of<F: Fn(u32, u32) -> Rgb<u8>>(
    channels: Seq<u8>,
    shade: F,
    x: u32,
    y: u32,
) -> bool {
    exists|p: Rgb<u8>| #[trigger] call_ensures(shade, (x, y), p) && channels == rgb_channels(p)
}

/// Whether `bytes` are the channel bytes of the picture of the given width
/// and height whose every pixel was drawn by `shade` for its own column and
/// row.
pub open spec fn drawn_by<F: Fn(u32, u32) -> Rgb<u8>>(
    bytes: Seq<u8>,
    shade: F,
    width: u32,
    height: u32,
) -> bool {
    &&& bytes.len() == CHANNELS * width * height
    &&& forall|x: u32, y: u32|
        x < width && y < height ==> #[trigger] is_shade_of(
            pixel_in(bytes, width as nat, x as int, y as int),
            shade,
            x,
            y,
        )
}

/// Builds a picture with `ImageBuffer::from_fn` and takes its channel bytes
/// out with `into_raw`. The buffer has three bytes for every pixel, rows one
/// after another, and every pixel holds what the function returned when it
/// was called, once, with the pixel's column and row. The call panics where
/// the channel bytes are more than a vector can hold, which is ruled out
/// here.
#[verifier::external_body]
fn bytes_from_fn<F>(width: u32, height: u32, shade: F) -> (bytes: Vec<u8>)
    where
        F: Fn(u32, u32) -> Rgb<u8>,
    requires
        fits_in_memory(width as nat, height as nat),
        forall|x: u32, y: u32| x < width && y < height ==> #[trigger] call_requires(shade, (x, y)),
    ensures
        drawn_by(bytes@, shade, width, height),
{
    ImageBuffer::from_fn(width, height, shade).into_raw()
}

/// A square picture of red, green and blue bytes.
pub struct Raster {
    side: u32,
    bytes: Vec<u8>,
}

impl Raster {
    #[verifier::type_invariant]
    spec fn is_square(self) -> bool {
        self.bytes@.len() == CHANNELS * self.side * self.side
    }

    /// The number of pixels in a row, and of rows.
    pub closed spec fn side_len(self) -> nat {
        self.side as nat
    }

    /// The channel bytes of all pixels, row by row.
    pub closed spec fn channel_bytes(self) -> Seq<u8> {
        self.bytes@
    }

    /// The channel bytes of the pixel in column `x` of row `y`.
    pub open spec fn pixel_at(self, x: int, y: int) -> Seq<u8> {
        pixel_in(self.channel_bytes(), self.side_len(), x, y)
    }

    /// The side of the picture, in pixels.
    pub fn side(&self) -> (n: u32)
        ensures
            n == self.side_len(),
            self.channel_bytes().len() == CHANNELS * n * n,
    {
        proof {
            use_type_invariant(self);
        }
        self.side
    }

    /// The red, green and blue byte of the pixel in column `x` of row `y`, or
    /// `None` for a place outside the picture.
    pub fn pixel(&self, x: u32, y: u32) -> (r: Option<(u8, u8, u8)>)
        ensures
            r is Some <==> x < self.side_len() && y < self.side_len(),
            r is Some ==> self.pixel_at(x as int, y as int) == seq![
                r.unwrap().0,
                r.unwrap().1,
                r.unwrap().2,
            ],
    {
        proof {
            use_type_invariant(self);
        }
        if x >= self.side || y >= self.side {
            return None;
        }
        let n: usize = self.bytes.len();
        proof {
            lemma_pixel_is_inside(self.side as nat, x as int, y as int);
        }
        let at: usize = (y as usize * self.side as usize + x as usize) * CHANNELS;
        let r = (self.bytes[at], self.bytes[at + 1], self.bytes[at + 2]);
        assert(self.pixel_at(x as int, y as int) =~= seq![r.0, r.1, r.2]);
        Some(r)
    }

    /// The channel bytes of the picture.
    pub fn into_bytes(self) -> (bytes: Vec<u8>)
        ensures
            bytes@ == self.channel_bytes(),
            bytes@.len() == CHANNELS * self.side_len() * self.side_len(),
    {
        proof {
            use_type_invariant(&self);
        }
        self.bytes
    }
}

/// The bytes of a pixel inside a picture lie inside the picture's bytes, and
/// the arithmetic that finds them stays below the number of those bytes.
pub proof fn lemma_pixel_is_inside(side: nat, x: int, y: int)
    requires
        0 <= x < side,
        0 <= y < side,
    ensures
        0 <= y * side <= y * side + x,
        y * side + x < side * side,
        0 <= pixel_offset(side, x, y),
        pixel_offset(side, x, y) + CHANNELS <= CHANNELS * side * side,
{
    assert(0 <= y * side && y * side + side <= side * side) by (nonlinear_arith)
        requires
            0 <= y < side,
    ;
    assert((y * side + x) * 3 + 3 <= 3 * side * side) by (nonlinear_arith)
        requires
            y * side + x + 1 <= side * side,
    ;
}

/// Whether `shade` can return but one colour for each place.
pub open spec fn is_single_valued<F: Fn(u32, u32) -> Rgb<u8>>(shade: F) -> bool {
    forall|x: u32, y: u32, p: Rgb<u8>, q: Rgb<u8>|
        #![trigger call_ensures(shade, (x, y), p), call_ensures(shade, (x, y), q)]
        call_ensures(shade, (x, y), p) && call_ensures(shade, (x, y), q) ==> rgb_channels(p)
            == rgb_channels(q)
}

/// The shader decides the picture: two pictures of the same width and height
/// drawn by a shader that has one colour for each place are the same, byte
/// for byte.
pub proof fn lemma_shader_decides_the_picture<F: Fn(u32, u32) -> Rgb<u8>>(
    a: Seq<u8>,
    b: Seq<u8>,
    shade: F,
    width: u32,
    height: u32,
)
    requires
        drawn_by(a, shade, width, height),
        drawn_by(b, shade, width, height),
        is_single_valued(shade),
    ensures
        a == b,
{
    assert forall|i: int| 0 <= i < a.len() implies a[i] == b[i] by {
        let k = i / 3;
        let c = i % 3;
        let w = width as int;
        let h = height as int;
        assert(3 * w * h == 3 * (w * h)) by (nonlinear_arith);
        assert(k < w * h);
        assert(w > 0) by (nonlinear_arith)
            requires
                0 <= k < w * h,
                w >= 0,
        ;
        let x = k % w;
        let y = k / w;
        assert(k == y * w + x && 0 <= x < w && 0 <= y < h) by (nonlinear_arith)
            requires
                x == k % w,
                y == k / w,
                0 <= k < w * h,
                w > 0,
        ;
        let xs = x as u32;
        let ys = y as u32;
        let pa = pixel_in(a, width as nat, x, y);
        let pb = pixel_in(b, width as nat, x, y);
        assert(is_shade_of(pa, shade, xs, ys));
        assert(is_shade_of(pb, shade, xs, ys));
        let p = choose|p: Rgb<u8>| #[trigger]
            call_ensures(shade, (xs, ys), p) && pa == rgb_channels(p);
        let q = choose|q: Rgb<u8>| #[trigger]
            call_ensures(shade, (xs, ys), q) && pb == rgb_channels(q);
        assert(pa == pb);
        assert(pixel_offset(width as nat, x, y) == 3 * k);
        assert(a[i] == pa[c]);
        assert(b[i] == pb[c]);
    }
    assert(a =~= b);
}

/// Draws the square picture of side `size`, calling `shade` with the column
/// and the row of every pixel. The result is `None` if a picture of that side
/// has more channel bytes than a vector can hold.
pub fn render<F>(size: u32, shade: F) -> (r: Option<Raster>)
    where
        F: Fn(u32, u32) -> Rgb<u8>,
    requires
        forall|x: u32, y: u32| x < size && y < size ==> #[trigger] call_requires(shade, (x, y)),
    ensures
        r is Some <==> fits_in_memory(size as nat, size as nat),
        r is Some ==> r.unwrap().side_len() == size,
        r is Some ==> drawn_by(r.unwrap().channel_bytes(), shade, size, size),
{
    let side: u128 = size as u128;
    assert(3 * side * side <= 3 * 0xffff_ffff * 0xffff_ffff) by (nonlinear_arith)
        requires
            side <= 0xffff_ffff,
    ;
    assert(CHANNELS * (size as nat) * (size as nat) == 3 * side * side) by (nonlinear_arith)
        requires
            side == size,
            CHANNELS == 3,
    ;
    if 3 * side * side <= isize::MAX as u128 {
        let bytes = bytes_from_fn(size, size, shade);
        Some(Raster { side: size, bytes })
    } else {
        None
    }
}

} // verus!
