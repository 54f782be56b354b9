pub mod bitmap;
pub mod color;
pub mod line;
pub mod obj;
pub mod shading;
pub mod surface;
pub mod tga;
pub mod triangle;

pub use bitmap::Bitmap;
pub use bitmap::OutOfBounds;
pub use color::MyColor;
pub use surface::Surface;
pub use surface::SurfaceError;
pub use surface::Target;

use crate::math::fixed::round_raw;
use crate::math::fixed::saturate;
use crate::math::fixed::Fixed;
use crate::math::vector::Vec2i;
use crate::math::vector::Vec3f;
use crate::renderer::line::all_taken;
use crate::renderer::line::drawn;
use crate::renderer::line::line_points;
use crate::renderer::line::pos;
use crate::renderer::triangle::depth_fits;
use crate::renderer::triangle::filled;
use crate::renderer::triangle::hits_taken;
use vstd::prelude::*;

verus! {

/// The unit-interval form of a byte channel, as a raw fixed-point value:
/// `b / 255`.
pub open spec fn byte_to_unit(b: u8) -> int {
    (b as int * 65536) / 255
}

/// The byte form of a unit-interval channel given by its raw fixed-point
/// value: `255 * v` rounded to the nearest integer and limited to a byte.
pub open spec fn unit_to_byte(raw: int) -> u8 {
    let scaled: int = round_raw(saturate(raw * 255));
    if scaled < 0 {
        0u8
    } else if scaled > 255 {
        255u8
    } else {
        scaled as u8
    }
}

/// The byte a channel holds once it went to the unit interval and back.
pub proof fn lemma_unit_round_trip(b: u8)
    ensures
        unit_to_byte(byte_to_unit(b)) == b,
{
    let u: int = byte_to_unit(b);
    assert(b * 65536 - 255 < u * 255 <= b * 65536) by {
        vstd::arithmetic::div_mod::lemma_fundamental_div_mod(b * 65536, 255);
    }
    let m: int = u * 255;
    let t: int = m + 32768 - b * 65536;
    assert(0 <= t < 65536);
    vstd::arithmetic::div_mod::lemma_fundamental_div_mod_converse_div(
        m + 32768,
        65536,
        b as int,
        t,
    );
}

/// What a pixel's color must offer: a byte form and a unit-interval form, and
/// the way from each to the other.
pub trait ImgColor: Copy {
    /// The red, green, blue and alpha channels of the color.
    spec fn channels(&self) -> (u8, u8, u8, u8);

    /// The color with the given channels.
    spec fn of_channels(ch: (u8, u8, u8, u8)) -> Self;

    /// A color is no more and no less than its four channels.
    proof fn lemma_channels(c: Self, ch: (u8, u8, u8, u8))
        ensures
            Self::of_channels(c.channels()) == c,
            Self::of_channels(ch).channels() == ch,
    ;

    /// The opaque color with the given channels.
    fn from_rgb(r: u8, g: u8, b: u8) -> (c: Self)
        ensures
            c == Self::of_channels((r, g, b, 255u8)),
    ;

    fn from_rgba(r: u8, g: u8, b: u8, a: u8) -> (c: Self)
        ensures
            c == Self::of_channels((r, g, b, a)),
    ;

    fn to_rgba(&self) -> (t: (u8, u8, u8, u8))
        ensures
            t == self.channels(),
    ;

    /// Some color; which one is not determined.
    fn random() -> (c: Self)
    ;

    /// The opaque color whose channels are the given fractions of full
    /// intensity.
    fn from_unit_rgb(r: Fixed, g: Fixed, b: Fixed) -> (c: Self)
        ensures
            c == Self::of_channels(
                (
                    unit_to_byte(r.0 as int),
                    unit_to_byte(g.0 as int),
                    unit_to_byte(b.0 as int),
                    255u8,
                ),
            ),
    {
        Self::from_rgb(channel_from_unit(r), channel_from_unit(g), channel_from_unit(b))
    }

    /// The color whose channels are the given fractions of full intensity.
    fn from_unit_rgba(r: Fixed, g: Fixed, b: Fixed, a: Fixed) -> (c: Self)
        ensures
            c == Self::of_channels(
                (
                    unit_to_byte(r.0 as int),
                    unit_to_byte(g.0 as int),
                    unit_to_byte(b.0 as int),
                    unit_to_byte(a.0 as int),
                ),
            ),
    {
        Self::from_rgba(
            channel_from_unit(r),
            channel_from_unit(g),
            channel_from_unit(b),
            channel_from_unit(a),
        )
    }

    /// The channels as fractions of full intensity.
    fn to_unit_rgba(&self) -> (t: (Fixed, Fixed, Fixed, Fixed))
        ensures
            t.0.0 == byte_to_unit(self.channels().0),
            t.1.0 == byte_to_unit(self.channels().1),
            t.2.0 == byte_to_unit(self.channels().2),
            t.3.0 == byte_to_unit(self.channels().3),
    {
        let (r, g, b, a) = self.to_rgba();
        (channel_to_unit(r), channel_to_unit(g), channel_to_unit(b), channel_to_unit(a))
    }
}

/// The byte form of one unit-interval channel.
pub fn channel_from_unit(v: Fixed) -> (b: u8)
    ensures
        b == unit_to_byte(v.0 as int),
{
    proof {
        assert((v.0 * (255 * 65536)) == (v.0 * 255) * 65536) by (nonlinear_arith);
        vstd::arithmetic::div_mod::lemma_div_multiples_vanish(v.0 * 255, 65536);
    }
    let scaled: i32 = v.mul(Fixed::from_int(255)).round();
    if scaled < 0 {
        0
    } else if scaled > 255 {
        255
    } else {
        scaled as u8
    }
}

/// The unit-interval form of one byte channel.
pub fn channel_to_unit(b: u8) -> (v: Fixed)
    ensures
        v.0 == byte_to_unit(b),
{
    Fixed::from_ratio(b as i32, 255)
}

/// A render target: a grid of pixels that can be written one at a time.
pub trait Img: Sized {
    type Color: ImgColor;

    type Err;

    /// The color of each pixel the target holds, by `(x, y)`.
    spec fn pixels(&self) -> Map<(int, int), Self::Color>;

    /// The target's width and height in pixels.
    spec fn extent(&self) -> (int, int);

    /// The errors of the writes that the target has refused, oldest first.
    spec fn refusals(&self) -> Seq<Self::Err>;

    /// Whether the target is sure to take a write at `p`. A target of which
    /// this cannot be known takes none for sure.
    spec fn takes(&self, p: (int, int)) -> bool;

    /// Whether the target is sure to tell its size.
    spec fn tells_size(&self) -> bool;

    /// Writes one pixel. A target that refuses the write is left as it was,
    /// but for the error, which joins its refusals.
    fn set_px(&mut self, pos: Vec2i, color: Self::Color) -> (r: Result<(), Self::Err>)
        ensures
            final(self).extent() == old(self).extent(),
            final(self).tells_size() == old(self).tells_size(),
            forall|p: (int, int)| final(self).takes(p) == old(self).takes(p),
            old(self).takes((pos.0[0] as int, pos.0[1] as int)) ==> r is Ok,
            match r {
                Ok(()) => final(self).pixels() == old(self).pixels().insert(
                    (pos.0[0] as int, pos.0[1] as int),
                    color,
                ) && final(self).refusals() == old(self).refusals(),
                Err(e) => final(self).pixels() == old(self).pixels() && final(self).refusals()
                    == old(self).refusals().push(e),
            },
    ;

    /// The current drawable extent.
    fn size(&self) -> (r: Result<Vec2i, Self::Err>)
        ensures
            self.tells_size() ==> r is Ok,
            r matches Ok(s) ==> (s.0[0] as int, s.0[1] as int) == self.extent(),
    ;
}

/// Whether a target is in `after` what it was in `before` but for its pixels
/// and refusals: of the same extent, as sure to tell its size, and sure to
/// take the same writes.
pub open spec fn steady<I: Img>(before: I, after: I) -> bool {
    &&& after.extent() == before.extent()
    &&& after.tells_size() == before.tells_size()
    &&& forall|p: (int, int)| after.takes(p) == before.takes(p)
}

/// How a drawing that hands on the first refusal leaves a target's
/// refusals: as they were where it went well, and with the error it returns
/// added where it did not.
pub open spec fn handed_on<E>(before: Seq<E>, after: Seq<E>, r: Result<(), E>) -> bool {
    match r {
        Ok(()) => after == before,
        Err(e) => after == before.push(e),
    }
}

/// The drawing operations of a render target. A target may replace one with
/// a faster path of its own that leaves the same pixels, depths and refusals
/// behind.
pub trait Draw: Img {
    /// Draws the straight segment from `start` to `end`.
    fn line(&mut self, start: Vec2i, end: Vec2i, color: Self::Color) -> (r: Result<(), Self::Err>)
        ensures
            steady(*old(self), *final(self)),
            drawn(
                old(self).pixels(),
                final(self).pixels(),
                line_points(pos(start), pos(end)),
                color,
                r is Ok,
            ),
            handed_on(old(self).refusals(), final(self).refusals(), r),
            all_taken(*old(self), line_points(pos(start), pos(end))) ==> r is Ok,
    {
        line::line(self, start, end, color)
    }

    /// Fills the screen-space triangle `corners`, testing against the depth
    /// buffer where there is one.
    fn tri(&mut self, corners: [Vec3f; 3], color: Self::Color, zbuffer: Option<&mut [Fixed]>) -> (r:
        Result<(), Self::Err>)
        requires
            zbuffer matches Some(z) ==> depth_fits(old(self).extent(), z@.len() as int),
        ensures
            steady(*old(self), *final(self)),
            filled(
                corners,
                color,
                old(self).extent(),
                old(self).pixels(),
                final(self).pixels(),
                match zbuffer {
                    Some(z) => Some(z@),
                    None => None,
                },
                match zbuffer {
                    Some(z) => Some(final(z)@),
                    None => None,
                },
                old(self).refusals(),
                final(self).refusals(),
                old(self).tells_size(),
                r,
            ),
            r matches Err(e) ==> (final(self).refusals() == old(self).refusals() ==> call_ensures(
                Self::size,
                (&*old(self),),
                Err::<Vec2i, Self::Err>(e),
            )),
            old(self).tells_size() && hits_taken(
                *old(self),
                corners,
                match zbuffer {
                    Some(z) => Some(z@),
                    None => None,
                },
            ) ==> r is Ok,
    {
        triangle::tri(self, corners, color, zbuffer)
    }
}

} // verus!
