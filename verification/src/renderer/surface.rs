use crate::math::vector::Vec2i;
use crate::math::vector::Vector;
use crate::renderer::color::MyColor;
use crate::renderer::Draw;
use crate::renderer::Img;
use vstd::prelude::*;

verus! {

/// Something that takes pixels and tells its size, of which nothing more is
/// known: a window, a file, a device.
pub trait Target {
    type Err;

    /// Takes one pixel, given by its red, green, blue and alpha channels.
    fn put(&mut self, x: i32, y: i32, rgba: (u8, u8, u8, u8)) -> Result<(), Self::Err>;

    /// The width and height in pixels.
    fn size(&self) -> Result<(i32, i32), Self::Err>;
}

/// Why a surface did not do what it was asked.
#[derive(Debug, Clone, Copy, PartialEq, Eq)]
pub enum SurfaceError<E> {
    /// The target failed.
    Target(E),
    /// The target's size is no longer the one the surface was made with.
    Resized,
}

/// What a surface returns for what its target answered to a pixel: `Ok` for
/// `Ok`, and the target's error as the surface's.
pub open spec fn passed_on<E>(answer: Result<(), E>) -> Result<(), SurfaceError<E>> {
    match answer {
        Ok(()) => Ok(()),
        Err(e) => Err(SurfaceError::Target(e)),
    }
}

/// A render target made of a [`Target`]. Every write goes to the target as
/// one call of `put` with the pixel's place and its four channels, and the
/// surface's pixels are those for which that call answered `Ok` since the
/// surface was made; its refusals are the errors of the other calls. Its
/// extent is the size the target told when the surface was made.
pub struct Surface<T: Target> {
    target: T,
    width: i32,
    height: i32,
    taken: Ghost<Map<(int, int), MyColor>>,
    refused: Ghost<Seq<SurfaceError<T::Err>>>,
}

impl<T: Target> Surface<T> {
    /// The target that the surface draws on.
    pub closed spec fn outside(&self) -> T {
        self.target
    }

    /// Whether `r` is the surface that `target` and its answer to a size
    /// query make: with the extent answered, no pixel taken and nothing
    /// refused yet, or the target's error.
    pub open spec fn made(target: T, answer: Result<(i32, i32), T::Err>, r: Result<Self, T::Err>) -> bool {
        match answer {
            Ok(size) => r matches Ok(s) && s.extent() == (size.0 as int, size.1 as int) && s.pixels()
                == Map::<(int, int), MyColor>::empty() && s.refusals() == Seq::<
                SurfaceError<T::Err>,
            >::empty() && s.outside() == target,
            Err(e) => r matches Err(f) && f == e,
        }
    }

    /// What a size query of the surface returns for what the target
    /// answers: the surface's extent where the answer is that extent,
    /// `Resized` where it is another, and the target's error.
    pub open spec fn answered(&self, answer: Result<(i32, i32), T::Err>) -> Result<
        Vec2i,
        SurfaceError<T::Err>,
    > {
        match answer {
            Ok(size) => if (size.0 as int, size.1 as int) == self.extent() {
                Ok(Vector([size.0, size.1]))
            } else {
                Err(SurfaceError::Resized)
            },
            Err(e) => Err(SurfaceError::Target(e)),
        }
    }

    /// A surface on `target`, with no pixel taken yet and the extent that the
    /// target tells: the target is asked for its size once, and the surface
    /// is what its answer makes. Fails where the target does not tell its
    /// size.
    pub fn new(target: T) -> (r: Result<Self, T::Err>)
        ensures
            exists|answer: Result<(i32, i32), T::Err>| #[trigger]
                call_ensures(T::size, (&target,), answer) && Self::made(target, answer, r),
    {
        let answer = target.size();
        Surface::with_size(target, answer)
    }

    /// A surface on `target`, given what the target answered when asked for
    /// its size: with that extent and no pixel taken yet, or the target's
    /// error.
    pub fn with_size(target: T, answer: Result<(i32, i32), T::Err>) -> (r: Result<Self, T::Err>)
        ensures
            Self::made(target, answer, r),
    {
        match answer {
            Ok((width, height)) => Ok(
                Surface {
                    target,
                    width,
                    height,
                    taken: Ghost(Map::empty()),
                    refused: Ghost(Seq::empty()),
                },
            ),
            Err(e) => Err(e),
        }
    }

    /// The size of the surface, given what the target answered when asked
    /// for its size now: the surface's extent where the answer is that
    /// extent, `Resized` where it is another, and the target's error.
    pub fn confirm_size(&self, answer: Result<(i32, i32), T::Err>) -> (r: Result<
        Vec2i,
        SurfaceError<T::Err>,
    >)
        ensures
            r == self.answered(answer),
    {
        match answer {
            Ok((width, height)) => {
                if width == self.width && height == self.height {
                    let size: Vec2i = Vector([width, height]);
                    assert(size.0 =~= Vector([width, height]).0);
                    Ok(size)
                } else {
                    Err(SurfaceError::Resized)
                }
            },
            Err(e) => Err(SurfaceError::Target(e)),
        }
    }

    /// Notes what the target answered when it was handed a pixel: the pixel
    /// is one of the surface's where the target took it, and the target's
    /// error is passed on where it did not.
    fn note(&mut self, pos: Vec2i, color: MyColor, answer: Result<(), T::Err>) -> (r: Result<
        (),
        SurfaceError<T::Err>,
    >)
        ensures
            final(self).extent() == old(self).extent(),
            final(self).outside() == old(self).outside(),
            match answer {
                Ok(()) => final(self).pixels() == old(self).pixels().insert(
                    (pos.0[0] as int, pos.0[1] as int),
                    color,
                ) && final(self).refusals() == old(self).refusals(),
                Err(e) => final(self).pixels() == old(self).pixels() && final(self).refusals()
                    == old(self).refusals().push(SurfaceError::Target(e)),
            },
            r == passed_on(answer),
    {
        match answer {
            Ok(()) => {
                proof {
                    self.taken@ = self.taken@.insert((pos.0[0] as int, pos.0[1] as int), color);
                }
                Ok(())
            },
            Err(e) => {
                proof {
                    self.refused@ = self.refused@.push(SurfaceError::Target(e));
                }
                Err(SurfaceError::Target(e))
            },
        }
    }

    /// The target, to read what was drawn.
    pub fn target(&self) -> (r: &T)
        ensures
            *r == self.outside(),
    {
        &self.target
    }

    /// Gives the target back.
    pub fn into_target(self) -> (r: T)
        ensures
            r == self.outside(),
    {
        self.target
    }
}

impl<T: Target> Img for Surface<T> {
    type Color = MyColor;

    type Err = SurfaceError<T::Err>;

    closed spec fn pixels(&self) -> Map<(int, int), MyColor> {
        self.taken@
    }

    closed spec fn extent(&self) -> (int, int) {
        (self.width as int, self.height as int)
    }

    closed spec fn refusals(&self) -> Seq<SurfaceError<T::Err>> {
        self.refused@
    }

    /// Of a target outside, it cannot be known which writes it takes.
    open spec fn takes(&self, p: (int, int)) -> bool {
        false
    }

    /// Of a target outside, it cannot be known whether it tells its size.
    open spec fn tells_size(&self) -> bool {
        false
    }

    /// Hands the pixel to the target: one call of `put` with x, y and the
    /// four channels of the color, whose answer decides whether the pixel is
    /// one of the surface's or the error one of its refusals.
    fn set_px(&mut self, pos: Vec2i, color: MyColor) -> (r: Result<(), SurfaceError<T::Err>>)
        ensures
            exists|m: &mut T, answer: Result<(), T::Err>|
                {
                    &&& *m == old(self).outside()
                    &&& *final(m) == final(self).outside()
                    &&& #[trigger] call_ensures(
                        T::put,
                        (m, pos.0[0], pos.0[1], (color.r, color.g, color.b, color.a)),
                        answer,
                    )
                    &&& r == passed_on(answer)
                },
    {
        let answer = self.target.put(pos.0[0], pos.0[1], (color.r, color.g, color.b, color.a));
        self.note(pos, color, answer)
    }

    /// Asks the target for its size now, which must be the one the surface
    /// was made with.
    fn size(&self) -> (r: Result<Vec2i, SurfaceError<T::Err>>)
        ensures
            exists|answer: Result<(i32, i32), T::Err>| #[trigger]
                call_ensures(T::size, (&self.outside(),), answer) && r == self.answered(answer),
    {
        let answer = self.target.size();
        assert(call_ensures(T::size, (&self.outside(),), answer));
        self.confirm_size(answer)
    }
}

impl<T: Target> Draw for Surface<T> {}

} // verus!
