use crate::math::vector::Vec2i;
use crate::math::vector::Vector;
use crate::renderer::color::MyColor;
use crate::renderer::triangle::lemma_cell_in_range;
use crate::renderer::triangle::on_screen;
use crate::renderer::Draw;
use crate::renderer::Img;
use vstd::prelude::*;

verus! {

/// The error of a write outside a bitmap.
#[derive(Clone, Copy, Debug, PartialEq, Eq, Structural)]
pub struct OutOfBounds;

/// A render target in memory: `width * height` colors, row by row.
pub struct Bitmap {
    width: usize,
    height: usize,
    data: Vec<MyColor>,
    refused: Ghost<Seq<OutOfBounds>>,
}

impl Bitmap {
    #[verifier::type_invariant]
    spec fn inv(self) -> bool {
        &&& self.width <= i32::MAX
        &&& self.height <= i32::MAX
        &&& self.data.len() == self.width * self.height
    }

    /// A bitmap of the given size with every pixel set to `fill`; `None` when
    /// a side is longer than `i32::MAX` or the pixels cannot be counted in a
    /// `usize`.
    pub fn new(width: usize, height: usize, fill: MyColor) -> (r: Option<Bitmap>)
        ensures
            r is Some <==> width <= i32::MAX && height <= i32::MAX && width * height
                <= usize::MAX,
            r matches Some(b) ==> b.extent() == (width as int, height as int) && b.refusals()
                == Seq::<OutOfBounds>::empty() && b.pixels() == Map::new(
                |p: (int, int)| on_screen((width as int, height as int), p),
                |p: (int, int)| fill,
            ),
    {
        if width > 2147483647 || height > 2147483647 {
            return None;
        }
        let n: usize = match width.checked_mul(height) {
            Some(n) => n,
            None => {
                return None;
            },
        };
        let mut data: Vec<MyColor> = Vec::new();
        let mut i: usize = 0;
        while i < n
            invariant
                i <= n,
                data.len() == i,
                forall|j: int| 0 <= j < i ==> data[j] == fill,
            decreases n - i,
        {
            data.push(fill);
            i += 1;
        }
        let b = Bitmap { width, height, data, refused: Ghost(Seq::empty()) };
        assert(b.pixels() =~= Map::new(
            |p: (int, int)| on_screen((width as int, height as int), p),
            |p: (int, int)| fill,
        )) by {
            assert forall|p: (int, int)| on_screen((width as int, height as int), p) implies 0
                <= p.0 + p.1 * width < n by {
                lemma_cell_in_range((width as int, height as int), p);
            }
        }
        Some(b)
    }

    pub fn width(&self) -> (w: usize)
        ensures
            w == self.extent().0,
    {
        self.width
    }

    pub fn height(&self) -> (h: usize)
        ensures
            h == self.extent().1,
    {
        self.height
    }

    /// The color at `(x, y)`, or `None` outside the bitmap.
    pub fn get(&self, x: i32, y: i32) -> (r: Option<MyColor>)
        ensures
            r is Some <==> self.pixels().dom().contains((x as int, y as int)),
            r matches Some(c) ==> c == self.pixels()[(x as int, y as int)],
    {
        proof {
            use_type_invariant(self);
        }
        if x < 0 || y < 0 || x as usize >= self.width || y as usize >= self.height {
            return None;
        }
        proof {
            lemma_cell_in_range((self.width as int, self.height as int), (x as int, y as int));
        }
        let i: usize = x as usize + y as usize * self.width;
        Some(self.data[i])
    }
}

impl Img for Bitmap {
    type Color = MyColor;

    type Err = OutOfBounds;

    closed spec fn pixels(&self) -> Map<(int, int), MyColor> {
        Map::new(
            |p: (int, int)| on_screen((self.width as int, self.height as int), p),
            |p: (int, int)| self.data[p.0 + p.1 * self.width],
        )
    }

    closed spec fn extent(&self) -> (int, int) {
        (self.width as int, self.height as int)
    }

    closed spec fn refusals(&self) -> Seq<OutOfBounds> {
        self.refused@
    }

    /// A bitmap takes every write inside it.
    open spec fn takes(&self, p: (int, int)) -> bool {
        on_screen(self.extent(), p)
    }

    /// A bitmap always tells its size.
    open spec fn tells_size(&self) -> bool {
        true
    }

    /// Writes the pixel if it lies inside the bitmap, and fails otherwise.
    fn set_px(&mut self, pos: Vec2i, color: MyColor) -> (r: Result<(), OutOfBounds>)
        ensures
            r is Ok <==> on_screen(old(self).extent(), (pos.0[0] as int, pos.0[1] as int)),
    {
        proof {
            use_type_invariant(&*self);
        }
        let x: i32 = pos.0[0];
        let y: i32 = pos.0[1];
        if x < 0 || y < 0 || x as usize >= self.width || y as usize >= self.height {
            proof {
                self.refused@ = self.refused@.push(OutOfBounds);
            }
            return Err(OutOfBounds);
        }
        proof {
            lemma_cell_in_range((self.width as int, self.height as int), (x as int, y as int));
        }
        let i: usize = x as usize + y as usize * self.width;
        self.data[i] = color;
        proof {
            let w: int = self.width as int;
            let target = old(self).pixels().insert((x as int, y as int), color);
            assert(self.data@ == old(self).data@.update(i as int, color));
            assert forall|p: (int, int)| #[trigger]
                self.pixels().dom().contains(p) implies self.pixels()[p] == target[p] by {
                lemma_cell_in_range((w, self.height as int), p);
                if p.1 != y as int {
                    assert(p.0 + p.1 * w != x + y * w) by (nonlinear_arith)
                        requires
                            0 <= p.0 < w,
                            0 <= x < w,
                            p.1 != y,
                    ;
                }
            }
            assert(self.pixels().dom() =~= target.dom());
            assert(self.pixels() =~= target);
        }
        Ok(())
    }

    /// The size of the bitmap; it never fails.
    fn size(&self) -> (r: Result<Vec2i, OutOfBounds>)
        ensures
            r is Ok,
    {
        proof {
            use_type_invariant(self);
        }
        Ok(Vector([self.width as i32, self.height as i32]))
    }
}

impl Draw for Bitmap {}

} // verus!
